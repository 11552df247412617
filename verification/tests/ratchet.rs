use taylorchat::ratchet::{
    account_from_bytes, account_to_bytes, decrypt, encrypt, new_account, olm_to_wire, our_bundle,
    session_from_bytes, session_to_bytes, start_inbound, start_outbound, wire_parts,
};

#[test]
fn troca_forward_secret_entre_dois_pares() {
    // Alice wants to talk to Bob. Bob publishes a bundle (over an authenticated channel).
    let alice = new_account();
    let alice_identity = alice.curve25519_key().to_base64();
    let mut bob = new_account();
    let bob_bundle = our_bundle(&mut bob).unwrap();

    // Alice opens the session and sends the first (pre-key) message.
    let (mut alice_session, wire1) = start_outbound(&alice, &bob_bundle, "oi, Bob").unwrap();

    // Bob receives, opens the inbound session (with Alice's identity) and reads.
    let (mut bob_session, text1) = start_inbound(&mut bob, &alice_identity, &wire1).unwrap();
    assert_eq!(text1, "oi, Bob");

    // Bob answers; Alice reads. (the ratchet moves the keys at each exchange)
    let wire2 = encrypt(&mut bob_session, "e aí, Alice").unwrap();
    assert_eq!(decrypt(&mut alice_session, &wire2).unwrap(), "e aí, Alice");

    // One more round trip.
    let wire3 = encrypt(&mut alice_session, "tudo certo?").unwrap();
    assert_eq!(decrypt(&mut bob_session, &wire3).unwrap(), "tudo certo?");

    // Persistence: pickle, bytes, pickle keeps the session working.
    let bytes = session_to_bytes(&alice_session);
    let mut restored = session_from_bytes(&bytes).unwrap();
    let wire4 = encrypt(&mut bob_session, "após reiniciar").unwrap();
    assert_eq!(decrypt(&mut restored, &wire4).unwrap(), "após reiniciar");
}

#[test]
fn wire_frames_carry_type_then_ciphertext() {
    let w = olm_to_wire(1, &[9, 8, 7]);
    assert_eq!(w, vec![1, 9, 8, 7]);
    assert_eq!(wire_parts(&w), Some((1usize, vec![9u8, 8, 7])));
    assert_eq!(wire_parts(&[]), None);
}

#[test]
fn empty_frame_is_refused() {
    let alice = new_account();
    let mut bob = new_account();
    let bundle = our_bundle(&mut bob).unwrap();
    let (mut s, _) = start_outbound(&alice, &bundle, "x").unwrap();
    assert_eq!(decrypt(&mut s, &[]).err().unwrap(), "frame Olm vazio");
}

#[test]
fn a_normal_message_cannot_open_a_session() {
    let alice = new_account();
    let alice_identity = alice.curve25519_key().to_base64();
    let mut bob = new_account();
    let bundle = our_bundle(&mut bob).unwrap();
    let (mut s, _) = start_outbound(&alice, &bundle, "primeira").unwrap();
    // fake a type-1 frame
    let mut w = encrypt(&mut s, "segunda").unwrap();
    w[0] = 1;
    assert!(start_inbound(&mut bob, &alice_identity, &w).is_err());
}

#[test]
fn accounts_survive_a_restart() {
    let acct = new_account();
    let id = acct.curve25519_key().to_base64();
    let back = account_from_bytes(&account_to_bytes(&acct)).unwrap();
    assert_eq!(back.curve25519_key().to_base64(), id);
    assert!(account_from_bytes(b"lixo").err().unwrap().starts_with("pickle de conta inválido: "));
    assert!(session_from_bytes(b"lixo").is_err());
}

#[test]
fn bad_identity_keys_are_refused() {
    let alice = new_account();
    let mut bob = new_account();
    let mut bundle = our_bundle(&mut bob).unwrap();
    bundle.identity_key = "nao-e-chave".to_string();
    assert!(start_outbound(&alice, &bundle, "x").is_err());
}
