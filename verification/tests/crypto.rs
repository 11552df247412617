use taylorchat::crypto::{decrypt, derive_key, encrypt, encrypt_with_nonce, hash_hex, random_hex, random_key};

#[test]
fn roundtrip_e_chave_errada() {
    let key = derive_key(&[7u8; 32]);
    let ct = encrypt(&key, "olá, mundo 🌎".as_bytes()).unwrap();
    // the plaintext does not leak
    assert!(!ct.windows(3).any(|w| w == b"ol\xc3"));
    // decrypts back
    assert_eq!(decrypt(&key, &ct).unwrap(), "olá, mundo 🌎".as_bytes());
    // a key derived from another secret does not open it
    let outra = derive_key(&[9u8; 32]);
    assert!(decrypt(&outra, &ct).is_err());
}

#[test]
fn derivacao_e_deterministica() {
    assert_eq!(derive_key(&[1u8; 32]), derive_key(&[1u8; 32]));
    assert_ne!(derive_key(&[1u8; 32]), derive_key(&[2u8; 32]));
}

#[test]
fn sealed_blob_is_nonce_then_ciphertext_with_tag() {
    let key = derive_key(&[4u8; 32]);
    let nonce = [9u8; 24];
    let blob = encrypt_with_nonce(&key, &nonce, b"abc").unwrap();
    assert_eq!(&blob[..24], &nonce[..]);
    assert_eq!(blob.len(), 24 + 3 + 16);
    assert_eq!(decrypt(&key, &blob).unwrap(), b"abc");
}

#[test]
fn short_data_is_refused() {
    let key = derive_key(&[4u8; 32]);
    assert_eq!(decrypt(&key, &[0u8; 10]).err().unwrap(), "dado cifrado curto demais");
    assert_eq!(decrypt(&key, &[0u8; 23]).err().unwrap(), "dado cifrado curto demais");
    assert_eq!(
        decrypt(&key, &[0u8; 24]).err().unwrap(),
        "falha ao decifrar (chave errada ou dado corrompido)"
    );
}

#[test]
fn tampered_data_does_not_open() {
    let key = derive_key(&[4u8; 32]);
    let mut blob = encrypt(&key, b"segredo").unwrap();
    let last = blob.len() - 1;
    blob[last] ^= 1;
    assert_eq!(
        decrypt(&key, &blob).err().unwrap(),
        "falha ao decifrar (chave errada ou dado corrompido)"
    );
}

#[test]
fn each_encryption_draws_a_fresh_nonce() {
    let key = derive_key(&[4u8; 32]);
    let a = encrypt(&key, b"x").unwrap();
    let b = encrypt(&key, b"x").unwrap();
    assert_ne!(a, b);
    assert_eq!(decrypt(&key, &a).unwrap(), b"x");
    assert_eq!(decrypt(&key, &b).unwrap(), b"x");
}

#[test]
fn hash_hex_is_sha256_in_lower_hex() {
    assert_eq!(
        hash_hex(b"abc"),
        "ba7816bf8f01cfea414140de5dae2223b00361a396177a9cb410ff61f20015ad"
    );
    assert_eq!(
        hash_hex(b""),
        "e3b0c44298fc1c149afbf4c8996fb92427ae41e4649b934ca495991b7852b855"
    );
}

#[test]
fn random_hex_has_two_digits_per_byte() {
    let h = random_hex(16);
    assert_eq!(h.len(), 32);
    assert!(h.chars().all(|c| c.is_ascii_hexdigit() && !c.is_ascii_uppercase()));
    assert_ne!(random_key(), random_key());
}
