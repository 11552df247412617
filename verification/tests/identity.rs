use taylorchat::identity::{hex, hex_decode_32, Identity};
use taylorchat::pairing::{invite_of, my_identity, parse_invite, qr_svg};

const RFC8032_SECRET: &str = "9d61b19deffd5a60ba844af492ec2cc44449c5697b326919703bac031cae7f60";
const RFC8032_PUBLIC: &str = "d75a980182b10ab7d54bfed3c964073a0ee172f3daa62325af021a68f707511a";

#[test]
fn hex_is_two_lower_case_digits_per_byte() {
    assert_eq!(hex(&[0x00, 0x0f, 0xa5, 0xff]), "000fa5ff");
    assert_eq!(hex(&[]), "");
}

#[test]
fn hex_decode_reads_back_what_hex_wrote() {
    let bytes: [u8; 32] = core::array::from_fn(|i| (i * 7) as u8);
    assert_eq!(hex_decode_32(&hex(&bytes)).unwrap(), bytes);
    // surrounding white space is ignored, upper case accepted
    let upper = format!("  {}\n", hex(&bytes).to_uppercase());
    assert_eq!(hex_decode_32(&upper).unwrap(), bytes);
}

#[test]
fn hex_decode_errors() {
    assert_eq!(hex_decode_32("abc").err().unwrap(), "id inválido (esperado 64 caracteres hex)");
    let bad = format!("{}zz", "0".repeat(62));
    assert_eq!(hex_decode_32(&bad).err().unwrap(), "caractere hex inválido");
}

#[test]
fn node_id_is_the_hex_of_the_public_key() {
    let secret = hex_decode_32(RFC8032_SECRET).unwrap();
    let id = Identity::from_secret(secret);
    assert_eq!(id.node_id_hex(), RFC8032_PUBLIC);
    assert_eq!(id.secret_bytes(), secret);
}

#[test]
fn the_vault_form_reads_back() {
    let id = Identity::generate();
    let back = Identity::from_stored(&id.stored_form()).unwrap();
    assert_eq!(back.secret_bytes(), id.secret_bytes());
    assert_eq!(back.node_id_hex(), id.node_id_hex());
}

#[test]
fn a_damaged_vault_form_is_refused() {
    assert!(Identity::from_stored("@@@").err().unwrap().starts_with("segredo da identidade corrompido: "));
    assert_eq!(
        Identity::from_stored("AAAA").err().unwrap(),
        "segredo da identidade com tamanho inesperado"
    );
}

#[test]
fn invites_read_back_as_the_node_id() {
    let node = RFC8032_PUBLIC;
    assert_eq!(invite_of(node), format!("taylorchat:{node}"));
    assert_eq!(parse_invite(invite_of(node)).unwrap().node_id, node);
    assert_eq!(parse_invite(node.to_string()).unwrap().node_id, node);
    assert_eq!(parse_invite(format!(" taylorchat://{} ", node.to_uppercase())).unwrap().node_id, node);
    assert_eq!(
        parse_invite("taylorchat:xyz".to_string()).err().unwrap(),
        "id inválido (esperado 64 caracteres hex)"
    );
}

#[test]
fn my_identity_carries_invite_and_qr() {
    let id = Identity::from_secret(hex_decode_32(RFC8032_SECRET).unwrap());
    let me = my_identity(&id).unwrap();
    assert_eq!(me.node_id, RFC8032_PUBLIC);
    assert_eq!(me.invite, format!("taylorchat:{RFC8032_PUBLIC}"));
    assert!(me.qr_svg.contains("<svg"));
    assert!(me.qr_svg.contains("#111827"));
    assert_eq!(qr_svg(&me.invite).unwrap(), me.qr_svg);
}

#[test]
fn data_too_long_for_a_qr_code_is_an_error() {
    let huge = "x".repeat(8000);
    assert!(qr_svg(&huge).err().unwrap().starts_with("falha ao gerar QR: "));
}
