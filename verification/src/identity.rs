//! The user's identity: an ed25519 key pair whose public half, in hex, is the
//! `node_id` that goes into an invite. The secret is kept by the OS vault as
//! base64 text; this module decides what that text means.

use vstd::prelude::*;
use vstd::utf8::*;
use crate::text::{lemma_char_floor, lemma_trim_padded, owned, push_char, push_str, trim, trim_str, is_ws};
use base64::Engine;

verus! {

broadcast use vstd::seq_lib::group_seq_properties;

// ---------------------------------------------------------------------------
// hex
// ---------------------------------------------------------------------------

/// Lower-case hex digit of a nibble.
pub open spec fn hex_digit(d: int) -> char {
    if d < 10 {
        ((d + 48) as u32) as char
    } else {
        ((d + 87) as u32) as char
    }
}

/// Lower-case hex text of `b`, two digits per byte.
pub open spec fn hex_text(b: Seq<u8>) -> Seq<char> {
    Seq::new(
        2 * b.len(),
        |i: int|
            if i % 2 == 0 {
                hex_digit((b[i / 2] / 16) as int)
            } else {
                hex_digit((b[i / 2] % 16) as int)
            },
    )
}

pub(crate) fn hex_digit_exec(d: u8) -> (c: char)
    requires
        d < 16,
    ensures
        c == hex_digit(d as int),
{
    if d < 10 {
        (d + 48) as char
    } else {
        (d + 87) as char
    }
}

/// Lower-case hex of `bytes`.
pub fn hex(bytes: &[u8]) -> (r: String)
    ensures
        r@ == hex_text(bytes@),
{
    let mut s = String::new();
    let mut i: usize = 0;
    while i < bytes.len()
        invariant
            i <= bytes.len(),
            s@ == hex_text(bytes@).take(2 * i),
        decreases bytes.len() - i,
    {
        let b = bytes[i];
        push_char(&mut s, hex_digit_exec(b / 16));
        push_char(&mut s, hex_digit_exec(b % 16));
        assert(s@ =~= hex_text(bytes@).take(2 * (i + 1)));
        i += 1;
    }
    assert(s@ =~= hex_text(bytes@));
    s
}

/// Value of one hex digit byte, upper or lower case.
pub open spec fn hex_value(c: u8) -> Option<u8> {
    if 48 <= c <= 57 {
        Some((c - 48) as u8)
    } else if 97 <= c <= 102 {
        Some((c - 97 + 10) as u8)
    } else if 65 <= c <= 70 {
        Some((c - 65 + 10) as u8)
    } else {
        None
    }
}

pub open spec fn invalid_hex_char_msg() -> Seq<char> {
    "caractere hex inválido"@
}

pub open spec fn invalid_id_len_msg() -> Seq<char> {
    "id inválido (esperado 64 caracteres hex)"@
}

fn hex_val(c: u8) -> (r: Result<u8, String>)
    ensures
        match hex_value(c) {
            Some(v) => r == Ok::<u8, String>(v),
            None => r matches Err(e) && e@ == invalid_hex_char_msg(),
        },
{
    if 48 <= c && c <= 57 {
        Ok(c - 48)
    } else if 97 <= c && c <= 102 {
        Ok(c - 97 + 10)
    } else if 65 <= c && c <= 70 {
        Ok(c - 65 + 10)
    } else {
        Err(owned("caractere hex inválido"))
    }
}

/// The 32 bytes that 64 hex digits spell out, or why not.
pub open spec fn decode_hex32(b: Seq<u8>) -> Result<Seq<u8>, Seq<char>> {
    if b.len() != 64 {
        Err(invalid_id_len_msg())
    } else if exists|i: int| 0 <= i < 64 && #[trigger] hex_value(b[i]) is None {
        Err(invalid_hex_char_msg())
    } else {
        Ok(
            Seq::new(
                32,
                |i: int| (hex_value(b[2 * i])->0 * 16 + hex_value(b[2 * i + 1])->0) as u8,
            ),
        )
    }
}

/// What `hex_decode_32` answers for the text `s`.
pub open spec fn hex_decode_result(s: Seq<char>) -> Result<Seq<u8>, Seq<char>> {
    decode_hex32(encode_utf8(trim(s)))
}

pub open spec fn bytes_result32(r: Result<[u8; 32], String>) -> Result<Seq<u8>, Seq<char>> {
    match r {
        Ok(b) => Ok(b@),
        Err(e) => Err(e@),
    }
}

/// Decodes a 64-character hex text (surrounding white space ignored) into 32 bytes.
pub fn hex_decode_32(s: &str) -> (r: Result<[u8; 32], String>)
    ensures
        bytes_result32(r) == hex_decode_result(s@),
{
    let t = trim_str(s);
    let b = t.as_str().as_bytes();
    if b.len() != 64 {
        return Err(owned("id inválido (esperado 64 caracteres hex)"));
    }
    let mut out = [0u8; 32];
    let mut i: usize = 0;
    while i < 32
        invariant
            b@ == encode_utf8(trim(s@)),
            b@.len() == 64,
            i <= 32,
            forall|k: int| 0 <= k < 2 * i ==> #[trigger] hex_value(b@[k]) is Some,
            forall|k: int|
                0 <= k < i ==> #[trigger] out@[k] == (hex_value(b@[2 * k])->0 * 16 + hex_value(
                    b@[2 * k + 1],
                )->0) as u8,
        decreases 32 - i,
    {
        let hi = match hex_val(b[2 * i]) {
            Ok(v) => v,
            Err(e) => {
                assert(hex_value(b@[2 * i as int]) is None);
                return Err(e);
            },
        };
        let lo = match hex_val(b[2 * i + 1]) {
            Ok(v) => v,
            Err(e) => {
                assert(hex_value(b@[2 * i + 1]) is None);
                return Err(e);
            },
        };
        out[i] = (hi << 4) | lo;
        assert((hi << 4) | lo == hi * 16 + lo) by (bit_vector)
            requires
                hi < 16,
                lo < 16,
        ;
        i += 1;
    }
    proof {
        assert(!(exists|k: int| 0 <= k < 64 && #[trigger] hex_value(b@[k]) is None));
        assert(out@ =~= Seq::new(
            32,
            |k: int| (hex_value(b@[2 * k])->0 * 16 + hex_value(b@[2 * k + 1])->0) as u8,
        ));
    }
    Ok(out)
}

proof fn lemma_hex_text_ascii(b: Seq<u8>)
    ensures
        is_ascii_chars(hex_text(b)),
        forall|i: int| 0 <= i < hex_text(b).len() ==> !is_ws(#[trigger] hex_text(b)[i]),
        forall|i: int| 0 <= i < hex_text(b).len() ==> !('A' <= #[trigger] hex_text(b)[i] <= 'Z'),
{
    assert forall|i: int| 0 <= i < hex_text(b).len() implies '\0' <= #[trigger] hex_text(b)[i]
        <= '\u{7f}' by {
        lemma_char_floor(hex_text(b)[i]);
    }
}

/// Hex text with no white space at either end is its own trim.
pub proof fn lemma_trim_hex_text(b: Seq<u8>)
    ensures
        trim(hex_text(b)) == hex_text(b),
{
    lemma_hex_text_ascii(b);
    let h = hex_text(b);
    if h.len() > 0 {
        assert(!is_ws(h[0]));
        assert(!is_ws(h.last()));
    }
}

/// The UTF-8 bytes of hex text are its characters as bytes.
pub proof fn lemma_hex_text_bytes(b: Seq<u8>)
    ensures
        encode_utf8(hex_text(b)) == hex_text(b).map_values(|c: char| c as u8),
{
    lemma_hex_text_ascii(b);
    is_ascii_chars_encode_utf8(hex_text(b));
    assert(encode_utf8(hex_text(b)) =~= hex_text(b).map_values(|c: char| c as u8));
}

/// Decoding the hex of 32 bytes gives those bytes back.
pub proof fn lemma_hex_roundtrip(b: Seq<u8>)
    requires
        b.len() == 32,
    ensures
        hex_decode_result(hex_text(b)) == Ok::<Seq<u8>, Seq<char>>(b),
{
    lemma_trim_hex_text(b);
    lemma_hex_text_bytes(b);
    let e = encode_utf8(hex_text(b));
    assert(e.len() == 64);
    assert forall|i: int| 0 <= i < 64 implies #[trigger] hex_value(e[i]) is Some by {
        let d = if i % 2 == 0 { b[i / 2] / 16 } else { b[i / 2] % 16 };
        assert(e[i] == hex_digit(d as int) as u8);
    }
    assert forall|i: int| 0 <= i < 32 implies (hex_value(e[2 * i])->0 * 16 + hex_value(
        e[2 * i + 1],
    )->0) as u8 == b[i] by {
        assert(e[2 * i] == hex_digit((b[i] / 16) as int) as u8);
        assert(e[2 * i + 1] == hex_digit((b[i] % 16) as int) as u8);
    }
    assert(decode_hex32(e)->Ok_0 =~= b);
}

/// Upper-case hex digit of a nibble.
pub open spec fn hex_digit_upper(d: int) -> char {
    if d < 10 {
        ((d + 48) as u32) as char
    } else {
        ((d + 55) as u32) as char
    }
}

/// Upper-case hex text of `b` (`hex_text(b).to_uppercase()`).
pub open spec fn hex_text_upper(b: Seq<u8>) -> Seq<char> {
    Seq::new(
        2 * b.len(),
        |i: int|
            if i % 2 == 0 {
                hex_digit_upper((b[i / 2] / 16) as int)
            } else {
                hex_digit_upper((b[i / 2] % 16) as int)
            },
    )
}

/// `h` spells the bytes `b` in hex, two ASCII digits per byte, high nibble
/// first, each digit in either case.
pub open spec fn hex_spells(h: Seq<char>, b: Seq<u8>) -> bool {
    &&& h.len() == 2 * b.len()
    &&& forall|i: int|
        0 <= i < h.len() ==> (#[trigger] h[i] as u32) < 128 && hex_value(h[i] as u8) == Some(
            (if i % 2 == 0 {
                b[i / 2] / 16
            } else {
                b[i / 2] % 16
            }) as u8,
        )
}

/// The lower- and upper-case hex of `b` both spell `b`.
pub proof fn lemma_hex_texts_spell(b: Seq<u8>)
    ensures
        hex_spells(hex_text(b), b),
        hex_spells(hex_text_upper(b), b),
{
}

/// Decoding accepts any hex spelling of 32 bytes, in either case and with
/// white space around it: `hex_decode_32` reads the upper-case form of a node
/// id, or one pasted with spaces or a line break, as the same 32 bytes.
pub proof fn lemma_hex_decode_any_spelling(
    b: Seq<u8>,
    h: Seq<char>,
    pre: Seq<char>,
    post: Seq<char>,
)
    requires
        b.len() == 32,
        hex_spells(h, b),
        forall|i: int| 0 <= i < pre.len() ==> is_ws(#[trigger] pre[i]),
        forall|i: int| 0 <= i < post.len() ==> is_ws(#[trigger] post[i]),
    ensures
        hex_decode_result(pre + h + post) == Ok::<Seq<u8>, Seq<char>>(b),
{
    assert((h[0] as u32) < 128 && hex_value(h[0] as u8) is Some);
    assert((h[h.len() - 1] as u32) < 128 && hex_value(h[h.len() - 1] as u8) is Some);
    lemma_trim_padded(pre, h, post);
    assert(is_ascii_chars(h)) by {
        assert forall|i: int| 0 <= i < h.len() implies '\0' <= #[trigger] h[i] <= '\u{7f}' by {
            lemma_char_floor(h[i]);
            assert(hex_value(h[i] as u8) is Some);
        }
    }
    is_ascii_chars_encode_utf8(h);
    let e = encode_utf8(h);
    assert(e.len() == 64);
    assert forall|i: int| 0 <= i < 64 implies #[trigger] hex_value(e[i]) is Some by {
        assert(e[i] == h[i] as u8);
        assert(hex_value(h[i] as u8) is Some);
    }
    assert forall|i: int| 0 <= i < 32 implies (hex_value(e[2 * i])->0 * 16 + hex_value(
        e[2 * i + 1],
    )->0) as u8 == b[i] by {
        assert(e[2 * i] == h[2 * i] as u8);
        assert(e[2 * i + 1] == h[2 * i + 1] as u8);
        assert(hex_value(h[2 * i] as u8) == Some((b[i] / 16) as u8));
        assert(hex_value(h[2 * i + 1] as u8) == Some((b[i] % 16) as u8));
    }
    assert(decode_hex32(e)->Ok_0 =~= b);
}

// ---------------------------------------------------------------------------
// base64 (the vault's text form of the secret)
// ---------------------------------------------------------------------------

/// `base64::engine::general_purpose::STANDARD.encode`.
pub uninterp spec fn base64_text(b: Seq<u8>) -> Seq<char>;

/// `base64::engine::general_purpose::STANDARD.decode`: `None` when the text is
/// not canonical padded base64.
pub uninterp spec fn base64_bytes(s: Seq<char>) -> Option<Seq<u8>>;

/// `STANDARD.encode(bytes)`.
#[verifier::external_body]
pub(crate) fn base64_encode(bytes: &[u8]) -> (r: String)
    ensures
        r@ == base64_text(bytes@),
{
    base64::engine::general_purpose::STANDARD.encode(bytes)
}

/// `STANDARD.decode(s)`; the error is the crate's message. Decoding what
/// `encode` wrote gives the bytes back.
#[verifier::external_body]
pub(crate) fn base64_decode(s: &str) -> (r: Result<Vec<u8>, String>)
    ensures
        match r {
            Ok(v) => base64_bytes(s@) == Some(v@),
            Err(_) => base64_bytes(s@) is None,
        },
        forall|b: Seq<u8>| #[trigger] base64_text(b) == s@ ==> r is Ok && r->Ok_0@ == b,
{
    base64::engine::general_purpose::STANDARD.decode(s.as_bytes()).map_err(|e| e.to_string())
}

pub open spec fn corrupt_secret_prefix() -> Seq<char> {
    "segredo da identidade corrompido: "@
}

pub open spec fn bad_secret_len_msg() -> Seq<char> {
    "segredo da identidade com tamanho inesperado"@
}

// ---------------------------------------------------------------------------
// the key pair
// ---------------------------------------------------------------------------

/// The ed25519 public key of a 32-byte secret (`SigningKey::from_bytes(..).verifying_key()`).
pub uninterp spec fn ed25519_public(secret: Seq<u8>) -> Seq<u8>;

/// `SigningKey::from_bytes(secret).verifying_key().to_bytes()`.
#[verifier::external_body]
fn ed25519_public_key(secret: &[u8; 32]) -> (r: [u8; 32])
    ensures
        r@ == ed25519_public(secret@),
{
    ed25519_dalek::SigningKey::from_bytes(secret).verifying_key().to_bytes()
}

/// `SigningKey::generate(&mut OsRng).to_bytes()`: a fresh secret from the OS
/// random source. Nothing is promised of its value.
#[verifier::external_body]
fn fresh_signing_secret() -> (r: [u8; 32]) {
    ed25519_dalek::SigningKey::generate(&mut rand::rngs::OsRng).to_bytes()
}

/// The user's identity, loaded in memory.
pub struct Identity {
    secret: [u8; 32],
}

impl Identity {
    /// The 32 secret bytes of the key pair.
    pub closed spec fn secret(&self) -> Seq<u8> {
        self.secret@
    }

    /// The identity whose secret is `secret`.
    pub fn from_secret(secret: [u8; 32]) -> (r: Identity)
        ensures
            r.secret() == secret@,
    {
        Identity { secret }
    }

    /// A new identity, for the first run.
    pub fn generate() -> (r: Identity)
        ensures
            r.secret().len() == 32,
    {
        Identity { secret: fresh_signing_secret() }
    }

    /// The identity that the vault's text holds: base64 of the 32 secret bytes.
    pub fn from_stored(b64: &str) -> (r: Result<Identity, String>)
        ensures
            match base64_bytes(b64@) {
                None => r matches Err(e) && corrupt_secret_prefix().is_prefix_of(e@),
                Some(b) => if b.len() == 32 {
                    r matches Ok(id) && id.secret() == b
                } else {
                    r matches Err(e) && e@ == bad_secret_len_msg()
                },
            },
            forall|b: Seq<u8>|
                b.len() == 32 && #[trigger] base64_text(b) == b64@ ==> (r matches Ok(id)
                    && id.secret() == b),
    {
        let v = match base64_decode(b64) {
            Ok(v) => v,
            Err(e) => {
                let mut msg = owned("segredo da identidade corrompido: ");
                push_str(&mut msg, e.as_str());
                return Err(msg);
            },
        };
        if v.len() != 32 {
            return Err(owned("segredo da identidade com tamanho inesperado"));
        }
        let mut secret = [0u8; 32];
        let mut i: usize = 0;
        while i < 32
            invariant
                v@.len() == 32,
                i <= 32,
                forall|k: int| 0 <= k < i ==> #[trigger] secret@[k] == v@[k],
            decreases 32 - i,
        {
            secret[i] = v[i];
            i += 1;
        }
        assert(secret@ =~= v@);
        Ok(Identity { secret })
    }

    /// The text the vault keeps for this identity.
    pub fn stored_form(&self) -> (r: String)
        ensures
            r@ == base64_text(self.secret()),
    {
        base64_encode(&self.secret)
    }

    /// The public key.
    pub fn verifying(&self) -> (r: [u8; 32])
        ensures
            r@ == ed25519_public(self.secret()),
    {
        ed25519_public_key(&self.secret)
    }

    /// Public id in hex (64 characters): the identity that goes into an invite.
    pub fn node_id_hex(&self) -> (r: String)
        ensures
            r@ == hex_text(ed25519_public(self.secret())),
    {
        let pk = self.verifying();
        hex(&pk)
    }

    /// The raw secret (32 bytes), which seeds the network key.
    pub fn secret_bytes(&self) -> (r: [u8; 32])
        ensures
            r@ == self.secret(),
    {
        self.secret
    }
}

} // verus!
