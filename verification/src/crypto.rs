//! Encryption at rest: XChaCha20-Poly1305 over message bodies, with a key that
//! HKDF-SHA256 derives from the identity secret. A stored blob is
//! `nonce(24) || ciphertext+tag`.

use vstd::prelude::*;
use vstd::utf8::*;
use chacha20poly1305::aead::{Aead, KeyInit};
use hkdf::Hkdf;
use rand::RngCore;
use sha2::{Digest, Sha256};
use crate::identity::{hex, hex_text};
use crate::text::owned;

verus! {

broadcast use vstd::seq_lib::group_seq_properties;

pub const NONCE_LEN: usize = 24;

// ---------------------------------------------------------------------------
// outside primitives
// ---------------------------------------------------------------------------

/// HKDF-SHA256 (RFC 5869): `len` bytes expanded from `ikm` with `salt` and `info`.
pub uninterp spec fn hkdf_sha256(salt: Seq<u8>, ikm: Seq<u8>, info: Seq<u8>, len: nat) -> Seq<u8>;

/// `Hkdf::<Sha256>::new(Some(salt), ikm)` then `expand(info, &mut [0u8; 32])`.
/// Expanding 32 bytes never fails (the limit is 255 * 32).
#[verifier::external_body]
fn hkdf_sha256_32(salt: &[u8], ikm: &[u8], info: &[u8]) -> (r: [u8; 32])
    ensures
        r@ == hkdf_sha256(salt@, ikm@, info@, 32),
{
    let hk = Hkdf::<Sha256>::new(Some(salt), ikm);
    let mut okm = [0u8; 32];
    hk.expand(info, &mut okm).expect("32 bytes are within the HKDF limit");
    okm
}

/// SHA-256 digest.
pub uninterp spec fn sha256(data: Seq<u8>) -> Seq<u8>;

/// `Sha256::digest(data)`.
#[verifier::external_body]
fn sha256_digest(data: &[u8]) -> (r: [u8; 32])
    ensures
        r@ == sha256(data@),
{
    Sha256::digest(data).into()
}

/// The XChaCha20-Poly1305 ciphertext, tag appended, of `pt` under `key` and
/// `nonce`, with no associated data.
pub uninterp spec fn xchacha_seal(key: Seq<u8>, nonce: Seq<u8>, pt: Seq<u8>) -> Seq<u8>;

/// What XChaCha20-Poly1305 decryption gives for `ct` under `key` and `nonce`:
/// `None` when the tag does not authenticate.
pub uninterp spec fn xchacha_open(key: Seq<u8>, nonce: Seq<u8>, ct: Seq<u8>) -> Option<Seq<u8>>;

/// The cipher refuses a message of 2^32 - 1 blocks of 64 bytes or more.
pub open spec fn seal_fits(len: nat) -> bool {
    len / 64 < 0xffff_ffff
}

/// `XChaCha20Poly1305::new(key).encrypt(nonce, pt)`: fails exactly when the
/// message is too long for the cipher's block counter; the ciphertext is the
/// message's length plus the 16-byte tag.
#[verifier::external_body]
fn aead_seal(key: &[u8; 32], nonce: &[u8; 24], pt: &[u8]) -> (r: Option<Vec<u8>>)
    ensures
        r is Some <==> seal_fits(pt@.len()),
        r matches Some(c) ==> c@ == xchacha_seal(key@, nonce@, pt@) && c@.len() == pt@.len()
            + 16,
{
    let cipher = chacha20poly1305::XChaCha20Poly1305::new(chacha20poly1305::Key::from_slice(key));
    cipher.encrypt(chacha20poly1305::XNonce::from_slice(nonce), pt).ok()
}

/// `XChaCha20Poly1305::new(key).decrypt(nonce, ct)`: a ciphertext that
/// `encrypt` made with the same key and nonce decrypts to its message.
#[verifier::external_body]
fn aead_open(key: &[u8; 32], nonce: &[u8], ct: &[u8]) -> (r: Option<Vec<u8>>)
    requires
        nonce@.len() == 24,
    ensures
        match r {
            Some(p) => xchacha_open(key@, nonce@, ct@) == Some(p@),
            None => xchacha_open(key@, nonce@, ct@) is None,
        },
        forall|p: Seq<u8>|
            seal_fits(p.len()) && #[trigger] xchacha_seal(key@, nonce@, p) == ct@ ==> r is Some
                && r->Some_0@ == p,
{
    let cipher = chacha20poly1305::XChaCha20Poly1305::new(chacha20poly1305::Key::from_slice(key));
    cipher.decrypt(chacha20poly1305::XNonce::from_slice(nonce), ct).ok()
}

/// `OsRng.fill_bytes` over a nonce: nothing is promised of the value.
#[verifier::external_body]
fn random_nonce() -> (r: [u8; 24]) {
    let mut nonce = [0u8; 24];
    rand::rngs::OsRng.fill_bytes(&mut nonce);
    nonce
}

/// `OsRng.fill_bytes` over `n` bytes: only the length is promised.
#[verifier::external_body]
fn random_bytes(n: usize) -> (r: Vec<u8>)
    ensures
        r@.len() == n,
{
    let mut v = vec![0u8; n];
    rand::rngs::OsRng.fill_bytes(&mut v);
    v
}

// ---------------------------------------------------------------------------
// key derivation
// ---------------------------------------------------------------------------

/// Salt of the at-rest key: the label `taylorchat`.
pub open spec fn at_rest_salt() -> Seq<u8> {
    encode_utf8("taylorchat"@)
}

/// Info of the at-rest key: `at-rest-v1`, which separates it from other uses
/// of the same secret.
pub open spec fn at_rest_info() -> Seq<u8> {
    encode_utf8("at-rest-v1"@)
}

/// The at-rest key of an identity secret.
pub open spec fn at_rest_key(secret: Seq<u8>) -> Seq<u8> {
    hkdf_sha256(at_rest_salt(), secret, at_rest_info(), 32)
}

/// Derives the 32-byte at-rest key from the identity secret.
pub fn derive_key(identity_secret: &[u8; 32]) -> (r: [u8; 32])
    ensures
        r@ == at_rest_key(identity_secret@),
{
    let salt = "taylorchat".as_bytes();
    let info = "at-rest-v1".as_bytes();
    hkdf_sha256_32(salt, identity_secret, info)
}

// ---------------------------------------------------------------------------
// sealing and opening blobs
// ---------------------------------------------------------------------------

pub open spec fn encrypt_failed_msg() -> Seq<char> {
    "falha ao cifrar"@
}

pub open spec fn too_short_msg() -> Seq<char> {
    "dado cifrado curto demais"@
}

pub open spec fn decrypt_failed_msg() -> Seq<char> {
    "falha ao decifrar (chave errada ou dado corrompido)"@
}

/// The blob that sealing `pt` under `key` with `nonce` gives, if the message fits.
pub open spec fn sealed_blob(key: Seq<u8>, nonce: Seq<u8>, pt: Seq<u8>) -> Option<Seq<u8>> {
    if seal_fits(pt.len()) {
        Some(nonce + xchacha_seal(key, nonce, pt))
    } else {
        None
    }
}

/// `blob` is `pt` sealed under `key` with the nonce it starts with.
pub open spec fn is_sealed(key: Seq<u8>, pt: Seq<u8>, blob: Seq<u8>) -> bool {
    blob.len() >= 24 && sealed_blob(key, blob.take(24), pt) == Some(blob)
}

pub open spec fn bytes_result(r: Result<Vec<u8>, String>) -> Result<Seq<u8>, Seq<char>> {
    match r {
        Ok(b) => Ok(b@),
        Err(e) => Err(e@),
    }
}

/// What `decrypt` answers for `data` under `key`.
pub open spec fn opened(key: Seq<u8>, data: Seq<u8>) -> Result<Seq<u8>, Seq<char>> {
    if data.len() < 24 {
        Err(too_short_msg())
    } else {
        match xchacha_open(key, data.take(24), data.skip(24)) {
            Some(p) => Ok(p),
            None => Err(decrypt_failed_msg()),
        }
    }
}

/// Seals `plaintext` under `key` with the given nonce: `nonce || ciphertext+tag`.
pub fn encrypt_with_nonce(key: &[u8; 32], nonce: &[u8; 24], plaintext: &[u8]) -> (r: Result<
    Vec<u8>,
    String,
>)
    ensures
        match sealed_blob(key@, nonce@, plaintext@) {
            Some(b) => bytes_result(r) == Ok::<Seq<u8>, Seq<char>>(b),
            None => bytes_result(r) == Err::<Seq<u8>, Seq<char>>(encrypt_failed_msg()),
        },
        r matches Ok(b) ==> b@.len() == 24 + plaintext@.len() + 16,
{
    let ct = match aead_seal(key, nonce, plaintext) {
        Some(c) => c,
        None => return Err(owned("falha ao cifrar")),
    };
    let mut out: Vec<u8> = Vec::new();
    let mut i: usize = 0;
    while i < 24
        invariant
            i <= 24,
            out@ == nonce@.take(i as int),
        decreases 24 - i,
    {
        out.push(nonce[i]);
        assert(nonce@.take(i + 1) =~= nonce@.take(i as int).push(nonce@[i as int]));
        i += 1;
    }
    let mut j: usize = 0;
    while j < ct.len()
        invariant
            j <= ct.len(),
            out@ == nonce@ + ct@.take(j as int),
        decreases ct.len() - j,
    {
        out.push(ct[j]);
        assert(ct@.take(j + 1) =~= ct@.take(j as int).push(ct@[j as int]));
        j += 1;
    }
    assert(ct@.take(ct.len() as int) =~= ct@);
    assert(nonce@.take(24) =~= nonce@);
    Ok(out)
}

/// Seals `plaintext` under `key` with a fresh random nonce. The blob starts
/// with its nonce; it fails only for a message too long for the cipher.
pub fn encrypt(key: &[u8; 32], plaintext: &[u8]) -> (r: Result<Vec<u8>, String>)
    ensures
        r is Ok <==> seal_fits(plaintext@.len()),
        r matches Ok(blob) ==> is_sealed(key@, plaintext@, blob@),
        r matches Ok(blob) ==> blob@.len() == 24 + plaintext@.len() + 16,
        r matches Err(e) ==> e@ == encrypt_failed_msg(),
{
    let nonce = random_nonce();
    let r = encrypt_with_nonce(key, &nonce, plaintext);
    proof {
        if r is Ok {
            assert(r->Ok_0@.take(24) =~= nonce@);
        }
    }
    r
}

/// Opens a blob made by `encrypt`: a blob shorter than its nonce, or one that
/// does not authenticate under `key`, is refused. A blob that `encrypt` made
/// from `p` under `key` opens to `p`.
pub fn decrypt(key: &[u8; 32], data: &[u8]) -> (r: Result<Vec<u8>, String>)
    ensures
        bytes_result(r) == opened(key@, data@),
        forall|p: Seq<u8>| #[trigger] is_sealed(key@, p, data@) ==> r is Ok && r->Ok_0@ == p,
{
    if data.len() < 24 {
        return Err(owned("dado cifrado curto demais"));
    }
    let (nonce, ct) = data.split_at(24);
    proof {
        assert(nonce@ =~= data@.take(24));
        assert(ct@ =~= data@.skip(24));
        assert forall|p: Seq<u8>| #[trigger] is_sealed(key@, p, data@) implies seal_fits(p.len())
            && xchacha_seal(key@, nonce@, p) == ct@ by {
            assert(data@ =~= nonce@ + xchacha_seal(key@, nonce@, p));
        }
    }
    match aead_open(key, nonce, ct) {
        Some(p) => Ok(p),
        None => Err(owned("falha ao decifrar (chave errada ou dado corrompido)")),
    }
}

// ---------------------------------------------------------------------------
// digests and random identifiers
// ---------------------------------------------------------------------------

/// Lower-case hex of the SHA-256 digest of `data`.
pub fn hash_hex(data: &[u8]) -> (r: String)
    ensures
        r@ == hex_text(sha256(data@)),
{
    let d = sha256_digest(data);
    hex(&d)
}

/// A fresh random 32-byte key (a one-time file key).
pub fn random_key() -> (r: [u8; 32]) {
    let v = random_bytes(32);
    let mut k = [0u8; 32];
    let mut i: usize = 0;
    while i < 32
        invariant
            v@.len() == 32,
            i <= 32,
        decreases 32 - i,
    {
        k[i] = v[i];
        i += 1;
    }
    k
}

/// Hex of `n` fresh random bytes (a transfer id).
pub fn random_hex(n: usize) -> (r: String)
    ensures
        exists|b: Seq<u8>| b.len() == n && r@ == hex_text(b),
{
    let v = random_bytes(n);
    hex(v.as_slice())
}

} // verus!
