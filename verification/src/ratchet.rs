//! Double ratchet (Olm, through vodozemac) over the already-authenticated
//! channel: forward secrecy per message. The first message to a peer opens a
//! session from the peer's pre-key bundle (X3DH); the following ones use the
//! session. On the wire an Olm message is `[type:1][ciphertext]`.

use vstd::prelude::*;
use vodozemac::olm::{Account, OlmMessage, Session, SessionConfig};
use vodozemac::Curve25519PublicKey;
use crate::text::{owned, push_str, text_from_bytes, lossy};

verus! {

broadcast use vstd::seq_lib::group_seq_properties;

#[verifier::external_type_specification]
#[verifier::external_body]
pub struct ExAccount(Account);

#[verifier::external_type_specification]
#[verifier::external_body]
pub struct ExSession(Session);

#[verifier::external_type_specification]
#[verifier::external_body]
pub struct ExOlmMessage(OlmMessage);

#[verifier::external_type_specification]
#[verifier::external_body]
pub struct ExCurve25519PublicKey(Curve25519PublicKey);

/// The pre-key bundle a peer publishes for the other to open a session:
/// identity key and one one-time key, both Curve25519 in base64.
pub struct PreKeyBundle {
    pub identity_key: String,
    pub one_time_key: String,
}

// ---------------------------------------------------------------------------
// outside calls
// ---------------------------------------------------------------------------

/// The one-time keys of an account that are not published yet, in base64
/// (`account.one_time_keys()`).
pub uninterp spec fn unpublished_keys(account: Account) -> Set<Seq<char>>;

/// The account's Curve25519 identity key, in base64
/// (`account.curve25519_key().to_base64()`).
pub uninterp spec fn account_identity(account: Account) -> Seq<char>;

/// Does `serde_json::from_slice` read the bytes as an account pickle?
pub uninterp spec fn account_pickle_reads(bytes: Seq<u8>) -> bool;

/// Does `serde_json::from_slice` read the bytes as a session pickle?
pub uninterp spec fn session_pickle_reads(bytes: Seq<u8>) -> bool;

/// `Account::new()`: a fresh Olm account with random keys and no one-time
/// keys yet.
#[verifier::external_body]
fn account_create() -> (r: Account)
    ensures
        unpublished_keys(r) == Set::<Seq<char>>::empty(),
{
    Account::new()
}

/// `serde_json::to_vec(&account.pickle())`; a pickle always serialises, and
/// what serde_json writes of it, it reads back.
#[verifier::external_body]
fn account_pickle_json(account: &Account) -> (r: Vec<u8>)
    ensures
        account_pickle_reads(r@),
{
    serde_json::to_vec(&account.pickle()).expect("an account pickle serialises")
}

/// `serde_json::from_slice` of an account pickle, then `Account::from_pickle`
/// (which cannot fail); the error is serde_json's message.
#[verifier::external_body]
fn account_unpickle_json(bytes: &[u8]) -> (r: Result<Account, String>)
    ensures
        r is Ok <==> account_pickle_reads(bytes@),
{
    serde_json::from_slice(bytes).map(Account::from_pickle).map_err(|e| e.to_string())
}

/// `serde_json::to_vec(&session.pickle())`; a pickle always serialises, and
/// what serde_json writes of it, it reads back.
#[verifier::external_body]
fn session_pickle_json(session: &Session) -> (r: Vec<u8>)
    ensures
        session_pickle_reads(r@),
{
    serde_json::to_vec(&session.pickle()).expect("a session pickle serialises")
}

/// `serde_json::from_slice` of a session pickle, then `Session::from_pickle`
/// (which cannot fail); the error is serde_json's message.
#[verifier::external_body]
fn session_unpickle_json(bytes: &[u8]) -> (r: Result<Session, String>)
    ensures
        r is Ok <==> session_pickle_reads(bytes@),
{
    serde_json::from_slice(bytes).map(Session::from_pickle).map_err(|e| e.to_string())
}

/// `account.generate_one_time_keys(count)`: each new key joins the
/// unpublished ones (the oldest stored key is dropped first when the account
/// is full), so after at least one the account has an unpublished key.
#[verifier::external_body]
fn account_generate_one_time_keys(account: &mut Account, count: usize)
    ensures
        account_identity(*final(account)) == account_identity(*old(account)),
        count > 0 ==> exists|k: Seq<char>| #[trigger] unpublished_keys(*final(account)).contains(k),
{
    account.generate_one_time_keys(count);
}

/// `account.curve25519_key().to_base64()`.
#[verifier::external_body]
fn account_identity_key(account: &Account) -> (r: String)
    ensures
        r@ == account_identity(*account),
{
    account.curve25519_key().to_base64()
}

/// One of `account.one_time_keys()`, in base64: the first that the map's
/// iteration gives, which is not specified; `None` when there is none.
#[verifier::external_body]
fn account_some_one_time_key(account: &Account) -> (r: Option<String>)
    ensures
        r is Some <==> exists|k: Seq<char>| #[trigger] unpublished_keys(*account).contains(k),
        r matches Some(k) ==> unpublished_keys(*account).contains(k@),
{
    account.one_time_keys().values().next().map(|k| k.to_base64())
}

/// Does `Curve25519PublicKey::from_base64` accept the text?
pub uninterp spec fn curve25519_decodes(s: Seq<char>) -> bool;

/// `Curve25519PublicKey::from_base64(s)`; the error is vodozemac's message.
/// Whether it succeeds depends on the text alone.
#[verifier::external_body]
fn curve25519_from_base64(s: &str) -> (r: Result<Curve25519PublicKey, String>)
    ensures
        r is Ok <==> curve25519_decodes(s@),
{
    Curve25519PublicKey::from_base64(s).map_err(|e| e.to_string())
}

/// `account.create_outbound_session(SessionConfig::version_1(), ..)`; the
/// error is vodozemac's message.
#[verifier::external_body]
fn account_outbound_session(
    account: &Account,
    identity_key: Curve25519PublicKey,
    one_time_key: Curve25519PublicKey,
) -> (r: Result<Session, String>) {
    account.create_outbound_session(SessionConfig::version_1(), identity_key, one_time_key).map_err(
        |e| e.to_string(),
    )
}

/// `account.create_inbound_session(SessionConfig::version_1(), key, &m)` for
/// a pre-key message `m`, as the new session and the plaintext; `None` for a
/// normal message. The error is vodozemac's message.
#[verifier::external_body]
fn account_inbound_session(
    account: &mut Account,
    identity_key: Curve25519PublicKey,
    message: OlmMessage,
) -> (r: Option<Result<(Session, Vec<u8>), String>>)
    ensures
        r is Some <==> olm_message_type(message) == 0,
{
    match message {
        OlmMessage::PreKey(m) => Some(
            account.create_inbound_session(SessionConfig::version_1(), identity_key, &m).map(
                |res| (res.session, res.plaintext),
            ).map_err(|e| e.to_string()),
        ),
        OlmMessage::Normal(_) => None,
    }
}

/// `session.encrypt(plaintext)` as `to_parts()`: the message type (0 for a
/// pre-key message, 1 for a normal one) and the ciphertext. The error is
/// vodozemac's message.
#[verifier::external_body]
fn session_encrypt_parts(session: &mut Session, plaintext: &[u8]) -> (r: Result<(usize, Vec<u8>), String>)
    ensures
        r matches Ok(p) ==> p.0 < 2,
{
    session.encrypt(plaintext).map(|m| m.to_parts()).map_err(|e| e.to_string())
}

/// The type of an Olm message (`message.message_type()` as a number, the
/// first of `message.to_parts()`): 0 for a pre-key message, 1 for a normal
/// one.
pub uninterp spec fn olm_message_type(message: OlmMessage) -> usize;

/// Does `OlmMessage::from_parts` accept a message of this type and ciphertext?
pub uninterp spec fn olm_decodes(kind: usize, ciphertext: Seq<u8>) -> bool;

/// `OlmMessage::from_parts(kind, ciphertext)`: only types 0 (pre-key) and 1
/// (normal) decode; whether it succeeds depends on its arguments alone. The
/// error is vodozemac's message.
#[verifier::external_body]
fn olm_from_parts(kind: usize, ciphertext: &[u8]) -> (r: Result<OlmMessage, String>)
    ensures
        r is Ok <==> olm_decodes(kind, ciphertext@),
        r is Ok ==> kind < 2,
        r matches Ok(m) ==> olm_message_type(m) == kind,
{
    OlmMessage::from_parts(kind, ciphertext).map_err(|e| e.to_string())
}

/// `session.decrypt(&message)`; the error is vodozemac's message.
#[verifier::external_body]
fn session_decrypt_message(session: &mut Session, message: &OlmMessage) -> (r: Result<Vec<u8>, String>) {
    session.decrypt(message).map_err(|e| e.to_string())
}

// ---------------------------------------------------------------------------
// framing: [type:1][ciphertext]
// ---------------------------------------------------------------------------

/// The wire form of an Olm message of type `kind`.
pub open spec fn wire_of(kind: usize, ciphertext: Seq<u8>) -> Seq<u8> {
    seq![kind as u8] + ciphertext
}

/// The type and ciphertext a frame holds; `None` for an empty frame.
pub open spec fn wire_parts_of(wire: Seq<u8>) -> Option<(usize, Seq<u8>)> {
    if wire.len() == 0 {
        None
    } else {
        Some((wire[0] as usize, wire.drop_first()))
    }
}

/// Frames an Olm message for the network.
pub fn olm_to_wire(kind: usize, ciphertext: &[u8]) -> (r: Vec<u8>)
    requires
        kind < 256,
    ensures
        r@ == wire_of(kind, ciphertext@),
{
    let mut out: Vec<u8> = Vec::new();
    out.push(kind as u8);
    let mut i: usize = 0;
    while i < ciphertext.len()
        invariant
            i <= ciphertext.len(),
            out@ == seq![kind as u8] + ciphertext@.take(i as int),
        decreases ciphertext.len() - i,
    {
        out.push(ciphertext[i]);
        assert(ciphertext@.take(i + 1) =~= ciphertext@.take(i as int).push(ciphertext@[i as int]));
        i += 1;
    }
    assert(ciphertext@.take(ciphertext.len() as int) =~= ciphertext@);
    out
}

/// Splits a frame into its type and ciphertext.
pub fn wire_parts(wire: &[u8]) -> (r: Option<(usize, Vec<u8>)>)
    ensures
        match wire_parts_of(wire@) {
            Some((k, c)) => r matches Some(p) && p.0 == k && p.1@ == c,
            None => r is None,
        },
{
    if wire.len() == 0 {
        return None;
    }
    let mut rest: Vec<u8> = Vec::new();
    let mut i: usize = 1;
    while i < wire.len()
        invariant
            1 <= i <= wire.len(),
            rest@ == wire@.subrange(1, i as int),
        decreases wire.len() - i,
    {
        rest.push(wire[i]);
        assert(wire@.subrange(1, i + 1) =~= wire@.subrange(1, i as int).push(wire@[i as int]));
        i += 1;
    }
    assert(wire@.subrange(1, wire.len() as int) =~= wire@.drop_first());
    Some((wire[0] as usize, rest))
}

/// A framed message reads back as the type and ciphertext it was framed from.
pub proof fn lemma_wire_roundtrip(kind: usize, ciphertext: Seq<u8>)
    requires
        kind < 256,
    ensures
        wire_parts_of(wire_of(kind, ciphertext)) == Some((kind, ciphertext)),
{
    assert(wire_of(kind, ciphertext).drop_first() =~= ciphertext);
}

// ---------------------------------------------------------------------------
// accounts and sessions
// ---------------------------------------------------------------------------

/// A new Olm account: fresh random keys, no one-time key yet.
pub fn new_account() -> (r: Account)
    ensures
        unpublished_keys(r) == Set::<Seq<char>>::empty(),
{
    account_create()
}

/// The account's identity key in base64: what a peer opens a session
/// against, and what a pre-key message names as its sender.
pub fn identity_key(account: &Account) -> (r: String)
    ensures
        r@ == account_identity(*account),
{
    account_identity_key(account)
}

/// The account's pickle, serialised for storage: bytes that
/// `account_from_bytes` reads back.
pub fn account_to_bytes(account: &Account) -> (r: Vec<u8>)
    ensures
        account_pickle_reads(r@),
{
    account_pickle_json(account)
}

pub open spec fn bad_account_pickle_prefix() -> Seq<char> {
    "pickle de conta inválido: "@
}

/// An account back from its stored pickle.
pub fn account_from_bytes(bytes: &[u8]) -> (r: Result<Account, String>)
    ensures
        r is Ok <==> account_pickle_reads(bytes@),
        r matches Err(e) ==> bad_account_pickle_prefix().is_prefix_of(e@),
{
    match account_unpickle_json(bytes) {
        Ok(a) => Ok(a),
        Err(e) => Err(prefixed("pickle de conta inválido: ", e.as_str())),
    }
}

/// The session's pickle, serialised for storage: bytes that
/// `session_from_bytes` reads back.
pub fn session_to_bytes(session: &Session) -> (r: Vec<u8>)
    ensures
        session_pickle_reads(r@),
{
    session_pickle_json(session)
}

pub open spec fn bad_session_pickle_prefix() -> Seq<char> {
    "pickle de sessão inválido: "@
}

/// A session back from its stored pickle.
pub fn session_from_bytes(bytes: &[u8]) -> (r: Result<Session, String>)
    ensures
        r is Ok <==> session_pickle_reads(bytes@),
        r matches Err(e) ==> bad_session_pickle_prefix().is_prefix_of(e@),
{
    match session_unpickle_json(bytes) {
        Ok(s) => Ok(s),
        Err(e) => Err(prefixed("pickle de sessão inválido: ", e.as_str())),
    }
}

fn prefixed(prefix: &str, detail: &str) -> (r: String)
    ensures
        r@ == prefix@ + detail@,
        prefix@.is_prefix_of(r@),
{
    let mut s = owned(prefix);
    push_str(&mut s, detail);
    assert(s@.subrange(0, prefix@.len() as int) =~= prefix@);
    s
}

/// A fresh bundle (identity key plus one new one-time key) for whoever is
/// opening a session with us; the one-time key's private half stays in the
/// account until a session consumes it. The account always has one to give
/// once a key was generated, so this never fails.
pub fn our_bundle(account: &mut Account) -> (r: Result<PreKeyBundle, String>)
    ensures
        r matches Ok(b) && b.identity_key@ == account_identity(*final(account))
            && unpublished_keys(*final(account)).contains(b.one_time_key@),
        account_identity(*final(account)) == account_identity(*old(account)),
{
    account_generate_one_time_keys(account, 1);
    let identity_key = account_identity_key(account);
    match account_some_one_time_key(account) {
        Some(one_time_key) => Ok(PreKeyBundle { identity_key, one_time_key }),
        None => Err(owned("nenhuma pré-chave disponível")),
    }
}

pub open spec fn bad_identity_key_prefix() -> Seq<char> {
    "identity_key inválida: "@
}

pub open spec fn bad_one_time_key_prefix() -> Seq<char> {
    "one_time_key inválida: "@
}

pub open spec fn outbound_failed_prefix() -> Seq<char> {
    "falha ao abrir sessão de saída: "@
}

pub open spec fn encrypt_failed_prefix() -> Seq<char> {
    "falha ao cifrar: "@
}

/// Encrypts `plaintext` on the session and frames it for the wire.
pub fn encrypt(session: &mut Session, plaintext: &str) -> (r: Result<Vec<u8>, String>)
    ensures
        r matches Ok(w) ==> exists|k: usize, c: Seq<u8>| k < 2 && w@ == wire_of(k, c),
        r matches Err(e) ==> encrypt_failed_prefix().is_prefix_of(e@),
{
    let bytes = crate::text::bytes_of(plaintext);
    match session_encrypt_parts(session, bytes.as_slice()) {
        Ok((kind, ct)) => Ok(olm_to_wire(kind, ct.as_slice())),
        Err(e) => Err(prefixed("falha ao cifrar: ", e.as_str())),
    }
}

/// Opens an outbound session from the other side's bundle and encrypts the
/// first message (a pre-key message). Returns the session to keep and the
/// frame for the network.
pub fn start_outbound(account: &Account, their_bundle: &PreKeyBundle, plaintext: &str) -> (r:
    Result<(Session, Vec<u8>), String>)
    ensures
        !curve25519_decodes(their_bundle.identity_key@) ==> (r matches Err(e)
            && bad_identity_key_prefix().is_prefix_of(e@)),
        curve25519_decodes(their_bundle.identity_key@) && !curve25519_decodes(
            their_bundle.one_time_key@,
        ) ==> (r matches Err(e) && bad_one_time_key_prefix().is_prefix_of(e@)),
        curve25519_decodes(their_bundle.identity_key@) && curve25519_decodes(
            their_bundle.one_time_key@,
        ) ==> (r is Ok || (r matches Err(e) && (outbound_failed_prefix().is_prefix_of(e@)
            || encrypt_failed_prefix().is_prefix_of(e@)))),
        r matches Ok(p) ==> exists|k: usize, c: Seq<u8>| k < 2 && p.1@ == wire_of(k, c),
        r matches Err(e) ==> bad_identity_key_prefix().is_prefix_of(e@)
            || bad_one_time_key_prefix().is_prefix_of(e@) || outbound_failed_prefix().is_prefix_of(
            e@,
        ) || encrypt_failed_prefix().is_prefix_of(e@),
{
    let identity_key = match curve25519_from_base64(their_bundle.identity_key.as_str()) {
        Ok(k) => k,
        Err(e) => return Err(prefixed("identity_key inválida: ", e.as_str())),
    };
    let one_time_key = match curve25519_from_base64(their_bundle.one_time_key.as_str()) {
        Ok(k) => k,
        Err(e) => return Err(prefixed("one_time_key inválida: ", e.as_str())),
    };
    let mut session = match account_outbound_session(account, identity_key, one_time_key) {
        Ok(s) => s,
        Err(e) => return Err(prefixed("falha ao abrir sessão de saída: ", e.as_str())),
    };
    let wire = encrypt(&mut session, plaintext)?;
    Ok((session, wire))
}

pub open spec fn empty_frame_msg() -> Seq<char> {
    "frame Olm vazio"@
}

pub open spec fn bad_frame_prefix() -> Seq<char> {
    "frame Olm inválido: "@
}

pub open spec fn expected_prekey_msg() -> Seq<char> {
    "esperava uma mensagem PreKey pra abrir sessão"@
}

pub open spec fn inbound_failed_prefix() -> Seq<char> {
    "falha ao abrir sessão de entrada: "@
}

pub open spec fn decrypt_failed_prefix() -> Seq<char> {
    "falha ao decifrar: "@
}

/// Reads a frame into an Olm message.
fn wire_to_olm(wire: &[u8]) -> (r: Result<(usize, OlmMessage), String>)
    ensures
        wire@.len() == 0 ==> (r matches Err(e) && e@ == empty_frame_msg()),
        wire@.len() > 0 && !olm_decodes(wire@[0] as usize, wire@.drop_first()) ==> (r matches Err(
            e,
        ) && bad_frame_prefix().is_prefix_of(e@)),
        wire@.len() > 0 && olm_decodes(wire@[0] as usize, wire@.drop_first()) ==> (r matches Ok(p)
            && p.0 == wire@[0] as usize && p.0 < 2),
        r matches Ok(p) ==> olm_message_type(p.1) == p.0,
{
    let (kind, ct) = match wire_parts(wire) {
        Some(p) => p,
        None => return Err(owned("frame Olm vazio")),
    };
    match olm_from_parts(kind, ct.as_slice()) {
        Ok(m) => Ok((kind, m)),
        Err(e) => Err(prefixed("frame Olm inválido: ", e.as_str())),
    }
}

/// Receives the first frame from a peer (a pre-key message) and opens the
/// inbound session; returns the session and the plaintext. A normal message
/// cannot open a session.
pub fn start_inbound(account: &mut Account, their_identity_key_b64: &str, wire: &[u8]) -> (r: Result<
    (Session, String),
    String,
>)
    ensures
        !curve25519_decodes(their_identity_key_b64@) ==> (r matches Err(e)
            && bad_identity_key_prefix().is_prefix_of(e@)),
        curve25519_decodes(their_identity_key_b64@) && wire@.len() == 0 ==> (r matches Err(e) && e@
            == empty_frame_msg()),
        curve25519_decodes(their_identity_key_b64@) && wire@.len() > 0 && !olm_decodes(
            wire@[0] as usize,
            wire@.drop_first(),
        ) ==> (r matches Err(e) && bad_frame_prefix().is_prefix_of(e@)),
        curve25519_decodes(their_identity_key_b64@) && wire@.len() > 0 && olm_decodes(
            wire@[0] as usize,
            wire@.drop_first(),
        ) && wire@[0] != 0 ==> (r matches Err(e) && e@ == expected_prekey_msg()),
        curve25519_decodes(their_identity_key_b64@) && wire@.len() > 0 && olm_decodes(
            wire@[0] as usize,
            wire@.drop_first(),
        ) && wire@[0] == 0 ==> (r is Ok || (r matches Err(e) && inbound_failed_prefix().is_prefix_of(
            e@,
        ))),
        r matches Err(e) ==> bad_identity_key_prefix().is_prefix_of(e@) || e@ == empty_frame_msg()
            || bad_frame_prefix().is_prefix_of(e@) || e@ == expected_prekey_msg()
            || inbound_failed_prefix().is_prefix_of(e@),
        (wire@.len() > 0 && wire@[0] == 1) ==> r is Err,
{
    let their_identity_key = match curve25519_from_base64(their_identity_key_b64) {
        Ok(k) => k,
        Err(e) => return Err(prefixed("identity_key inválida: ", e.as_str())),
    };
    let (kind, msg) = wire_to_olm(wire)?;
    if kind != 0 {
        return Err(owned("esperava uma mensagem PreKey pra abrir sessão"));
    }
    match account_inbound_session(account, their_identity_key, msg) {
        None => Err(owned("esperava uma mensagem PreKey pra abrir sessão")),
        Some(Err(e)) => Err(prefixed("falha ao abrir sessão de entrada: ", e.as_str())),
        Some(Ok((session, plaintext))) => Ok((session, text_from_bytes(plaintext.as_slice()))),
    }
}

/// Decrypts a frame on the session, as text.
pub fn decrypt(session: &mut Session, wire: &[u8]) -> (r: Result<String, String>)
    ensures
        wire@.len() == 0 ==> (r matches Err(e) && e@ == empty_frame_msg()),
        wire@.len() > 0 && !olm_decodes(wire@[0] as usize, wire@.drop_first()) ==> (r matches Err(
            e,
        ) && bad_frame_prefix().is_prefix_of(e@)),
        wire@.len() > 0 && olm_decodes(wire@[0] as usize, wire@.drop_first()) ==> (r is Ok || (r matches Err(
            e,
        ) && decrypt_failed_prefix().is_prefix_of(e@))),
        r matches Err(e) ==> e@ == empty_frame_msg() || bad_frame_prefix().is_prefix_of(e@)
            || decrypt_failed_prefix().is_prefix_of(e@),
{
    let (_kind, msg) = wire_to_olm(wire)?;
    match session_decrypt_message(session, &msg) {
        Ok(p) => Ok(text_from_bytes(p.as_slice())),
        Err(e) => Err(prefixed("falha ao decifrar: ", e.as_str())),
    }
}

} // verus!
