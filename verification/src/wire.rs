//! The JSON texts of the peer-to-peer protocol: the frames that open a stream,
//! the headers that carry a ratchet message, the envelopes that the ratchet
//! encrypts, and the metadata kept as the body of a file message.
//!
//! Every object is written as `serde_json` writes a `json!` object: compact,
//! with its keys in byte order.

use vstd::prelude::*;
use crate::identity::{base64_bytes, base64_decode, base64_encode, base64_text, hex_digit, hex_digit_exec};
use crate::json::{
    bool_field, json_bool, json_field, json_field_of, json_slice_error, json_str, json_u64, opt_text,
    str_field, u64_field,
};
use crate::net::{
    content_kind, content_kind_of, convo_key, frame_kind, frame_kind_of, join_key, ContentKind,
    FrameKind,
};
use crate::ratchet::PreKeyBundle;
use crate::text::{
    chars_of, decimal, decimal_string, owned, push_char, push_str, signed_decimal,
    signed_decimal_string, str_eq, utf8_text,
};
use vstd::utf8::{decode_utf8, valid_utf8};

verus! {

/// How `serde_json` writes one character inside a string literal: `"` and
/// `\` behind a backslash; backspace, tab, line feed, form feed and carriage
/// return as their short escapes; the other control characters as `\u00xx`
/// in lower-case hex; every other character as it is.
pub open spec fn json_escape(c: char) -> Seq<char> {
    if c == '"' {
        seq!['\\', '"']
    } else if c == '\\' {
        seq!['\\', '\\']
    } else if c == '\u{08}' {
        seq!['\\', 'b']
    } else if c == '\t' {
        seq!['\\', 't']
    } else if c == '\n' {
        seq!['\\', 'n']
    } else if c == '\u{0C}' {
        seq!['\\', 'f']
    } else if c == '\r' {
        seq!['\\', 'r']
    } else if (c as u32) < 0x20 {
        seq![
            '\\',
            'u',
            '0',
            '0',
            hex_digit(((c as u32) / 16) as int),
            hex_digit(((c as u32) % 16) as int),
        ]
    } else {
        seq![c]
    }
}

/// The characters of `s`, each escaped as `json_escape` says.
pub open spec fn json_escaped(s: Seq<char>) -> Seq<char>
    decreases s.len(),
{
    if s.len() == 0 {
        Seq::empty()
    } else {
        json_escaped(s.drop_last()) + json_escape(s.last())
    }
}

/// The JSON string literal of `s`, as `serde_json::to_string` writes it.
pub open spec fn json_quoted(s: Seq<char>) -> Seq<char> {
    seq!['"'] + json_escaped(s) + seq!['"']
}

fn push_escaped_char(s: &mut String, c: char)
    ensures
        final(s)@ == old(s)@ + json_escape(c),
{
    let ghost before: Seq<char> = s@;
    if c == '"' {
        push_char(s, '\\');
        push_char(s, '"');
    } else if c == '\\' {
        push_char(s, '\\');
        push_char(s, '\\');
    } else if c == '\u{08}' {
        push_char(s, '\\');
        push_char(s, 'b');
    } else if c == '\t' {
        push_char(s, '\\');
        push_char(s, 't');
    } else if c == '\n' {
        push_char(s, '\\');
        push_char(s, 'n');
    } else if c == '\u{0C}' {
        push_char(s, '\\');
        push_char(s, 'f');
    } else if c == '\r' {
        push_char(s, '\\');
        push_char(s, 'r');
    } else if (c as u32) < 0x20 {
        let b: u32 = c as u32;
        push_char(s, '\\');
        push_char(s, 'u');
        push_char(s, '0');
        push_char(s, '0');
        push_char(s, hex_digit_exec((b / 16) as u8));
        push_char(s, hex_digit_exec((b % 16) as u8));
    } else {
        push_char(s, c);
    }
    assert(s@ =~= before + json_escape(c));
}

fn push_quoted(s: &mut String, t: &str)
    ensures
        final(s)@ == old(s)@ + json_quoted(t@),
{
    let cs = chars_of(t);
    push_char(s, '"');
    let ghost start: Seq<char> = s@;
    let mut i: usize = 0;
    while i < cs.len()
        invariant
            cs@ == t@,
            i <= cs.len(),
            s@ == start + json_escaped(t@.take(i as int)),
        decreases cs.len() - i,
    {
        push_escaped_char(s, cs[i]);
        assert(t@.take(i + 1).drop_last() =~= t@.take(i as int));
        i += 1;
    }
    assert(t@.take(cs.len() as int) =~= t@);
    push_char(s, '"');
    assert(s@ =~= old(s)@ + json_quoted(t@));
}

/// A JSON boolean.
pub open spec fn json_flag(b: bool) -> Seq<char> {
    if b {
        "true"@
    } else {
        "false"@
    }
}

fn push_flag(s: &mut String, b: bool)
    ensures
        final(s)@ == old(s)@ + json_flag(b),
{
    if b {
        push_str(s, "true");
    } else {
        push_str(s, "false");
    }
}

// ---------------------------------------------------------------------------
// stream frames
// ---------------------------------------------------------------------------

pub open spec fn ping_frame_text() -> Seq<char> {
    "{\"t\":\"ping\"}"@
}

/// The liveness probe of the presence heartbeat.
pub fn ping_frame() -> (r: String)
    ensures
        r@ == ping_frame_text(),
{
    owned("{\"t\":\"ping\"}")
}

pub open spec fn prekey_request_text() -> Seq<char> {
    "{\"t\":\"req_prekey\"}"@
}

/// What a sender without a session asks first: the peer's pre-key bundle.
pub fn prekey_request_frame() -> (r: String)
    ensures
        r@ == prekey_request_text(),
{
    owned("{\"t\":\"req_prekey\"}")
}

pub open spec fn bundle_frame_text(identity_key: Seq<char>, one_time_key: Seq<char>) -> Seq<char> {
    "{\"identity_key\":"@ + json_quoted(identity_key) + ",\"one_time_key\":"@ + json_quoted(
        one_time_key,
    ) + ",\"t\":\"bundle\"}"@
}

/// The answer to a pre-key request.
pub fn bundle_frame(identity_key: &str, one_time_key: &str) -> (r: String)
    ensures
        r@ == bundle_frame_text(identity_key@, one_time_key@),
{
    let mut s = owned("{\"identity_key\":");
    push_quoted(&mut s, identity_key);
    push_str(&mut s, ",\"one_time_key\":");
    push_quoted(&mut s, one_time_key);
    push_str(&mut s, ",\"t\":\"bundle\"}");
    s
}

pub open spec fn resume_frame_text(chunk: u64) -> Seq<char> {
    "{\"resumeChunk\":"@ + decimal(chunk as nat) + "}"@
}

/// The receiver's answer to a file header: the chunk to resume from.
pub fn resume_frame(chunk: u64) -> (r: String)
    ensures
        r@ == resume_frame_text(chunk),
{
    let mut s = owned("{\"resumeChunk\":");
    let d = decimal_string(chunk);
    push_str(&mut s, d.as_str());
    push_str(&mut s, "}");
    s
}

pub open spec fn streamed_part(streamed: bool) -> Seq<char> {
    if streamed {
        ",\"streamed\":true"@
    } else {
        Seq::empty()
    }
}

/// The header of a message: `t` is `msg` over an established session, and
/// `msg_prekey`, with the sender's identity key, for the message that opens
/// one. A file header also says `streamed`.
pub open spec fn header_text(wire: Seq<u8>, sender_identity: Option<Seq<char>>, streamed: bool) -> Seq<
    char,
> {
    match sender_identity {
        None => "{\"olm\":"@ + json_quoted(base64_text(wire)) + streamed_part(streamed)
            + ",\"t\":\"msg\"}"@,
        Some(id) => "{\"olm\":"@ + json_quoted(base64_text(wire)) + ",\"sender_identity\":"@
            + json_quoted(id) + streamed_part(streamed) + ",\"t\":\"msg_prekey\"}"@,
    }
}

/// The header frame that carries a ratchet message (in base64).
pub fn header_frame(wire: &[u8], sender_identity: Option<&str>, streamed: bool) -> (r: String)
    ensures
        r@ == header_text(
            wire@,
            match sender_identity {
                Some(s) => Some(s@),
                None => None,
            },
            streamed,
        ),
{
    let olm = base64_encode(wire);
    let mut s = owned("{\"olm\":");
    push_quoted(&mut s, olm.as_str());
    match sender_identity {
        Some(id) => {
            push_str(&mut s, ",\"sender_identity\":");
            push_quoted(&mut s, id);
        },
        None => {},
    }
    let ghost before = s@;
    if streamed {
        push_str(&mut s, ",\"streamed\":true");
    }
    assert(s@ =~= before + streamed_part(streamed));
    match sender_identity {
        Some(_) => push_str(&mut s, ",\"t\":\"msg_prekey\"}"),
        None => push_str(&mut s, ",\"t\":\"msg\"}"),
    }
    s
}

// ---------------------------------------------------------------------------
// envelopes (what the ratchet encrypts)
// ---------------------------------------------------------------------------

pub open spec fn text_envelope_text(body: Seq<char>, ts: int, thread: Seq<char>) -> Seq<char> {
    "{\"body\":"@ + json_quoted(body) + ",\"k\":\"text\",\"thread\":"@ + json_quoted(thread)
        + ",\"ts\":"@ + signed_decimal(ts) + "}"@
}

/// A text message, with the sender's timestamp and the thread it belongs to.
pub fn text_envelope(body: &str, ts: i64, thread: &str) -> (r: String)
    ensures
        r@ == text_envelope_text(body@, ts as int, thread@),
{
    let mut s = owned("{\"body\":");
    push_quoted(&mut s, body);
    push_str(&mut s, ",\"k\":\"text\",\"thread\":");
    push_quoted(&mut s, thread);
    push_str(&mut s, ",\"ts\":");
    let d = signed_decimal_string(ts);
    push_str(&mut s, d.as_str());
    push_str(&mut s, "}");
    s
}

/// The avatar of a profile as it travels: base64, empty for none.
pub open spec fn avatar_text(avatar: Option<Seq<u8>>) -> Seq<char> {
    match avatar {
        Some(b) => base64_text(b),
        None => Seq::empty(),
    }
}

pub open spec fn profile_envelope_text(name: Seq<char>, avatar: Option<Seq<u8>>) -> Seq<char> {
    "{\"avatar\":"@ + json_quoted(avatar_text(avatar)) + ",\"k\":\"profile\",\"name\":"@
        + json_quoted(name) + "}"@
}

/// My profile for a contact: name and the bytes of my avatar, if I have one.
pub fn profile_envelope(name: &str, avatar: Option<&[u8]>) -> (r: String)
    ensures
        r@ == profile_envelope_text(
            name@,
            match avatar {
                Some(b) => Some(b@),
                None => None,
            },
        ),
{
    let avatar_b64 = match avatar {
        Some(b) => base64_encode(b),
        None => String::new(),
    };
    let mut s = owned("{\"avatar\":");
    push_quoted(&mut s, avatar_b64.as_str());
    push_str(&mut s, ",\"k\":\"profile\",\"name\":");
    push_quoted(&mut s, name);
    push_str(&mut s, "}");
    s
}

pub open spec fn keyword_envelope_text(hash: Seq<char>) -> Seq<char> {
    "{\"hash\":"@ + json_quoted(hash) + ",\"k\":\"keyword\"}"@
}

/// The hash of my keyword for a contact (never the word itself).
pub fn keyword_envelope(hash: &str) -> (r: String)
    ensures
        r@ == keyword_envelope_text(hash@),
{
    let mut s = owned("{\"hash\":");
    push_quoted(&mut s, hash);
    push_str(&mut s, ",\"k\":\"keyword\"}");
    s
}

pub open spec fn read_envelope_text(thread: Seq<char>) -> Seq<char> {
    "{\"k\":\"read\",\"thread\":"@ + json_quoted(thread) + "}"@
}

/// A read receipt for a conversation.
pub fn read_envelope(thread: &str) -> (r: String)
    ensures
        r@ == read_envelope_text(thread@),
{
    let mut s = owned("{\"k\":\"read\",\"thread\":");
    push_quoted(&mut s, thread);
    push_str(&mut s, "}");
    s
}

pub open spec fn file_envelope_text(
    filename: Seq<char>,
    mime: Seq<char>,
    size: u64,
    transfer_id: Seq<char>,
    file_key: Seq<u8>,
    ts: int,
    thread: Seq<char>,
    sticker: bool,
) -> Seq<char> {
    "{\"fileKey\":"@ + json_quoted(base64_text(file_key)) + ",\"filename\":"@ + json_quoted(
        filename,
    ) + ",\"k\":\"file\",\"mime\":"@ + json_quoted(mime) + ",\"size\":"@ + decimal(size as nat)
        + ",\"sticker\":"@ + json_flag(sticker) + ",\"thread\":"@ + json_quoted(thread)
        + ",\"transferId\":"@ + json_quoted(transfer_id) + ",\"ts\":"@ + signed_decimal(ts) + "}"@
}

/// The header of a file transfer: its metadata, the one-time key of its
/// chunks (in base64) and the stable transfer id that lets it resume.
pub fn file_envelope(
    filename: &str,
    mime: &str,
    size: u64,
    transfer_id: &str,
    file_key: &[u8; 32],
    ts: i64,
    thread: &str,
    sticker: bool,
) -> (r: String)
    ensures
        r@ == file_envelope_text(
            filename@,
            mime@,
            size,
            transfer_id@,
            file_key@,
            ts as int,
            thread@,
            sticker,
        ),
{
    let key = base64_encode(file_key);
    let mut s = owned("{\"fileKey\":");
    push_quoted(&mut s, key.as_str());
    push_str(&mut s, ",\"filename\":");
    push_quoted(&mut s, filename);
    push_str(&mut s, ",\"k\":\"file\",\"mime\":");
    push_quoted(&mut s, mime);
    push_str(&mut s, ",\"size\":");
    let d = decimal_string(size);
    push_str(&mut s, d.as_str());
    push_str(&mut s, ",\"sticker\":");
    push_flag(&mut s, sticker);
    push_str(&mut s, ",\"thread\":");
    push_quoted(&mut s, thread);
    push_str(&mut s, ",\"transferId\":");
    push_quoted(&mut s, transfer_id);
    push_str(&mut s, ",\"ts\":");
    let t = signed_decimal_string(ts);
    push_str(&mut s, t.as_str());
    push_str(&mut s, "}");
    s
}

// ---------------------------------------------------------------------------
// file message metadata (the body of a `file` message)
// ---------------------------------------------------------------------------

pub open spec fn sent_file_meta_text(
    filename: Seq<char>,
    mime: Seq<char>,
    size: u64,
    local_path: Seq<char>,
    transfer_id: Seq<char>,
    file_key: Seq<u8>,
    sticker: bool,
) -> Seq<char> {
    "{\"fileKey\":"@ + json_quoted(base64_text(file_key)) + ",\"filename\":"@ + json_quoted(
        filename,
    ) + ",\"localPath\":"@ + json_quoted(local_path) + ",\"mime\":"@ + json_quoted(mime)
        + ",\"size\":"@ + decimal(size as nat) + ",\"sticker\":"@ + json_flag(sticker)
        + ",\"transferId\":"@ + json_quoted(transfer_id) + "}"@
}

/// What an outgoing file message keeps: enough to resend it, with the same
/// transfer id and key, from the local copy.
pub fn sent_file_meta(
    filename: &str,
    mime: &str,
    size: u64,
    local_path: &str,
    transfer_id: &str,
    file_key: &[u8; 32],
    sticker: bool,
) -> (r: String)
    ensures
        r@ == sent_file_meta_text(
            filename@,
            mime@,
            size,
            local_path@,
            transfer_id@,
            file_key@,
            sticker,
        ),
{
    let key = base64_encode(file_key);
    let mut s = owned("{\"fileKey\":");
    push_quoted(&mut s, key.as_str());
    push_str(&mut s, ",\"filename\":");
    push_quoted(&mut s, filename);
    push_str(&mut s, ",\"localPath\":");
    push_quoted(&mut s, local_path);
    push_str(&mut s, ",\"mime\":");
    push_quoted(&mut s, mime);
    push_str(&mut s, ",\"size\":");
    let d = decimal_string(size);
    push_str(&mut s, d.as_str());
    push_str(&mut s, ",\"sticker\":");
    push_flag(&mut s, sticker);
    push_str(&mut s, ",\"transferId\":");
    push_quoted(&mut s, transfer_id);
    push_str(&mut s, "}");
    s
}

pub open spec fn received_file_meta_text(
    filename: Seq<char>,
    mime: Seq<char>,
    size: u64,
    local_path: Seq<char>,
    sticker: bool,
) -> Seq<char> {
    "{\"filename\":"@ + json_quoted(filename) + ",\"localPath\":"@ + json_quoted(local_path)
        + ",\"mime\":"@ + json_quoted(mime) + ",\"size\":"@ + decimal(size as nat)
        + ",\"sticker\":"@ + json_flag(sticker) + "}"@
}

/// What an incoming file message keeps once the file is complete on disk.
pub fn received_file_meta(
    filename: &str,
    mime: &str,
    size: u64,
    local_path: &str,
    sticker: bool,
) -> (r: String)
    ensures
        r@ == received_file_meta_text(filename@, mime@, size, local_path@, sticker),
{
    let mut s = owned("{\"filename\":");
    push_quoted(&mut s, filename);
    push_str(&mut s, ",\"localPath\":");
    push_quoted(&mut s, local_path);
    push_str(&mut s, ",\"mime\":");
    push_quoted(&mut s, mime);
    push_str(&mut s, ",\"size\":");
    let d = decimal_string(size);
    push_str(&mut s, d.as_str());
    push_str(&mut s, ",\"sticker\":");
    push_flag(&mut s, sticker);
    push_str(&mut s, "}");
    s
}

// ---------------------------------------------------------------------------
// reading what arrives
// ---------------------------------------------------------------------------

/// `format!("{:?}", o)` of an optional text: `None`, or `Some("…")` with the
/// text escaped as `Debug` escapes a `str`.
pub uninterp spec fn debug_option_text(o: Option<Seq<char>>) -> Seq<char>;

/// `format!("{o:?}")`.
#[verifier::external_body]
fn debug_text(o: Option<&str>) -> (r: String)
    ensures
        r@ == debug_option_text(
            match o {
                Some(s) => Some(s@),
                None => None,
            },
        ),
{
    format!("{o:?}")
}

fn as_opt_str(o: &Option<String>) -> (r: Option<&str>)
    ensures
        match r {
            Some(s) => opt_text(*o) == Some(s@),
            None => o is None,
        },
{
    match o {
        Some(s) => Some(s.as_str()),
        None => None,
    }
}

/// An optional text, or a default.
pub open spec fn or_text(o: Option<Seq<char>>, d: Seq<char>) -> Seq<char> {
    match o {
        Some(s) => s,
        None => d,
    }
}

pub open spec fn bad_base64_prefix() -> Seq<char> {
    "base64 inválido: "@
}

/// Bytes from base64 text; a text that is not base64 is an error.
fn unb64(s: &str) -> (r: Result<Vec<u8>, String>)
    ensures
        match base64_bytes(s@) {
            Some(b) => r matches Ok(v) && v@ == b,
            None => r matches Err(e) && bad_base64_prefix().is_prefix_of(e@),
        },
{
    match base64_decode(s) {
        Ok(v) => Ok(v),
        Err(e) => {
            let mut m = owned("base64 inválido: ");
            push_str(&mut m, e.as_str());
            Err(m)
        },
    }
}

/// The text of a frame, or the error that stops its reading: for bytes that
/// are not UTF-8, serde_json's message.
fn frame_text(frame: &[u8]) -> (r: Result<String, String>)
    ensures
        match r {
            Ok(t) => valid_utf8(frame@) && t@ == decode_utf8(frame@),
            Err(_) => !valid_utf8(frame@),
        },
{
    match utf8_text(frame) {
        Some(t) => Ok(t),
        None => match json_slice_error(frame) {
            Some(e) => Err(e),
            None => Err(String::new()),
        },
    }
}

pub open spec fn unknown_frame_prefix() -> Seq<char> {
    "frame desconhecido: "@
}

/// What the first frame of an incoming stream opens, by its `t`: a frame
/// that is not JSON, or of another type, is refused.
pub fn stream_opening(frame: &[u8]) -> (r: Result<FrameKind, String>)
    ensures
        !valid_utf8(frame@) ==> r is Err,
        valid_utf8(frame@) ==> match json_field_of(decode_utf8(frame@), "t"@) {
            None => r is Err,
            Some(f) => match frame_kind_of(f.0) {
                FrameKind::Unknown => r matches Err(e) && e@ == unknown_frame_prefix()
                    + debug_option_text(f.0),
                k => r == Ok::<FrameKind, String>(k),
            },
        },
{
    let text = match frame_text(frame) {
        Ok(t) => t,
        Err(e) => return Err(e),
    };
    let t = match json_field(text.as_str(), "t") {
        Ok(f) => f.as_str,
        Err(e) => return Err(e),
    };
    let k = as_opt_str(&t);
    match frame_kind(k) {
        FrameKind::Unknown => {
            let mut m = owned("frame desconhecido: ");
            let d = debug_text(k);
            push_str(&mut m, d.as_str());
            Err(m)
        },
        kind => Ok(kind),
    }
}

/// A ratchet message as its header carries it: the sender's identity key
/// when it opens a session (`msg_prekey`), and the message itself.
pub struct Sealed {
    pub sender_identity: Option<String>,
    pub olm: Vec<u8>,
}

pub open spec fn missing_olm_msg() -> Seq<char> {
    "faltou olm"@
}

pub open spec fn missing_sender_msg() -> Seq<char> {
    "faltou sender_identity"@
}

/// What a message header holds, given its text.
pub open spec fn sealed_is(t: Seq<char>, r: Result<Sealed, String>) -> bool {
    match json_field_of(t, "t"@) {
        None => r is Err,
        Some(f) => match json_str(t, "olm"@) {
            None => r matches Err(e) && e@ == missing_olm_msg(),
            Some(o) => match base64_bytes(o) {
                None => r matches Err(e) && bad_base64_prefix().is_prefix_of(e@),
                Some(olm) => if f.0 == Some("msg_prekey"@) {
                    match json_str(t, "sender_identity"@) {
                        None => r matches Err(e) && e@ == missing_sender_msg(),
                        Some(id) => r matches Ok(s) && s.olm@ == olm && opt_text(s.sender_identity)
                            == Some(id),
                    }
                } else {
                    r matches Ok(s) && s.olm@ == olm && s.sender_identity is None
                },
            },
        },
    }
}

/// Reads the header of a message: the ratchet message, in base64, and for a
/// `msg_prekey` the identity key of the sender.
pub fn read_sealed(frame: &[u8]) -> (r: Result<Sealed, String>)
    ensures
        !valid_utf8(frame@) ==> r is Err,
        valid_utf8(frame@) ==> sealed_is(decode_utf8(frame@), r),
{
    let text = match frame_text(frame) {
        Ok(t) => t,
        Err(e) => return Err(e),
    };
    let t = match json_field(text.as_str(), "t") {
        Ok(f) => f.as_str,
        Err(e) => return Err(e),
    };
    let olm_b64 = match str_field(text.as_str(), "olm") {
        Some(o) => o,
        None => return Err(owned("faltou olm")),
    };
    let olm = match unb64(olm_b64.as_str()) {
        Ok(v) => v,
        Err(e) => return Err(e),
    };
    let prekey = match &t {
        Some(x) => str_eq(x.as_str(), "msg_prekey"),
        None => false,
    };
    if prekey {
        match str_field(text.as_str(), "sender_identity") {
            Some(id) => Ok(Sealed { sender_identity: Some(id), olm }),
            None => Err(owned("faltou sender_identity")),
        }
    } else {
        Ok(Sealed { sender_identity: None, olm })
    }
}

pub open spec fn bundle_without_identity_msg() -> Seq<char> {
    "bundle sem identity_key"@
}

pub open spec fn bundle_without_one_time_msg() -> Seq<char> {
    "bundle sem one_time_key"@
}

/// Reads the pre-key bundle that a peer answered with.
pub fn read_bundle(frame: &[u8]) -> (r: Result<PreKeyBundle, String>)
    ensures
        !valid_utf8(frame@) ==> r is Err,
        valid_utf8(frame@) ==> ({
            let t = decode_utf8(frame@);
            match json_field_of(t, "identity_key"@) {
                None => r is Err,
                Some(f) => match f.0 {
                    None => r matches Err(e) && e@ == bundle_without_identity_msg(),
                    Some(ik) => match json_str(t, "one_time_key"@) {
                        None => r matches Err(e) && e@ == bundle_without_one_time_msg(),
                        Some(ok) => r matches Ok(b) && b.identity_key@ == ik && b.one_time_key@
                            == ok,
                    },
                },
            }
        }),
{
    let text = match frame_text(frame) {
        Ok(t) => t,
        Err(e) => return Err(e),
    };
    let identity_key = match json_field(text.as_str(), "identity_key") {
        Ok(f) => match f.as_str {
            Some(k) => k,
            None => return Err(owned("bundle sem identity_key")),
        },
        Err(e) => return Err(e),
    };
    match str_field(text.as_str(), "one_time_key") {
        Some(one_time_key) => Ok(PreKeyBundle { identity_key, one_time_key }),
        None => Err(owned("bundle sem one_time_key")),
    }
}

/// Reads the receiver's answer to a file header: the chunk to resume from,
/// the first one when the answer does not say.
pub fn read_resume(frame: &[u8]) -> (r: Result<u64, String>)
    ensures
        !valid_utf8(frame@) ==> r is Err,
        valid_utf8(frame@) ==> match json_field_of(decode_utf8(frame@), "resumeChunk"@) {
            None => r is Err,
            Some(f) => r == Ok::<u64, String>(
                match f.1 {
                    Some(n) => n,
                    None => 0,
                },
            ),
        },
{
    let text = match frame_text(frame) {
        Ok(t) => t,
        Err(e) => return Err(e),
    };
    match json_field(text.as_str(), "resumeChunk") {
        Ok(f) => match f.as_u64 {
            Some(n) => Ok(n),
            None => Ok(0),
        },
        Err(e) => Err(e),
    }
}

// ---------------------------------------------------------------------------
// the content of an envelope
// ---------------------------------------------------------------------------

/// A file that a peer starts to send: its metadata, the transfer id that
/// names the partial file, and the one-time key of its chunks.
pub struct FileOffer {
    pub filename: String,
    pub mime: String,
    pub size: u64,
    pub transfer_id: String,
    pub file_key: [u8; 32],
    pub sticker: bool,
}

pub open spec fn no_transfer_id_msg() -> Seq<char> {
    "arquivo sem transferId"@
}

pub open spec fn no_file_key_msg() -> Seq<char> {
    "arquivo sem chave"@
}

pub open spec fn bad_file_key_msg() -> Seq<char> {
    "chave de arquivo inválida"@
}

pub open spec fn default_filename() -> Seq<char> {
    "arquivo"@
}

pub open spec fn default_mime() -> Seq<char> {
    "application/octet-stream"@
}

/// A key of exactly 32 bytes.
fn key_of_bytes(v: &Vec<u8>) -> (r: Option<[u8; 32]>)
    ensures
        match r {
            Some(k) => v@.len() == 32 && k@ == v@,
            None => v@.len() != 32,
        },
{
    if v.len() != 32 {
        return None;
    }
    let mut key = [0u8; 32];
    let mut i: usize = 0;
    while i < 32
        invariant
            v@.len() == 32,
            i <= 32,
            forall|j: int| 0 <= j < i ==> key@[j] == v@[j],
        decreases 32 - i,
    {
        key[i] = v[i];
        i += 1;
    }
    assert(key@ =~= v@);
    Some(key)
}

/// What a `file` envelope offers: the transfer id and a key of 32 bytes are
/// required; name, type, size and the sticker flag have defaults.
pub open spec fn file_offer_is(t: Seq<char>, r: Result<FileOffer, String>) -> bool {
    match json_str(t, "transferId"@) {
        None => r matches Err(e) && e@ == no_transfer_id_msg(),
        Some(tid) => match json_str(t, "fileKey"@) {
            None => r matches Err(e) && e@ == no_file_key_msg(),
            Some(k) => match base64_bytes(k) {
                None => r matches Err(e) && bad_base64_prefix().is_prefix_of(e@),
                Some(key) => if key.len() != 32 {
                    r matches Err(e) && e@ == bad_file_key_msg()
                } else {
                    r matches Ok(f) && f.transfer_id@ == tid && f.file_key@ == key && f.filename@
                        == or_text(json_str(t, "filename"@), default_filename()) && f.mime@
                        == or_text(json_str(t, "mime"@), default_mime()) && f.size == (match json_u64(
                        t,
                        "size"@,
                    ) {
                        Some(n) => n,
                        None => 0,
                    }) && f.sticker == (match json_bool(t, "sticker"@) {
                        Some(b) => b,
                        None => false,
                    })
                },
            },
        },
    }
}

/// Reads the offer of a `file` envelope.
pub fn file_offer(inner: &str) -> (r: Result<FileOffer, String>)
    ensures
        file_offer_is(inner@, r),
{
    let filename = match str_field(inner, "filename") {
        Some(n) => n,
        None => owned("arquivo"),
    };
    let mime = match str_field(inner, "mime") {
        Some(m) => m,
        None => owned("application/octet-stream"),
    };
    let size = match u64_field(inner, "size") {
        Some(n) => n,
        None => 0,
    };
    let transfer_id = match str_field(inner, "transferId") {
        Some(t) => t,
        None => return Err(owned("arquivo sem transferId")),
    };
    let key_b64 = match str_field(inner, "fileKey") {
        Some(k) => k,
        None => return Err(owned("arquivo sem chave")),
    };
    let key_vec = match unb64(key_b64.as_str()) {
        Ok(v) => v,
        Err(e) => return Err(e),
    };
    let file_key = match key_of_bytes(&key_vec) {
        Some(k) => k,
        None => return Err(owned("chave de arquivo inválida")),
    };
    let sticker = match bool_field(inner, "sticker") {
        Some(b) => b,
        None => false,
    };
    Ok(FileOffer { filename, mime, size, transfer_id, file_key, sticker })
}

/// What a `profile` envelope holds: a name (empty by default) and an avatar
/// in base64 (none when empty).
pub open spec fn profile_is(t: Seq<char>, r: Result<(String, Option<Vec<u8>>), String>) -> bool {
    let name = or_text(json_str(t, "name"@), Seq::empty());
    let avatar = or_text(json_str(t, "avatar"@), Seq::empty());
    if avatar.len() == 0 {
        r matches Ok(p) && p.0@ == name && p.1 is None
    } else {
        match base64_bytes(avatar) {
            None => r matches Err(e) && bad_base64_prefix().is_prefix_of(e@),
            Some(b) => r matches Ok(p) && p.0@ == name && (p.1 matches Some(v) && v@ == b),
        }
    }
}

/// Reads a peer's profile: its name and the bytes of its avatar.
pub fn profile_update(inner: &str) -> (r: Result<(String, Option<Vec<u8>>), String>)
    ensures
        profile_is(inner@, r),
{
    let name = match str_field(inner, "name") {
        Some(n) => n,
        None => String::new(),
    };
    let avatar = match str_field(inner, "avatar") {
        Some(a) => a,
        None => String::new(),
    };
    if avatar.as_str().is_empty() {
        Ok((name, None))
    } else {
        match unb64(avatar.as_str()) {
            Ok(b) => Ok((name, Some(b))),
            Err(e) => Err(e),
        }
    }
}

/// What a decrypted envelope asks of the receiver.
pub enum Incoming {
    /// A text message with its body.
    Text(String),
    /// A file transfer that starts.
    File(FileOffer),
    /// A read receipt: my messages of the conversation were read.
    Read,
    /// The hash of the peer's keyword.
    Keyword(String),
    /// The peer's name and avatar.
    Profile(String, Option<Vec<u8>>),
}

pub open spec fn no_hash_msg() -> Seq<char> {
    "keyword sem hash"@
}

pub open spec fn unknown_content_prefix() -> Seq<char> {
    "conteúdo desconhecido: "@
}

pub open spec fn invalid_content_prefix() -> Seq<char> {
    "conteúdo inválido: "@
}

/// What an envelope of text `t` asks, by its kind `k`.
pub open spec fn content_is(t: Seq<char>, what: Result<Incoming, String>) -> bool {
    match content_kind_of(json_str(t, "k"@)) {
        ContentKind::Text => what matches Ok(Incoming::Text(body)) && body@ == or_text(
            json_str(t, "body"@),
            Seq::empty(),
        ),
        ContentKind::File => match what {
            Ok(Incoming::File(f)) => file_offer_is(t, Ok(f)),
            Ok(_) => false,
            Err(e) => file_offer_is(t, Err(e)),
        },
        ContentKind::Read => what matches Ok(Incoming::Read),
        ContentKind::Keyword => match json_str(t, "hash"@) {
            None => what matches Err(e) && e@ == no_hash_msg(),
            Some(h) => what matches Ok(Incoming::Keyword(hash)) && hash@ == h,
        },
        ContentKind::Profile => match what {
            Ok(Incoming::Profile(name, avatar)) => profile_is(t, Ok((name, avatar))),
            Ok(_) => false,
            Err(e) => profile_is(t, Err(e)),
        },
        ContentKind::Unknown => what matches Err(e) && e@ == unknown_content_prefix()
            + debug_option_text(json_str(t, "k"@)),
    }
}

/// A decrypted envelope: the sender's timestamp, the conversation it belongs
/// to, and what it asks (or why it cannot be taken).
pub struct Content {
    pub ts: i64,
    pub convo: String,
    pub what: Result<Incoming, String>,
}

/// Reads a decrypted envelope from `peer`. Its timestamp is the sender's,
/// `now_ms` when it has none; its conversation is the peer's node id with the
/// envelope's thread. Only a text that is not JSON is refused as a whole.
pub fn read_content(inner: &str, peer: &str, now_ms: i64) -> (r: Result<Content, String>)
    ensures
        match json_field_of(inner@, "ts"@) {
            None => r matches Err(e) && invalid_content_prefix().is_prefix_of(e@),
            Some(f) => r matches Ok(c) && c.ts == (match f.2 {
                Some(ts) => ts,
                None => now_ms,
            }) && c.convo@ == join_key(peer@, or_text(json_str(inner@, "thread"@), Seq::empty()))
                && content_is(inner@, c.what),
        },
{
    let ts = match json_field(inner, "ts") {
        Ok(f) => match f.as_i64 {
            Some(t) => t,
            None => now_ms,
        },
        Err(e) => {
            let mut m = owned("conteúdo inválido: ");
            push_str(&mut m, e.as_str());
            return Err(m);
        },
    };
    let thread = match str_field(inner, "thread") {
        Some(t) => t,
        None => String::new(),
    };
    let convo = convo_key(peer, thread.as_str());
    let kind_text = str_field(inner, "k");
    let k = as_opt_str(&kind_text);
    let what = match content_kind(k) {
        ContentKind::Text => {
            let body = match str_field(inner, "body") {
                Some(b) => b,
                None => String::new(),
            };
            Ok(Incoming::Text(body))
        },
        ContentKind::File => match file_offer(inner) {
            Ok(f) => Ok(Incoming::File(f)),
            Err(e) => Err(e),
        },
        ContentKind::Read => Ok(Incoming::Read),
        ContentKind::Keyword => match str_field(inner, "hash") {
            Some(h) => Ok(Incoming::Keyword(h)),
            None => Err(owned("keyword sem hash")),
        },
        ContentKind::Profile => match profile_update(inner) {
            Ok(p) => Ok(Incoming::Profile(p.0, p.1)),
            Err(e) => Err(e),
        },
        ContentKind::Unknown => {
            let mut m = owned("conteúdo desconhecido: ");
            let d = debug_text(k);
            push_str(&mut m, d.as_str());
            Err(m)
        },
    };
    Ok(Content { ts, convo, what })
}

// ---------------------------------------------------------------------------
// the outbox
// ---------------------------------------------------------------------------

/// What a queued file message needs to be sent again: the local copy and the
/// transfer id and key it was first offered with (so the receiver resumes).
pub struct FileResend {
    pub local_path: String,
    pub filename: String,
    pub mime: String,
    pub transfer_id: String,
    pub file_key: [u8; 32],
    pub sticker: bool,
}

pub open spec fn corrupt_attachment_prefix() -> Seq<char> {
    "anexo corrompido: "@
}

/// What the body of a queued file message allows: its metadata must be
/// JSON; when a field is missing or the key is not 32 bytes of base64, the
/// message cannot be sent again (`None`: it is marked failed).
pub open spec fn resend_is(t: Seq<char>, r: Result<Option<FileResend>, String>) -> bool {
    match json_field_of(t, "localPath"@) {
        None => r matches Err(e) && corrupt_attachment_prefix().is_prefix_of(e@),
        Some(f) => match (
            f.0,
            json_str(t, "filename"@),
            json_str(t, "mime"@),
            json_str(t, "transferId"@),
            json_str(t, "fileKey"@),
        ) {
            (Some(p), Some(n), Some(m), Some(tid), Some(k)) => match base64_bytes(k) {
                Some(key) => if key.len() == 32 {
                    r matches Ok(Some(x)) && x.local_path@ == p && x.filename@ == n && x.mime@ == m
                        && x.transfer_id@ == tid && x.file_key@ == key && x.sticker == (match json_bool(
                        t,
                        "sticker"@,
                    ) {
                        Some(b) => b,
                        None => false,
                    })
                } else {
                    r matches Ok(None)
                },
                None => r matches Ok(None),
            },
            _ => r matches Ok(None),
        },
    }
}

/// Reads the metadata of a queued file message for a resend.
pub fn queued_file(body: &str) -> (r: Result<Option<FileResend>, String>)
    ensures
        resend_is(body@, r),
{
    let local_path = match json_field(body, "localPath") {
        Ok(f) => f.as_str,
        Err(e) => {
            let mut m = owned("anexo corrompido: ");
            push_str(&mut m, e.as_str());
            return Err(m);
        },
    };
    let filename = str_field(body, "filename");
    let mime = str_field(body, "mime");
    let transfer_id = str_field(body, "transferId");
    let key_b64 = str_field(body, "fileKey");
    match (local_path, filename, mime, transfer_id, key_b64) {
        (Some(local_path), Some(filename), Some(mime), Some(transfer_id), Some(k)) => {
            let file_key = match base64_decode(k.as_str()) {
                Ok(v) => match key_of_bytes(&v) {
                    Some(key) => key,
                    None => return Ok(None),
                },
                Err(_) => return Ok(None),
            };
            let sticker = match bool_field(body, "sticker") {
                Some(b) => b,
                None => false,
            };
            Ok(Some(FileResend { local_path, filename, mime, transfer_id, file_key, sticker }))
        },
        _ => Ok(None),
    }
}

} // verus!
