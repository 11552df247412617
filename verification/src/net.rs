//! The decisions of the peer-to-peer layer, apart from the sockets that carry
//! them: conversation keys, the frame length prefix, where an interrupted
//! transfer resumes, the network log kept for the diagnostics panel and the
//! previews of what arrives.

use vstd::prelude::*;
use crate::order::texts;
use crate::text::{
    chars_of, decimal, decimal_padded, decimal_padded_string, first_chars, owned, push_str,
    string_of, take_chars,
};

verus! {

broadcast use vstd::seq_lib::group_seq_properties;

// ---------------------------------------------------------------------------
// conversation keys
// ---------------------------------------------------------------------------

/// Index of the first `#` in `s`, or -1.
pub open spec fn first_hash(s: Seq<char>) -> int
    decreases s.len(),
{
    if s.len() == 0 {
        -1
    } else if s[0] == '#' {
        0
    } else if first_hash(s.drop_first()) < 0 {
        -1
    } else {
        first_hash(s.drop_first()) + 1
    }
}

proof fn lemma_first_hash(s: Seq<char>)
    ensures
        -1 <= first_hash(s) < s.len(),
        first_hash(s) >= 0 ==> s[first_hash(s)] == '#',
        forall|k: int| 0 <= k < s.len() && (first_hash(s) < 0 || k < first_hash(s)) ==> s[k] != '#',
    decreases s.len(),
{
    if s.len() > 0 && s[0] != '#' {
        lemma_first_hash(s.drop_first());
        assert forall|k: int| 0 <= k < s.len() && (first_hash(s) < 0 || k < first_hash(s)) implies s[k]
            != '#' by {
            if k > 0 {
                assert(s[k] == s.drop_first()[k - 1]);
            }
        }
    }
}

/// The node id and thread of a conversation key: `node` (the main
/// conversation) or `node#thread` (an extra one), split at the first `#`.
pub open spec fn split_key(convo: Seq<char>) -> (Seq<char>, Seq<char>) {
    let k = first_hash(convo);
    if k < 0 {
        (convo, Seq::empty())
    } else {
        (convo.take(k), convo.skip(k + 1))
    }
}

/// The conversation key of a node id and a thread (empty for the main one).
pub open spec fn join_key(node: Seq<char>, thread: Seq<char>) -> Seq<char> {
    if thread.len() == 0 {
        node
    } else {
        node + "#"@ + thread
    }
}

fn first_hash_of(cs: &Vec<char>) -> (r: Option<usize>)
    ensures
        match r {
            Some(k) => k == first_hash(cs@) && k < cs@.len(),
            None => first_hash(cs@) < 0,
        },
{
    proof {
        lemma_first_hash(cs@);
    }
    let mut i: usize = 0;
    while i < cs.len()
        invariant
            i <= cs.len(),
            forall|k: int| 0 <= k < i ==> cs@[k] != '#',
            -1 <= first_hash(cs@) < cs@.len(),
            first_hash(cs@) >= 0 ==> cs@[first_hash(cs@)] == '#',
            forall|k: int|
                0 <= k < cs@.len() && (first_hash(cs@) < 0 || k < first_hash(cs@)) ==> cs@[k]
                    != '#',
        decreases cs.len() - i,
    {
        if cs[i] == '#' {
            return Some(i);
        }
        i += 1;
    }
    None
}

/// Splits a conversation key into its node id and thread. The network uses
/// the node id (connection and ratchet); the database the whole key.
pub fn split_convo(convo: &str) -> (r: (String, String))
    ensures
        (r.0@, r.1@) == split_key(convo@),
{
    let cs = chars_of(convo);
    match first_hash_of(&cs) {
        Some(k) => {
            let node = string_of(&cs, 0, k);
            let thread = string_of(&cs, k + 1, cs.len());
            assert(cs@.subrange(0, k as int) =~= convo@.take(k as int));
            assert(cs@.subrange(k + 1, cs.len() as int) =~= convo@.skip(k + 1));
            (node, thread)
        },
        None => (owned(convo), String::new()),
    }
}

/// The key both sides build from a node id and the thread of an envelope.
pub fn convo_key(node: &str, thread: &str) -> (r: String)
    ensures
        r@ == join_key(node@, thread@),
{
    if thread.is_empty() {
        owned(node)
    } else {
        let mut s = owned(node);
        push_str(&mut s, "#");
        push_str(&mut s, thread);
        s
    }
}

/// A node id without `#` and a thread make a key that splits back into them.
pub proof fn lemma_key_roundtrip(node: Seq<char>, thread: Seq<char>)
    requires
        forall|k: int| 0 <= k < node.len() ==> node[k] != '#',
    ensures
        split_key(join_key(node, thread)) == (node, thread),
{
    reveal_strlit("#");
    let key = join_key(node, thread);
    lemma_first_hash(key);
    if thread.len() == 0 {
        assert(first_hash(key) < 0);
    } else {
        assert(key[node.len() as int] == '#');
        assert(first_hash(key) == node.len()) by {
            if first_hash(key) < 0 {
            } else if first_hash(key) < node.len() {
                assert(key[first_hash(key)] == node[first_hash(key)]);
            }
        }
        assert(key.take(node.len() as int) =~= node);
        assert(key.skip(node.len() as int + 1) =~= thread);
    }
}

/// Splitting a key and joining the parts gives the key back, unless it ends
/// in a `#` with nothing after it.
pub proof fn lemma_split_join(convo: Seq<char>)
    requires
        !(convo.len() > 0 && convo.last() == '#' && first_hash(convo) == convo.len() - 1),
    ensures
        join_key(split_key(convo).0, split_key(convo).1) == convo,
{
    reveal_strlit("#");
    lemma_first_hash(convo);
    let k = first_hash(convo);
    if k >= 0 {
        let (n, t) = split_key(convo);
        assert(n == convo.take(k));
        assert(t == convo.skip(k + 1));
        if t.len() == 0 {
            assert(k == convo.len() - 1);
        } else {
            assert(join_key(n, t) == n + "#"@ + t);
            assert(n + "#"@ + t =~= convo);
        }
    }
}

// ---------------------------------------------------------------------------
// frames on the wire: a 4-byte big-endian length, then the data
// ---------------------------------------------------------------------------

/// The largest frame accepted (4 MiB): a header is small, a chunk is about
/// 1 MiB compressed and sealed.
pub const MAX_FRAME: usize = 4194304;

/// Raw file bytes per chunk (1 MiB).
pub const CHUNK: u64 = 1048576;

/// The big-endian bytes of a 32-bit value.
pub open spec fn be32(n: int) -> Seq<u8> {
    seq![
        ((n / 16777216) % 256) as u8,
        ((n / 65536) % 256) as u8,
        ((n / 256) % 256) as u8,
        (n % 256) as u8,
    ]
}

/// The value of four big-endian bytes.
pub open spec fn be32_value(b: Seq<u8>) -> int {
    b[0] * 16777216 + b[1] * 65536 + b[2] * 256 + b[3]
}

/// The length prefix of a frame of `len` bytes (`(len as u32).to_be_bytes()`:
/// a length past 32 bits is cut to its low 32 bits).
pub fn frame_header(len: usize) -> (r: [u8; 4])
    ensures
        r@ == be32(len as int % 4294967296),
{
    let n: u64 = (len as u64) % 4294967296;
    let r = [
        ((n / 16777216) % 256) as u8,
        ((n / 65536) % 256) as u8,
        ((n / 256) % 256) as u8,
        (n % 256) as u8,
    ];
    assert(r@ =~= be32(len as int % 4294967296));
    r
}

pub open spec fn frame_too_big_msg() -> Seq<char> {
    "frame grande demais"@
}

/// The length a frame's prefix announces; a frame over 4 MiB is refused.
pub fn frame_len(header: [u8; 4]) -> (r: Result<usize, String>)
    ensures
        be32_value(header@) <= MAX_FRAME ==> r == Ok::<usize, String>(be32_value(header@) as usize),
        be32_value(header@) > MAX_FRAME ==> (r matches Err(e) && e@ == frame_too_big_msg()),
{
    let n: u64 = (header[0] as u64) * 16777216 + (header[1] as u64) * 65536 + (header[2] as u64)
        * 256 + (header[3] as u64);
    if n > 4194304 {
        return Err(owned("frame grande demais"));
    }
    Ok(n as usize)
}

/// A frame's length reads back from its prefix, for every length a frame may have.
pub proof fn lemma_frame_len_roundtrip(len: int)
    requires
        0 <= len <= MAX_FRAME,
    ensures
        be32_value(be32(len % 4294967296)) == len,
{
    let b = be32(len % 4294967296);
    assert(len % 4294967296 == len);
    assert(b[0] == 0);
    assert(b[1] == (len / 65536) % 256);
    assert(b[2] == (len / 256) % 256);
    assert(b[3] == len % 256);
    assert(len == (len / 65536) * 65536 + ((len / 256) % 256) * 256 + len % 256) by (nonlinear_arith)
        requires
            0 <= len <= 4194304,
    {
        assert(len == (len / 256) * 256 + len % 256);
        assert(len / 256 == (len / 65536) * 256 + (len / 256) % 256);
    }
    assert((len / 65536) % 256 == len / 65536);
}

// ---------------------------------------------------------------------------
// resuming a transfer
// ---------------------------------------------------------------------------

/// Where the receiver resumes a transfer of `size` bytes of which `have`
/// bytes are in the partial file: at a chunk boundary, never past what it
/// holds nor past the file's end.
pub open spec fn resume_chunk_of(have: u64, size: u64) -> u64 {
    if (have / CHUNK) * CHUNK > size {
        (size / CHUNK) as u64
    } else {
        (have / CHUNK) as u64
    }
}

/// A partial file no longer than the file resumes at its last whole chunk:
/// the bytes kept are the largest multiple of `CHUNK` not above what is held,
/// so every kept byte is held and less than one chunk of it is fetched again.
pub proof fn lemma_resume_at_last_whole_chunk(have: u64, size: u64)
    requires
        have <= size,
    ensures
        resume_chunk_of(have, size) * CHUNK <= have,
        have < (resume_chunk_of(have, size) + 1) * CHUNK,
{
    let c = have / CHUNK;
    assert(c * CHUNK <= have && have < (c + 1) * CHUNK) by (nonlinear_arith)
        requires
            c == have / 1048576,
            CHUNK == 1048576,
    ;
}

/// The chunk to resume from and the bytes of the partial file that stay.
pub fn resume_point(have: u64, size: u64) -> (r: (u64, u64))
    ensures
        r.0 == resume_chunk_of(have, size),
        r.1 == r.0 * CHUNK,
        r.1 <= have,
        r.1 <= size || r.1 == 0,
        r.1 % CHUNK == 0,
{
    let mut from: u64 = have / 1048576;
    if from * 1048576 > size {
        from = size / 1048576;
    }
    let bytes: u64 = from * 1048576;
    assert(bytes % 1048576 == 0) by (nonlinear_arith)
        requires
            bytes == from * 1048576,
    ;
    (from, bytes)
}

// ---------------------------------------------------------------------------
// the network log
// ---------------------------------------------------------------------------

/// Lines the log keeps (the most recent ones).
pub const LOG_CAP: usize = 200;

/// The clock of the log: `hh:mm:ss` of the seconds since the epoch (UTC).
pub open spec fn clock_text(secs: u64) -> Seq<char> {
    decimal_padded(((secs / 3600) % 24) as nat, 2) + ":"@ + decimal_padded(((secs / 60) % 60) as nat, 2)
        + ":"@ + decimal_padded((secs % 60) as nat, 2)
}

/// `hh:mm:ss` of a time in seconds since the epoch.
pub fn now_hms(secs: u64) -> (r: String)
    ensures
        r@ == clock_text(secs),
{
    let mut s = decimal_padded_string((secs / 3600) % 24, 2);
    push_str(&mut s, ":");
    push_str(&mut s, decimal_padded_string((secs / 60) % 60, 2).as_str());
    push_str(&mut s, ":");
    push_str(&mut s, decimal_padded_string(secs % 60, 2).as_str());
    s
}

/// The line a log entry keeps: the clock, a space, the event.
pub fn log_entry(secs: u64, line: &str) -> (r: String)
    ensures
        r@ == clock_text(secs) + " "@ + line@,
{
    let mut s = now_hms(secs);
    push_str(&mut s, " ");
    push_str(&mut s, line);
    s
}

/// The log after one more line: only the most recent `LOG_CAP` lines stay.
pub open spec fn log_after(log: Seq<Seq<char>>, line: Seq<char>) -> Seq<Seq<char>> {
    let all = log.push(line);
    if all.len() > LOG_CAP {
        all.skip(all.len() - LOG_CAP)
    } else {
        all
    }
}

/// Adds a line to the network log, dropping the oldest beyond `LOG_CAP`.
pub fn push_log(log: &mut Vec<String>, line: String)
    ensures
        texts(final(log)@) == log_after(texts(old(log)@), line@),
{
    let ghost lv = line@;
    log.push(line);
    assert(texts(log@) =~= texts(old(log)@).push(lv));
    let len: usize = log.len();
    if len > 200 {
        let excess: usize = len - 200;
        let mut kept: Vec<String> = Vec::new();
        let mut i: usize = excess;
        while i < len
            invariant
                excess <= i <= len,
                len == log@.len(),
                texts(kept@) == texts(log@).subrange(excess as int, i as int),
            decreases len - i,
        {
            let ghost before = kept@;
            let x = log[i].clone();
            assert(x@ == log@[i as int]@);
            kept.push(x);
            assert(texts(kept@) =~= texts(before).push(log@[i as int]@));
            assert(texts(kept@) =~= texts(log@).subrange(excess as int, i + 1));
            i += 1;
        }
        assert(texts(log@).subrange(excess as int, len as int) =~= texts(log@).skip(
            excess as int,
        ));
        *log = kept;
    }
}

/// The recent network log, oldest first (for the diagnostics panel).
pub fn log_lines(log: &Vec<String>) -> (r: Vec<String>)
    ensures
        texts(r@) == texts(log@),
{
    let mut out: Vec<String> = Vec::new();
    let mut i: usize = 0;
    while i < log.len()
        invariant
            i <= log.len(),
            texts(out@) == texts(log@).take(i as int),
        decreases log.len() - i,
    {
        let ghost before = out@;
        let x = log[i].clone();
        assert(x@ == log@[i as int]@);
        out.push(x);
        assert(texts(out@) =~= texts(before).push(log@[i as int]@));
        assert(texts(out@) =~= texts(log@).take(i + 1));
        i += 1;
    }
    assert(texts(log@).take(log.len() as int) =~= texts(log@));
    out
}

/// The log never holds more than `LOG_CAP` lines, and the newest line is
/// always its last.
pub proof fn lemma_log_bounded(log: Seq<Seq<char>>, line: Seq<char>)
    requires
        log.len() <= LOG_CAP,
    ensures
        log_after(log, line).len() <= LOG_CAP,
        log_after(log, line).last() == line,
{
}

/// The log after a run of reports, from an empty one: each report pushes
/// its line (`push_log` of its `log_entry`).
pub open spec fn log_of_run(lines: Seq<Seq<char>>) -> Seq<Seq<char>>
    decreases lines.len(),
{
    if lines.len() == 0 {
        Seq::empty()
    } else {
        log_after(log_of_run(lines.drop_last()), lines.last())
    }
}

/// After any run of reports the log holds exactly the last `LOG_CAP` lines
/// (all of them while there are fewer), oldest first; after none it is empty.
pub proof fn lemma_log_keeps_last_lines(lines: Seq<Seq<char>>)
    ensures
        log_of_run(lines) == (if lines.len() > LOG_CAP {
            lines.skip(lines.len() - LOG_CAP)
        } else {
            lines
        }),
    decreases lines.len(),
{
    if lines.len() > 0 {
        let d = lines.drop_last();
        lemma_log_keeps_last_lines(d);
        if d.len() > LOG_CAP {
            assert(d.skip(d.len() - LOG_CAP).push(lines.last()).skip(1) =~= lines.skip(
                lines.len() - LOG_CAP,
            ));
        } else if d.len() == LOG_CAP {
            assert(d.push(lines.last()).skip(1) =~= lines.skip(lines.len() - LOG_CAP));
        } else {
            assert(d.push(lines.last()) =~= lines);
        }
    }
}

// ---------------------------------------------------------------------------
// what arrives
// ---------------------------------------------------------------------------

/// The first frame of a stream, by its `t` field.
#[derive(Debug, Clone, Copy, PartialEq, Eq)]
pub enum FrameKind {
    /// A liveness ping: answered at once, without the ratchet.
    Ping,
    /// A new peer asks for a pre-key bundle before its first message.
    PrekeyRequest,
    /// A message over an established session.
    Message,
    /// Anything else: refused.
    Unknown,
}

pub open spec fn frame_kind_of(t: Option<Seq<char>>) -> FrameKind {
    match t {
        Some(s) => if s == "ping"@ {
            FrameKind::Ping
        } else if s == "req_prekey"@ {
            FrameKind::PrekeyRequest
        } else if s == "msg"@ {
            FrameKind::Message
        } else {
            FrameKind::Unknown
        },
        None => FrameKind::Unknown,
    }
}

/// What the first frame of a stream asks for.
pub fn frame_kind(t: Option<&str>) -> (r: FrameKind)
    ensures
        r == frame_kind_of(match t {
            Some(s) => Some(s@),
            None => None,
        }),
{
    match t {
        Some(s) => {
            if crate::text::str_eq(s, "ping") {
                FrameKind::Ping
            } else if crate::text::str_eq(s, "req_prekey") {
                FrameKind::PrekeyRequest
            } else if crate::text::str_eq(s, "msg") {
                FrameKind::Message
            } else {
                FrameKind::Unknown
            }
        },
        None => FrameKind::Unknown,
    }
}

/// The content of a decrypted envelope, by its `k` field.
#[derive(Debug, Clone, Copy, PartialEq, Eq)]
pub enum ContentKind {
    Text,
    File,
    Read,
    Keyword,
    Profile,
    Unknown,
}

pub open spec fn content_kind_of(k: Option<Seq<char>>) -> ContentKind {
    match k {
        Some(s) => if s == "text"@ {
            ContentKind::Text
        } else if s == "file"@ {
            ContentKind::File
        } else if s == "read"@ {
            ContentKind::Read
        } else if s == "keyword"@ {
            ContentKind::Keyword
        } else if s == "profile"@ {
            ContentKind::Profile
        } else {
            ContentKind::Unknown
        },
        None => ContentKind::Unknown,
    }
}

/// What a decrypted envelope carries.
pub fn content_kind(k: Option<&str>) -> (r: ContentKind)
    ensures
        r == content_kind_of(match k {
            Some(s) => Some(s@),
            None => None,
        }),
{
    match k {
        Some(s) => {
            if crate::text::str_eq(s, "text") {
                ContentKind::Text
            } else if crate::text::str_eq(s, "file") {
                ContentKind::File
            } else if crate::text::str_eq(s, "read") {
                ContentKind::Read
            } else if crate::text::str_eq(s, "keyword") {
                ContentKind::Keyword
            } else if crate::text::str_eq(s, "profile") {
                ContentKind::Profile
            } else {
                ContentKind::Unknown
            }
        },
        None => ContentKind::Unknown,
    }
}

/// The notification preview of an incoming text: its first 120 characters.
pub fn text_preview(body: &str) -> (r: String)
    ensures
        r@ == take_chars(body@, 120),
{
    first_chars(body, 120)
}

/// The notification preview of an incoming file: a sticker says so, any
/// other file shows its name.
pub fn file_preview(filename: &str, sticker: bool) -> (r: String)
    ensures
        r@ == (if sticker {
            "🎨 sticker"@
        } else {
            "📎 "@ + filename@
        }),
{
    if sticker {
        owned("🎨 sticker")
    } else {
        let mut s = owned("📎 ");
        push_str(&mut s, filename);
        s
    }
}

/// Is the network up? It is once the endpoint has been bound.
pub fn is_up<E>(endpoint: &Option<E>) -> (r: bool)
    ensures
        r == endpoint is Some,
{
    endpoint.is_some()
}

/// Records a peer's presence and says whether the UI must hear of it: only
/// a change is announced (the first status always is).
pub fn presence_change(last: &mut Option<bool>, online: bool) -> (r: bool)
    ensures
        r == (*old(last) != Some(online)),
        *final(last) == Some(online),
{
    let changed = match *last {
        Some(was) => was != online,
        None => true,
    };
    *last = Some(online);
    changed
}

// ---------------------------------------------------------------------------
// the outbox
// ---------------------------------------------------------------------------

/// What became of one queued message on a resend attempt.
#[derive(Debug, Clone, Copy, PartialEq, Eq)]
pub enum SendOutcome {
    /// The peer acknowledged it.
    Delivered,
    /// It could not be sent now (the peer is still away).
    NotSent,
    /// It can never be sent again (its metadata or local copy is gone).
    Unsendable,
}

/// What the resend loop does next.
#[derive(Debug, Clone, Copy, PartialEq, Eq)]
pub enum ResendAction {
    /// Mark the message delivered and go on with the next one.
    MarkDelivered,
    /// Mark the message failed and go on with the next one.
    MarkFailed,
    /// Stop here: the peer is away, and trying the rest would only time out.
    Stop,
}

/// One step of the resend loop: from the count sent so far and what became
/// of the current message, the new count and what to do.
pub fn resend_step(sent: u32, outcome: SendOutcome) -> (r: (u32, ResendAction))
    requires
        outcome == SendOutcome::Delivered ==> sent < u32::MAX,
    ensures
        r == (match outcome {
            SendOutcome::Delivered => ((sent + 1) as u32, ResendAction::MarkDelivered),
            SendOutcome::NotSent => (sent, ResendAction::Stop),
            SendOutcome::Unsendable => (sent, ResendAction::MarkFailed),
        }),
{
    match outcome {
        SendOutcome::Delivered => (sent + 1, ResendAction::MarkDelivered),
        SendOutcome::NotSent => (sent, ResendAction::Stop),
        SendOutcome::Unsendable => (sent, ResendAction::MarkFailed),
    }
}

/// How many messages a resend run delivers: those delivered before the
/// first one that could not be sent.
pub open spec fn delivered_before_stop(outcomes: Seq<SendOutcome>) -> nat
    decreases outcomes.len(),
{
    if outcomes.len() == 0 {
        0
    } else if outcomes[0] == SendOutcome::NotSent {
        0
    } else {
        delivered_before_stop(outcomes.drop_first()) + if outcomes[0]
            == SendOutcome::Delivered {
            1nat
        } else {
            0nat
        }
    }
}

/// The count of a resend run after taking the outcomes in order until the
/// loop stops.
pub open spec fn run_count(sent: nat, outcomes: Seq<SendOutcome>) -> nat
    decreases outcomes.len(),
{
    if outcomes.len() == 0 {
        sent
    } else {
        match outcomes[0] {
            SendOutcome::NotSent => sent,
            SendOutcome::Delivered => run_count(sent + 1, outcomes.drop_first()),
            SendOutcome::Unsendable => run_count(sent, outcomes.drop_first()),
        }
    }
}

/// A resend run that follows `resend_step` from zero counts exactly the
/// messages delivered before the first one that could not be sent; the
/// messages after it are left queued.
pub proof fn lemma_resend_counts_delivered(outcomes: Seq<SendOutcome>, sent: nat)
    ensures
        run_count(sent, outcomes) == sent + delivered_before_stop(outcomes),
    decreases outcomes.len(),
{
    if outcomes.len() > 0 && outcomes[0] != SendOutcome::NotSent {
        if outcomes[0] == SendOutcome::Delivered {
            lemma_resend_counts_delivered(outcomes.drop_first(), sent + 1);
        } else {
            lemma_resend_counts_delivered(outcomes.drop_first(), sent);
        }
    }
}

} // verus!
