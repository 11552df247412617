//! The local history's records and what is computed from the rows the
//! database hands back: bodies are stored encrypted at rest and decrypted
//! here; previews, searches, the audit digest and display names are derived
//! here. The SQL that reads and writes the rows lives outside this library.

use vstd::prelude::*;
use vstd::utf8::*;
use vstd::string::StringSliceAdditionalSpecFns;
use crate::crypto::{decrypt, encrypt, hash_hex, is_sealed, opened, seal_fits, sha256};
use crate::identity::hex_text;
use crate::json::{json_field, json_field_of, json_str, json_u64, opt_text, str_field, u64_field};
use crate::order::{lemma_is_sort_by, lemma_lex_total_ordering, lex_order, sort_strings, texts};
use crate::text::{
    bytes_of, contains_str, decimal, decimal_string, first_chars, has_substring,
    lemma_lossy_of_encoded, lossy, lower, owned, push_str, signed_decimal,
    signed_decimal_string, str_eq, take_chars, text_from_bytes, to_lower, trim, trim_str,
};

verus! {

broadcast use vstd::seq_lib::group_seq_properties;

// ---------------------------------------------------------------------------
// records
// ---------------------------------------------------------------------------

pub struct Contact {
    pub node_id: String,
    pub nickname: String,
    pub added_ts: i64,
    pub profile_name: Option<String>,
    pub avatar: Option<String>,
    pub muted: bool,
    pub phone: Option<String>,
    pub email: Option<String>,
    pub birthday: Option<String>,
    pub notes: Option<String>,
}

pub struct Message {
    pub id: i64,
    pub peer: String,
    pub direction: String,
    pub kind: String,
    pub body: String,
    pub ts: i64,
    pub state: String,
    pub reply_to: Option<i64>,
    pub reply_preview: Option<String>,
    pub deleted: bool,
}

pub struct SearchHit {
    pub convo: String,
    pub snippet: String,
    pub ts: i64,
}

pub struct Thread {
    pub convo: String,
    pub name: String,
}

pub struct Unread {
    pub convo: String,
    pub n: i64,
}

pub struct Reaction {
    pub target_ts: i64,
    pub mine: bool,
    pub emoji: String,
}

pub struct AuditResult {
    pub count: usize,
    pub digest: String,
}

pub struct ConvoSummary {
    pub peer: String,
    pub kind: String,
    pub body: String,
    pub ts: i64,
    pub direction: String,
    pub deleted: bool,
}

/// A row of `messages` as the database gives it (body still encrypted).
pub struct MessageRow {
    pub id: i64,
    pub peer: String,
    pub direction: String,
    pub kind: String,
    pub body: Vec<u8>,
    pub ts: i64,
    pub state: String,
    pub reply_to: Option<i64>,
    pub reply_preview: Option<String>,
    pub deleted: i64,
}

// ---------------------------------------------------------------------------
// bodies at rest
// ---------------------------------------------------------------------------

pub open spec fn key_view(key: Option<[u8; 32]>) -> Option<Seq<u8>> {
    match key {
        Some(k) => Some(k@),
        None => None,
    }
}

pub open spec fn missing_key_msg() -> Seq<char> {
    "chave de cifra ausente (banco não inicializado)"@
}

/// The marker shown for a body that does not decrypt.
pub open spec fn unreadable_marker() -> Seq<char> {
    "⟨mensagem ilegível⟩"@
}

/// The key, or why there is none: the database was not initialised.
pub fn key_of(key: Option<[u8; 32]>) -> (r: Result<[u8; 32], String>)
    ensures
        match key {
            Some(k) => r == Ok::<[u8; 32], String>(k),
            None => r matches Err(e) && e@ == missing_key_msg(),
        },
{
    match key {
        Some(k) => Ok(k),
        None => Err(owned("chave de cifra ausente (banco não inicializado)")),
    }
}

/// Encrypts a text for storage.
pub fn enc_text(key: Option<[u8; 32]>, plaintext: &str) -> (r: Result<Vec<u8>, String>)
    ensures
        key is None ==> (r matches Err(e) && e@ == missing_key_msg()),
        key matches Some(k) ==> (r is Ok <==> seal_fits(encode_utf8(plaintext@).len())),
        key matches Some(k) ==> (r matches Ok(b) ==> is_sealed(k@, encode_utf8(plaintext@), b@)),
{
    let k = key_of(key)?;
    let b = bytes_of(plaintext);
    encrypt(&k, b.as_slice())
}

/// The text a stored body shows: decrypted and decoded, or the unreadable
/// marker when there is no key or the blob does not open.
pub open spec fn text_of_blob(key: Option<Seq<u8>>, blob: Seq<u8>) -> Seq<char> {
    match key {
        None => unreadable_marker(),
        Some(k) => match opened(k, blob) {
            Ok(p) => lossy(p),
            Err(_) => unreadable_marker(),
        },
    }
}

/// Decrypts a stored body; a body that does not decrypt shows a marker
/// instead of breaking the UI. A body stored by `enc_text` under the same key
/// reads back as the text that was stored.
pub fn dec_text(key: Option<[u8; 32]>, blob: &[u8]) -> (r: String)
    ensures
        r@ == text_of_blob(key_view(key), blob@),
        forall|s: Seq<char>|
            key is Some && #[trigger] is_sealed(key->Some_0@, encode_utf8(s), blob@) ==> r@ == s,
{
    match key {
        None => owned("⟨mensagem ilegível⟩"),
        Some(k) => {
            let r = decrypt(&k, blob);
            proof {
                assert forall|s: Seq<char>| #[trigger] is_sealed(k@, encode_utf8(s), blob@) implies lossy(
                    encode_utf8(s),
                ) == s by {
                    lemma_lossy_of_encoded(s);
                }
            }
            match r {
                Ok(p) => text_from_bytes(p.as_slice()),
                Err(_) => owned("⟨mensagem ilegível⟩"),
            }
        },
    }
}

/// A message row as the UI sees it: the body decrypted, or empty when the
/// message was deleted for everyone.
pub open spec fn shows_row(m: Message, row: MessageRow, key: Option<Seq<u8>>) -> bool {
    &&& m.id == row.id
    &&& m.peer@ == row.peer@
    &&& m.direction@ == row.direction@
    &&& m.kind@ == row.kind@
    &&& m.body@ == (if row.deleted != 0 {
        Seq::empty()
    } else {
        text_of_blob(key, row.body@)
    })
    &&& m.ts == row.ts
    &&& m.state@ == row.state@
    &&& m.reply_to == row.reply_to
    &&& opt_text(m.reply_preview) == opt_text(row.reply_preview)
    &&& m.deleted == (row.deleted != 0)
}

/// The message of one row.
pub fn message_from_row(row: MessageRow, key: Option<[u8; 32]>) -> (r: Message)
    ensures
        shows_row(r, row, key_view(key)),
{
    let deleted = row.deleted != 0;
    let body = if deleted {
        String::new()
    } else {
        dec_text(key, row.body.as_slice())
    };
    Message {
        id: row.id,
        peer: row.peer,
        direction: row.direction,
        kind: row.kind,
        body,
        ts: row.ts,
        state: row.state,
        reply_to: row.reply_to,
        reply_preview: row.reply_preview,
        deleted,
    }
}

/// The page size asked for, 300 by default, kept within 1..=100000.
pub open spec fn page_limit_of(limit: Option<i64>) -> i64 {
    let l = match limit {
        Some(l) => l,
        None => 300,
    };
    if l < 1 {
        1
    } else if l > 100_000 {
        100_000
    } else {
        l
    }
}

/// How many messages a page holds.
pub fn page_limit(limit: Option<i64>) -> (r: i64)
    ensures
        r == page_limit_of(limit),
{
    let l = match limit {
        Some(l) => l,
        None => 300,
    };
    if l < 1 {
        1
    } else if l > 100_000 {
        100_000
    } else {
        l
    }
}

/// The id a page ends before: the given one, or past every message.
pub fn page_before(before_id: Option<i64>) -> (r: i64)
    ensures
        r == (match before_id {
            Some(b) => b,
            None => i64::MAX,
        }),
{
    match before_id {
        Some(b) => b,
        None => i64::MAX,
    }
}

/// A page of messages. The rows come newest first (by id, the order things
/// happened on this device); the page is returned oldest first.
pub fn messages_from_rows(rows: Vec<MessageRow>, key: Option<[u8; 32]>) -> (r: Vec<Message>)
    ensures
        r@.len() == rows@.len(),
        forall|i: int|
            0 <= i < r@.len() ==> shows_row(
                #[trigger] r@[i],
                rows@[rows@.len() - 1 - i],
                key_view(key),
            ),
{
    let ghost orig = rows@;
    let mut rows = rows;
    let mut out: Vec<Message> = Vec::new();
    while rows.len() > 0
        invariant
            rows@ == orig.take(rows@.len() as int),
            rows@.len() <= orig.len(),
            out@.len() == orig.len() - rows@.len(),
            forall|i: int|
                0 <= i < out@.len() ==> shows_row(
                    #[trigger] out@[i],
                    orig[orig.len() - 1 - i],
                    key_view(key),
                ),
        decreases rows@.len(),
    {
        let row = rows.pop().unwrap();
        let m = message_from_row(row, key);
        out.push(m);
    }
    out
}

// ---------------------------------------------------------------------------
// search
// ---------------------------------------------------------------------------

/// A text message row considered by the search (newest first).
pub struct SearchRow {
    pub convo: String,
    pub body: Vec<u8>,
    pub ts: i64,
}

pub open spec fn search_row_view(r: SearchRow) -> (Seq<char>, Seq<u8>, i64) {
    (r.convo@, r.body@, r.ts)
}

pub open spec fn search_rows_view(rows: Seq<SearchRow>) -> Seq<(Seq<char>, Seq<u8>, i64)> {
    rows.map_values(|r: SearchRow| search_row_view(r))
}

pub open spec fn hit_view(h: SearchHit) -> (Seq<char>, Seq<char>, i64) {
    (h.convo@, h.snippet@, h.ts)
}

/// The query as it is matched: trimmed and lower-cased.
pub open spec fn search_query(query: Seq<char>) -> Seq<char> {
    lower(trim(query))
}

/// The row's text holds the query, ignoring case.
pub open spec fn row_matches(
    row: (Seq<char>, Seq<u8>, i64),
    key: Option<Seq<u8>>,
    q: Seq<char>,
) -> bool {
    has_substring(lower(text_of_blob(key, row.1)), q)
}

/// The hit a matching row gives: its conversation, the first 100 characters
/// of its text and its time.
pub open spec fn hit_of(row: (Seq<char>, Seq<u8>, i64), key: Option<Seq<u8>>) -> (
    Seq<char>,
    Seq<char>,
    i64,
) {
    (row.0, take_chars(text_of_blob(key, row.1), 100), row.2)
}

/// The number of hits asked for, kept within 1..=200.
pub open spec fn hit_limit(limit: i64) -> int {
    if limit < 1 {
        1
    } else if limit > 200 {
        200
    } else {
        limit as int
    }
}

/// The hits of a search: the first matching rows, in the rows' order, at most
/// `hit_limit(limit)` of them; no hit at all for a blank query.
pub open spec fn search_result(
    rows: Seq<(Seq<char>, Seq<u8>, i64)>,
    key: Option<Seq<u8>>,
    query: Seq<char>,
    limit: i64,
) -> Seq<(Seq<char>, Seq<char>, i64)> {
    let q = search_query(query);
    if q.len() == 0 {
        Seq::empty()
    } else {
        let m = rows.filter(|r: (Seq<char>, Seq<u8>, i64)| row_matches(r, key, q));
        let n = if m.len() < hit_limit(limit) {
            m.len() as int
        } else {
            hit_limit(limit)
        };
        m.take(n).map_values(|r: (Seq<char>, Seq<u8>, i64)| hit_of(r, key))
    }
}

proof fn lemma_filter_prefix<A>(s: Seq<A>, i: int, pred: spec_fn(A) -> bool)
    requires
        0 <= i <= s.len(),
    ensures
        s.filter(pred).take(s.take(i).filter(pred).len() as int) == s.take(i).filter(pred),
        s.take(i).filter(pred).len() <= s.filter(pred).len(),
{
    assert(s =~= s.take(i) + s.skip(i));
    Seq::filter_distributes_over_add(s.take(i), s.skip(i), pred);
    assert(s.filter(pred).take(s.take(i).filter(pred).len() as int) =~= s.take(i).filter(pred));
}

/// Searches the text of the given rows for `query`, newest first, stopping at
/// `limit` hits (kept within 1..=200).
pub fn search_hits(rows: Vec<SearchRow>, key: Option<[u8; 32]>, query: &str, limit: i64) -> (r:
    Vec<SearchHit>)
    ensures
        r@.map_values(|h: SearchHit| hit_view(h)) == search_result(
            search_rows_view(rows@),
            key_view(key),
            query@,
            limit,
        ),
{
    let q = to_lower(trim_str(query).as_str());
    let ghost rv = search_rows_view(rows@);
    let ghost kv = key_view(key);
    let ghost pred = |r: (Seq<char>, Seq<u8>, i64)| row_matches(r, kv, q@);
    let ghost to_hit = |r: (Seq<char>, Seq<u8>, i64)| hit_of(r, kv);
    if q.as_str().is_empty() {
        let e: Vec<SearchHit> = Vec::new();
        assert(e@.map_values(|h: SearchHit| hit_view(h)) =~= Seq::<(Seq<char>, Seq<char>, i64)>::empty());
        return e;
    }
    let lim: usize = if limit < 1 {
        1
    } else if limit > 200 {
        200
    } else {
        limit as usize
    };
    let mut hits: Vec<SearchHit> = Vec::new();
    let mut i: usize = 0;
    while i < rows.len()
        invariant
            rv == search_rows_view(rows@),
            kv == key_view(key),
            q@ == search_query(query@),
            pred == (|r: (Seq<char>, Seq<u8>, i64)| row_matches(r, kv, q@)),
            to_hit == (|r: (Seq<char>, Seq<u8>, i64)| hit_of(r, kv)),
            lim == hit_limit(limit),
            q@.len() > 0,
            i <= rows.len(),
            hits@.len() < lim,
            hits@.map_values(|h: SearchHit| hit_view(h)) == rv.take(i as int).filter(
                pred,
            ).map_values(to_hit),
        decreases rows.len() - i,
    {
        let row = &rows[i];
        let text = dec_text(key, row.body.as_slice());
        let low = to_lower(text.as_str());
        let hit = contains_str(low.as_str(), q.as_str());
        let ghost prev = rv.take(i as int).filter(pred);
        proof {
            assert(rv.take(i + 1) =~= rv.take(i as int).push(rv[i as int]));
            crate::order::lemma_filter_push(rv.take(i as int), rv[i as int], pred);
        }
        if hit {
            let snippet = first_chars(text.as_str(), 100);
            hits.push(SearchHit { convo: row.convo.clone(), snippet, ts: row.ts });
            proof {
                assert(hits@.map_values(|h: SearchHit| hit_view(h)) =~= prev.map_values(
                    to_hit,
                ).push(hit_of(rv[i as int], kv)));
                assert(prev.push(rv[i as int]).map_values(to_hit) =~= prev.map_values(to_hit).push(
                    hit_of(rv[i as int], kv),
                ));
            }
            if hits.len() >= lim {
                proof {
                    lemma_filter_prefix(rv, i + 1, pred);
                    let m = rv.filter(pred);
                    assert(m.take(lim as int) == rv.take(i + 1).filter(pred));
                    assert(pred =~= (|r: (Seq<char>, Seq<u8>, i64)| row_matches(r, key_view(key), search_query(query@))));
                    assert(to_hit =~= (|r: (Seq<char>, Seq<u8>, i64)| hit_of(r, key_view(key))));
                    assert(m.take(lim as int).map_values(to_hit) == hits@.map_values(|h: SearchHit| hit_view(h)));
                    assert(rv.take(i + 1).filter(pred).len() == lim);
                    assert(m.len() >= lim);
                    assert(search_query(query@).len() > 0);
                    let sm = rv.filter(|r: (Seq<char>, Seq<u8>, i64)| row_matches(r, key_view(key), search_query(query@)));
                    assert(sm == m);
                    assert(search_result(rv, key_view(key), query@, limit) == sm.take(lim as int).map_values(|r: (Seq<char>, Seq<u8>, i64)| hit_of(r, key_view(key))));
                }
                return hits;
            }
        }
        i += 1;
    }
    proof {
        assert(rv.take(rows.len() as int) =~= rv);
        let m = rv.filter(pred);
        assert(m.take(m.len() as int) =~= m);
        assert(pred =~= (|r: (Seq<char>, Seq<u8>, i64)| row_matches(r, key_view(key), search_query(query@))));
        assert(to_hit =~= (|r: (Seq<char>, Seq<u8>, i64)| hit_of(r, key_view(key))));
    }
    hits
}

/// No row before `j` passes `pred`: the filtered rows then begin with row
/// `j` when it passes.
proof fn lemma_filter_first<A>(s: Seq<A>, j: int, pred: spec_fn(A) -> bool)
    requires
        0 <= j < s.len(),
        pred(s[j]),
        forall|k: int| 0 <= k < j ==> !pred(#[trigger] s[k]),
    ensures
        s.filter(pred).len() >= 1,
        s.filter(pred)[0] == s[j],
{
    let pre = s.take(j);
    let post = s.skip(j + 1);
    assert(s =~= pre + (seq![s[j]] + post));
    Seq::filter_distributes_over_add(pre, seq![s[j]] + post, pred);
    Seq::filter_distributes_over_add(seq![s[j]], post, pred);
    if pre.filter(pred).len() > 0 {
        let x = pre.filter(pred)[0];
        pre.lemma_filter_pred(pred, 0);
        assert(pre.filter(pred).contains(x));
        pre.lemma_filter_contains_rev(pred, x);
        let k = choose|k: int| 0 <= k < pre.len() && pre[k] == x;
        assert(s[k] == pre[k]);
    }
    crate::order::lemma_filter_push(Seq::<A>::empty(), s[j], pred);
    assert(Seq::<A>::empty().push(s[j]) =~= seq![s[j]]);
    assert(Seq::<A>::empty().filter(pred) =~= Seq::<A>::empty()) by {
        reveal(Seq::filter);
    }
}

/// Search finds the query anywhere in a text, ignoring case. When row `j` is
/// the first row whose lower-cased text holds the trimmed, lower-cased query
/// at some position `at` (at its start, in its middle or at its end), the
/// first hit is that row: its conversation, its time and the first
/// min(100, length) characters of its text.
pub proof fn lemma_search_finds_query_anywhere(
    rows: Seq<(Seq<char>, Seq<u8>, i64)>,
    key: Option<Seq<u8>>,
    query: Seq<char>,
    limit: i64,
    j: int,
    at: int,
)
    requires
        lower(trim(query)).len() > 0,
        0 <= j < rows.len(),
        0 <= at,
        at + lower(trim(query)).len() <= lower(text_of_blob(key, rows[j].1)).len(),
        lower(text_of_blob(key, rows[j].1)).subrange(at, at + lower(trim(query)).len()) == lower(
            trim(query),
        ),
        forall|k: int|
            0 <= k < j ==> !has_substring(
                lower(text_of_blob(key, #[trigger] rows[k].1)),
                lower(trim(query)),
            ),
    ensures
        search_result(rows, key, query, limit).len() >= 1,
        search_result(rows, key, query, limit)[0].0 == rows[j].0,
        search_result(rows, key, query, limit)[0].2 == rows[j].2,
        search_result(rows, key, query, limit)[0].1.is_prefix_of(text_of_blob(key, rows[j].1)),
        search_result(rows, key, query, limit)[0].1.len() == (if text_of_blob(key, rows[j].1).len()
            < 100 {
            text_of_blob(key, rows[j].1).len()
        } else {
            100
        }),
{
    let q = lower(trim(query));
    let t = lower(text_of_blob(key, rows[j].1));
    assert(t.subrange(at, at + q.len()) == q);
    assert(has_substring(t, q));
    let pred = |r: (Seq<char>, Seq<u8>, i64)| row_matches(r, key, q);
    assert forall|k: int| 0 <= k < j implies !pred(#[trigger] rows[k]) by {
        assert(!has_substring(lower(text_of_blob(key, rows[k].1)), q));
    }
    lemma_filter_first(rows, j, pred);
    let text = text_of_blob(key, rows[j].1);
    assert(take_chars(text, 100).is_prefix_of(text)) by {
        if text.len() > 100 {
            assert(text.take(100) =~= text.subrange(0, 100));
        } else {
            assert(text.subrange(0, text.len() as int) =~= text);
        }
    }
}

/// Every hit of a search comes from a row whose lower-cased text holds the
/// trimmed, lower-cased query somewhere: same conversation, same time.
pub proof fn lemma_search_hits_hold_query(
    rows: Seq<(Seq<char>, Seq<u8>, i64)>,
    key: Option<Seq<u8>>,
    query: Seq<char>,
    limit: i64,
    h: int,
)
    requires
        0 <= h < search_result(rows, key, query, limit).len(),
    ensures
        exists|j: int|
            0 <= j < rows.len() && (#[trigger] rows[j]).0 == search_result(rows, key, query, limit)[h].0
                && rows[j].2 == search_result(rows, key, query, limit)[h].2 && exists|at: int|
                0 <= at && at + lower(trim(query)).len() <= lower(text_of_blob(key, rows[j].1)).len()
                    && #[trigger] lower(text_of_blob(key, rows[j].1)).subrange(
                    at,
                    at + lower(trim(query)).len(),
                ) == lower(trim(query)),
{
    let q = lower(trim(query));
    let pred = |r: (Seq<char>, Seq<u8>, i64)| row_matches(r, key, q);
    let m = rows.filter(pred);
    assert(q.len() > 0);
    assert(h < m.len());
    let x = m[h];
    rows.lemma_filter_pred(pred, h);
    assert(m.contains(x));
    rows.lemma_filter_contains_rev(pred, x);
    let j = choose|j: int| 0 <= j < rows.len() && rows[j] == x;
    assert(row_matches(x, key, q));
    let t = lower(text_of_blob(key, x.1));
    let at = choose|i: int| 0 <= i <= t.len() - q.len() && #[trigger] t.subrange(i, i + q.len()) == q;
    assert(t.subrange(at, at + q.len()) == q);
}

// ---------------------------------------------------------------------------
// conversation previews
// ---------------------------------------------------------------------------

/// The last message of a conversation, as the database gives it.
pub struct SummaryRow {
    pub peer: String,
    pub kind: String,
    pub body: Vec<u8>,
    pub ts: i64,
    pub direction: String,
    pub deleted: i64,
}

/// The preview of a conversation's last message: empty when it was deleted
/// for everyone; `📎 <name>` for a file (`arquivo` when its name cannot be
/// read); the first 90 characters of a text.
pub open spec fn preview_of(kind: Seq<char>, deleted: bool, text: Seq<char>) -> Seq<char> {
    if deleted {
        Seq::empty()
    } else if kind == "file"@ {
        "📎 "@ + match json_str(text, "filename"@) {
            Some(n) => n,
            None => "arquivo"@,
        }
    } else {
        take_chars(text, 90)
    }
}

/// The preview of a message that is neither deleted nor a file is the start
/// of its text: its first min(90, length) characters.
pub proof fn lemma_text_preview_is_its_start(kind: Seq<char>, text: Seq<char>)
    requires
        kind != "file"@,
    ensures
        preview_of(kind, false, text).is_prefix_of(text),
        preview_of(kind, false, text).len() == (if text.len() < 90 {
            text.len()
        } else {
            90
        }),
{
    if text.len() > 90 {
        assert(text.take(90) =~= text.subrange(0, 90));
    } else {
        assert(text.subrange(0, text.len() as int) =~= text);
    }
}

/// The sidebar preview of a conversation.
pub fn summarize(row: SummaryRow, key: Option<[u8; 32]>) -> (r: ConvoSummary)
    ensures
        r.peer@ == row.peer@,
        r.kind@ == row.kind@,
        r.ts == row.ts,
        r.direction@ == row.direction@,
        r.deleted == (row.deleted != 0),
        r.body@ == preview_of(row.kind@, row.deleted != 0, text_of_blob(key_view(key), row.body@)),
{
    let del = row.deleted != 0;
    let body = if del {
        String::new()
    } else {
        let text = dec_text(key, row.body.as_slice());
        if str_eq(row.kind.as_str(), "file") {
            let name = match str_field(text.as_str(), "filename") {
                Some(n) => n,
                None => owned("arquivo"),
            };
            let mut s = owned("📎 ");
            push_str(&mut s, name.as_str());
            s
        } else {
            first_chars(text.as_str(), 90)
        }
    };
    ConvoSummary {
        peer: row.peer,
        kind: row.kind,
        body,
        ts: row.ts,
        direction: row.direction,
        deleted: del,
    }
}

// ---------------------------------------------------------------------------
// audit digest
// ---------------------------------------------------------------------------

/// A message row as the audit reads it.
pub struct AuditRow {
    pub direction: String,
    pub kind: String,
    pub body: Vec<u8>,
    pub ts: i64,
}

/// What the audit compares of a message's content: a text as it is; for a
/// file, its name and size only (the local path differs between devices);
/// empty when the file's metadata cannot be read.
pub open spec fn audit_payload(kind: Seq<char>, text: Seq<char>) -> Seq<char> {
    if kind == "file"@ {
        if json_field_of(text, "filename"@) is None {
            Seq::empty()
        } else {
            (match json_str(text, "filename"@) {
                Some(n) => n,
                None => Seq::empty(),
            }) + "|"@ + decimal(
                (match json_u64(text, "size"@) {
                    Some(n) => n,
                    None => 0,
                }) as nat,
            )
        }
    } else {
        text
    }
}

/// The normalised line of one message: author, time, kind and content,
/// separated by tabs. The author of an outgoing message is me, of any other
/// the peer.
pub open spec fn audit_line(
    direction: Seq<char>,
    kind: Seq<char>,
    text: Seq<char>,
    ts: i64,
    my_id: Seq<char>,
    peer_node: Seq<char>,
) -> Seq<char> {
    (if direction == "out"@ {
        my_id
    } else {
        peer_node
    }) + "\t"@ + signed_decimal(ts as int) + "\t"@ + kind + "\t"@ + audit_payload(kind, text)
}

/// Lines joined with newlines.
pub open spec fn join_lines(lines: Seq<Seq<char>>) -> Seq<char>
    decreases lines.len(),
{
    if lines.len() == 0 {
        Seq::empty()
    } else if lines.len() == 1 {
        lines[0]
    } else {
        join_lines(lines.drop_last()) + "\n"@ + lines.last()
    }
}

/// The digest of a conversation's lines: SHA-256, in hex, of the lines in
/// sorted order joined by newlines.
pub open spec fn audit_digest_of(lines: Seq<Seq<char>>) -> Seq<char> {
    hex_text(sha256(encode_utf8(join_lines(lines.sort_by(lex_order())))))
}

pub open spec fn audit_lines(
    rows: Seq<AuditRow>,
    key: Option<Seq<u8>>,
    my_id: Seq<char>,
    peer_node: Seq<char>,
) -> Seq<Seq<char>> {
    rows.map_values(
        |r: AuditRow|
            audit_line(r.direction@, r.kind@, text_of_blob(key, r.body@), r.ts, my_id, peer_node),
    )
}

fn audit_payload_of(kind: &str, text: &str) -> (r: String)
    ensures
        r@ == audit_payload(kind@, text@),
{
    if !str_eq(kind, "file") {
        return owned(text);
    }
    match json_field(text, "filename") {
        Err(_) => String::new(),
        Ok(f) => {
            let mut s = match f.as_str {
                Some(n) => n,
                None => String::new(),
            };
            push_str(&mut s, "|");
            let size = match u64_field(text, "size") {
                Some(n) => n,
                None => 0,
            };
            push_str(&mut s, decimal_string(size).as_str());
            s
        },
    }
}

fn join_with_newlines(lines: &Vec<String>) -> (r: String)
    ensures
        r@ == join_lines(texts(lines@)),
{
    let mut s = String::new();
    let mut i: usize = 0;
    while i < lines.len()
        invariant
            i <= lines.len(),
            s@ == join_lines(texts(lines@).take(i as int)),
        decreases lines.len() - i,
    {
        let ghost t = texts(lines@).take(i + 1);
        assert(t.drop_last() =~= texts(lines@).take(i as int));
        if i > 0 {
            push_str(&mut s, "\n");
        } else {
            assert(texts(lines@).take(0) =~= Seq::<Seq<char>>::empty());
        }
        push_str(&mut s, lines[i].as_str());
        i += 1;
    }
    assert(texts(lines@).take(lines.len() as int) =~= texts(lines@));
    s
}

/// The audit of a conversation: every message becomes a normalised line and
/// the lines are hashed in sorted order, so both devices compute the same
/// digest from the same records whatever order they arrived in.
pub fn audit_of(rows: &Vec<AuditRow>, key: Option<[u8; 32]>, my_id: &str, peer_node: &str) -> (r:
    AuditResult)
    ensures
        r.count == rows@.len(),
        r.digest@ == audit_digest_of(audit_lines(rows@, key_view(key), my_id@, peer_node@)),
{
    let ghost all = audit_lines(rows@, key_view(key), my_id@, peer_node@);
    let mut lines: Vec<String> = Vec::new();
    let mut i: usize = 0;
    while i < rows.len()
        invariant
            i <= rows.len(),
            all == audit_lines(rows@, key_view(key), my_id@, peer_node@),
            all.len() == rows@.len(),
            lines@.len() == i,
            texts(lines@) == all.take(i as int),
        decreases rows.len() - i,
    {
        let row = &rows[i];
        let text = dec_text(key, row.body.as_slice());
        let mut line = if str_eq(row.direction.as_str(), "out") {
            owned(my_id)
        } else {
            owned(peer_node)
        };
        push_str(&mut line, "\t");
        push_str(&mut line, signed_decimal_string(row.ts).as_str());
        push_str(&mut line, "\t");
        push_str(&mut line, row.kind.as_str());
        push_str(&mut line, "\t");
        push_str(&mut line, audit_payload_of(row.kind.as_str(), text.as_str()).as_str());
        assert(line@ == audit_line(
            rows@[i as int].direction@,
            rows@[i as int].kind@,
            text_of_blob(key_view(key), rows@[i as int].body@),
            rows@[i as int].ts,
            my_id@,
            peer_node@,
        ));
        assert(all[i as int] == line@);
        let ghost lv = line@;
        let ghost before = lines@;
        lines.push(line);
        assert(texts(lines@) =~= texts(before).push(lv));
        assert(texts(lines@) =~= all.take(i + 1));
        i += 1;
    }
    assert(all.take(rows.len() as int) =~= all);
    let count: usize = lines.len();
    let sorted = sort_strings(lines);
    let joined = join_with_newlines(&sorted);
    let b = bytes_of(joined.as_str());
    let digest = hash_hex(b.as_slice());
    AuditResult { count, digest }
}

/// The digest does not depend on the order of the lines: the same messages
/// in any order give the same digest.
pub proof fn lemma_audit_order_independent(a: Seq<Seq<char>>, b: Seq<Seq<char>>)
    requires
        a.to_multiset() == b.to_multiset(),
    ensures
        audit_digest_of(a) == audit_digest_of(b),
{
    lemma_lex_total_ordering();
    a.lemma_sort_by_ensures(lex_order());
    lemma_is_sort_by(b, a.sort_by(lex_order()), lex_order());
}

/// Mapping both sides of equal multisets gives equal multisets.
proof fn lemma_map_multiset<A, B>(a: Seq<A>, b: Seq<A>, f: spec_fn(A) -> B)
    requires
        a.to_multiset() == b.to_multiset(),
    ensures
        a.map_values(f).to_multiset() == b.map_values(f).to_multiset(),
    decreases a.len(),
{
    broadcast use vstd::seq_lib::group_to_multiset_ensures;
    broadcast use vstd::multiset::group_multiset_axioms;

    if a.len() == 0 {
        assert(a.to_multiset().len() == a.len());
        assert(b.to_multiset().len() == b.len());
        assert(b.len() == 0);
        assert(a.map_values(f) =~= b.map_values(f));
    } else {
        let x = a.last();
        let a1 = a.drop_last();
        assert(a =~= a1.push(x));
        assert(a.to_multiset() == a1.to_multiset().insert(x));
        assert(b.to_multiset().count(x) > 0);
        assert(b.contains(x));
        let i = choose|i: int| 0 <= i < b.len() && b[i] == x;
        let b1 = b.remove(i);
        assert(b1.to_multiset() == b.to_multiset().remove(x));
        assert(a1.to_multiset() =~= b1.to_multiset());
        lemma_map_multiset(a1, b1, f);
        let fa = a.map_values(f);
        let fb = b.map_values(f);
        assert(fa =~= a1.map_values(f).push(f(x)));
        assert(b1.map_values(f) =~= fb.remove(i));
        assert(fb.remove(i).to_multiset() == fb.to_multiset().remove(fb[i]));
        assert(fb[i] == f(x));
        assert(fa.to_multiset() =~= fb.to_multiset());
    }
}

/// A row as the audit compares it: whether I sent it, its kind, what of its
/// content the audit reads, and its time.
pub open spec fn audit_view(r: AuditRow, key: Option<Seq<u8>>) -> (bool, Seq<char>, Seq<char>, i64) {
    (r.direction@ == "out"@, r.kind@, audit_payload(r.kind@, text_of_blob(key, r.body@)), r.ts)
}

/// The same message as the other device records it: sent there if it was
/// received here, and the other way round.
pub open spec fn mirrored(v: (bool, Seq<char>, Seq<char>, i64)) -> (bool, Seq<char>, Seq<char>, i64) {
    (!v.0, v.1, v.2, v.3)
}

/// The audit line of a row's view, on the device of `my_id` talking to `peer_node`.
pub open spec fn line_of_view(
    v: (bool, Seq<char>, Seq<char>, i64),
    my_id: Seq<char>,
    peer_node: Seq<char>,
) -> Seq<char> {
    (if v.0 {
        my_id
    } else {
        peer_node
    }) + "\t"@ + signed_decimal(v.3 as int) + "\t"@ + v.1 + "\t"@ + v.2
}

/// Two devices that hold the same conversation agree on its audit. When the
/// rows of the second device are those of the first with every direction
/// flipped (same kind, time and compared content; a file's local path is not
/// compared), in any order, and each device audits with its own id and the
/// other's, both count the same messages and compute the same digest.
pub proof fn lemma_mirrored_devices_agree(
    rows1: Seq<AuditRow>,
    key1: Option<Seq<u8>>,
    my1: Seq<char>,
    peer1: Seq<char>,
    rows2: Seq<AuditRow>,
    key2: Option<Seq<u8>>,
)
    requires
        rows2.map_values(|r: AuditRow| audit_view(r, key2)).to_multiset() == rows1.map_values(
            |r: AuditRow| mirrored(audit_view(r, key1)),
        ).to_multiset(),
    ensures
        rows1.len() == rows2.len(),
        audit_digest_of(audit_lines(rows1, key1, my1, peer1)) == audit_digest_of(
            audit_lines(rows2, key2, peer1, my1),
        ),
{
    broadcast use vstd::seq_lib::group_to_multiset_ensures;

    let v2 = rows2.map_values(|r: AuditRow| audit_view(r, key2));
    let m1 = rows1.map_values(|r: AuditRow| mirrored(audit_view(r, key1)));
    let g = |v: (bool, Seq<char>, Seq<char>, i64)| line_of_view(v, peer1, my1);
    assert(v2.to_multiset().len() == m1.to_multiset().len());
    lemma_map_multiset(v2, m1, g);
    assert(audit_lines(rows1, key1, my1, peer1) =~= m1.map_values(g));
    assert(audit_lines(rows2, key2, peer1, my1) =~= v2.map_values(g));
    lemma_audit_order_independent(
        audit_lines(rows1, key1, my1, peer1),
        audit_lines(rows2, key2, peer1, my1),
    );
}

// ---------------------------------------------------------------------------
// contacts
// ---------------------------------------------------------------------------

/// A node id as stored: trimmed and lower-cased.
pub open spec fn normal_node_id(s: Seq<char>) -> Seq<char> {
    lower(trim(s))
}

/// The stored form of a node id.
pub fn normalize_node_id(s: &str) -> (r: String)
    ensures
        r@ == normal_node_id(s@),
{
    to_lower(trim_str(s).as_str())
}

/// The `LIKE` pattern of a contact's extra conversations (`node#...`).
pub fn extra_threads_pattern(node_id: &str) -> (r: String)
    ensures
        r@ == node_id@ + "#%"@,
{
    let mut s = owned(node_id);
    push_str(&mut s, "#%");
    s
}

/// A field of the local contact card: trimmed, and absent when blank.
pub open spec fn card_field(s: Seq<char>) -> Option<Seq<char>> {
    if trim(s).len() == 0 {
        None
    } else {
        Some(trim(s))
    }
}

/// A field of the contact card as stored.
pub fn card_field_of(s: &str) -> (r: Option<String>)
    ensures
        opt_text(r) == card_field(s@),
{
    let t = trim_str(s);
    if t.as_str().is_empty() {
        None
    } else {
        Some(t)
    }
}

/// The short form of a long id: its first 6 and last 4 bytes around `…`.
pub open spec fn short_id(node: Seq<char>) -> Seq<char> {
    let b = encode_utf8(node);
    if b.len() > 12 {
        decode_utf8(b.take(6)) + "…"@ + decode_utf8(b.skip(b.len() - 4))
    } else {
        node
    }
}

/// The cut points of the short form fall on character boundaries.
pub open spec fn short_id_cuts_ok(node: Seq<char>) -> bool {
    let b = encode_utf8(node);
    &&& b.len() <= usize::MAX
    &&& b.len() > 12 ==> is_char_boundary(b, 6) && is_char_boundary(b, b.len() - 4)
}

/// A contact's display name: my nickname for them, else the name of their
/// profile, else their id shortened.
pub open spec fn display_name(
    node: Seq<char>,
    row: Option<(Seq<char>, Option<Seq<char>>)>,
) -> Seq<char> {
    match row {
        Some((nick, _)) if trim(nick).len() > 0 => nick,
        Some((_, Some(pn))) if trim(pn).len() > 0 => pn,
        _ => short_id(node),
    }
}

pub open spec fn name_row_view(row: Option<(String, Option<String>)>) -> Option<
    (Seq<char>, Option<Seq<char>>),
> {
    match row {
        Some((n, p)) => Some((n@, opt_text(p))),
        None => None,
    }
}

fn short_id_of(node: &str) -> (r: String)
    requires
        short_id_cuts_ok(node@),
    ensures
        r@ == short_id(node@),
{
    proof {
        assert(node.spec_bytes() == encode_utf8(node@));
    }
    if node.len() > 12 {
        let (head, _) = node.split_at(6);
        let (_, tail) = node.split_at(node.len() - 4);
        proof {
            let b = encode_utf8(node@);
            assert(encode_utf8(head@) == b.take(6));
            assert(encode_utf8(tail@) == b.skip(b.len() - 4));
            encode_utf8_decode_utf8(head@);
            encode_utf8_decode_utf8(tail@);
        }
        let mut s = owned(head);
        push_str(&mut s, "…");
        push_str(&mut s, tail);
        s
    } else {
        owned(node)
    }
}

/// A contact's display name (the title of a desktop notification).
pub fn contact_name(node: &str, row: Option<(String, Option<String>)>) -> (r: String)
    requires
        short_id_cuts_ok(node@),
    ensures
        r@ == display_name(node@, name_row_view(row)),
{
    match row {
        Some((nick, pn)) => {
            if !trim_str(nick.as_str()).as_str().is_empty() {
                return nick;
            }
            match pn {
                Some(p) => {
                    if !trim_str(p.as_str()).as_str().is_empty() {
                        return p;
                    }
                    short_id_of(node)
                },
                None => short_id_of(node),
            }
        },
        None => short_id_of(node),
    }
}

// ---------------------------------------------------------------------------
// keywords, profile, outgoing text
// ---------------------------------------------------------------------------

/// The hash of a keyword that goes to the peer: SHA-256 in hex of the word in
/// lower case (never the word itself).
pub open spec fn keyword_hash_of(word: Seq<char>) -> Seq<char> {
    hex_text(sha256(encode_utf8(lower(word))))
}

/// The hash of my keyword that goes to the peer.
pub fn keyword_hash(word: &str) -> (r: String)
    ensures
        r@ == keyword_hash_of(word@),
{
    let l = to_lower(word);
    let b = bytes_of(l.as_str());
    hash_hex(b.as_slice())
}

/// Where a contact's keyword stands.
pub struct KeywordStatus {
    pub has_mine: bool,
    pub has_peer: bool,
    pub matches: Option<bool>,
    pub word: Option<String>,
}

/// The state of a contact's keyword: whether I set mine, whether the peer's
/// hash arrived, and whether they agree (unknown while one side is missing).
/// A mismatch does not block the conversation; it only shows.
pub fn keyword_status(mine: Option<String>, peer_hash: Option<String>) -> (r: KeywordStatus)
    ensures
        r.has_mine == mine is Some,
        r.has_peer == peer_hash is Some,
        opt_text(r.word) == opt_text(mine),
        match (mine, peer_hash) {
            (Some(w), Some(h)) => r.matches == Some(keyword_hash_of(trim(w@)) == h@),
            _ => r.matches is None,
        },
{
    let matches = match (&mine, &peer_hash) {
        (Some(w), Some(ph)) => {
            let t = trim_str(w.as_str());
            let h = keyword_hash(t.as_str());
            Some(str_eq(h.as_str(), ph.as_str()))
        },
        _ => None,
    };
    KeywordStatus { has_mine: mine.is_some(), has_peer: peer_hash.is_some(), matches, word: mine }
}

/// The stored keyword, decrypted.
pub fn keyword_from_blob(key: Option<[u8; 32]>, blob: &[u8]) -> (r: Result<String, String>)
    ensures
        key is None ==> (r matches Err(e) && e@ == missing_key_msg()),
        key matches Some(k) ==> match opened(k@, blob@) {
            Ok(p) => r matches Ok(s) && s@ == lossy(p),
            Err(m) => r matches Err(e) && e@ == m,
        },
{
    let k = key_of(key)?;
    let p = decrypt(&k, blob)?;
    Ok(text_from_bytes(p.as_slice()))
}

/// My profile name as stored (empty when none was set).
pub fn profile_name_from(stored: Option<Vec<u8>>) -> (r: String)
    ensures
        r@ == (match stored {
            Some(b) => lossy(b@),
            None => Seq::empty(),
        }),
{
    match stored {
        Some(b) => text_from_bytes(b.as_slice()),
        None => String::new(),
    }
}

pub open spec fn empty_message_msg() -> Seq<char> {
    "mensagem vazia"@
}

/// The text of a message to send: trimmed; a blank message is refused.
pub fn outgoing_body(body: &str) -> (r: Result<String, String>)
    ensures
        trim(body@).len() > 0 ==> (r matches Ok(t) && t@ == trim(body@)),
        trim(body@).len() == 0 ==> (r matches Err(e) && e@ == empty_message_msg()),
{
    let t = trim_str(body);
    if t.as_str().is_empty() {
        return Err(owned("mensagem vazia"));
    }
    Ok(t)
}

} // verus!
