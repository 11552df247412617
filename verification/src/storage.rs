//! The "data and storage" panel: what may be cleaned without losing history.
//! Nothing here ever selects a message, a contact or a conversation; it picks
//! out only what was left behind: orphan attachments, avatars of removed
//! contacts and old daily backups (the newest one always stays).
//!
//! Attachments are matched by file NAME, not by path: a stored `localPath`
//! carries the data folder of the installation that wrote it, and after a
//! reinstall every path in the database is stale, while the name
//! (`<timestamp>_<name>`) is fixed when the local copy is made.

use vstd::prelude::*;
use crate::json::{json_field, json_field_of, json_str, opt_text};
use crate::order::{lemma_filter_push, lemma_lex_total_ordering, sort_strings, texts, lex_order};
use crate::text::{
    decimal, decimal_string, ends_with, is_ascii_char, ascii_alnum, is_blank, lower, owned,
    push_char, push_str, str_eq, starts_with, to_lower, trim, chars_of,
};

verus! {

broadcast use vstd::seq_lib::group_seq_properties;

/// What a cleaning freed, in files and in bytes.
#[derive(Clone, Default, Debug, PartialEq)]
pub struct Freed {
    pub files: u64,
    pub bytes: u64,
}

/// Sizes and counts shown by the storage panel.
#[derive(Clone)]
pub struct StorageInfo {
    pub dir: String,
    pub db_bytes: u64,
    pub messages: i64,
    pub file_messages: i64,
    pub contacts: i64,
    pub conversations: i64,
    pub attachments_bytes: u64,
    pub attachments_files: u64,
    pub orphan_attachments_bytes: u64,
    pub orphan_attachments_files: u64,
    pub partial_bytes: u64,
    pub partial_files: u64,
    pub avatars_bytes: u64,
    pub avatars_files: u64,
    pub orphan_avatars_bytes: u64,
    pub orphan_avatars_files: u64,
    pub backups_bytes: u64,
    pub backups_files: u64,
    pub old_backups_bytes: u64,
    pub old_backups_files: u64,
    pub stickers_bytes: u64,
    pub stickers_files: u64,
}

// ---------------------------------------------------------------------------
// sizes
// ---------------------------------------------------------------------------

/// The sum of a list of sizes.
pub open spec fn total(sizes: Seq<u64>) -> nat
    decreases sizes.len(),
{
    if sizes.len() == 0 {
        0
    } else {
        total(sizes.drop_last()) + sizes.last() as nat
    }
}

/// The total size of a list of files, given their sizes.
pub fn sum_len(sizes: &[u64]) -> (r: u64)
    requires
        total(sizes@) <= u64::MAX,
    ensures
        r == total(sizes@),
{
    let mut sum: u64 = 0;
    let mut i: usize = 0;
    while i < sizes.len()
        invariant
            i <= sizes.len(),
            total(sizes@) <= u64::MAX,
            sum == total(sizes@.take(i as int)),
        decreases sizes.len() - i,
    {
        proof {
            assert(sizes@.take(i + 1).drop_last() =~= sizes@.take(i as int));
            lemma_total_prefix(sizes@, i + 1);
        }
        sum = sum + sizes[i];
        i += 1;
    }
    assert(sizes@.take(sizes.len() as int) =~= sizes@);
    sum
}

/// A prefix of a list of sizes sums to no more than the whole list.
proof fn lemma_total_prefix(sizes: Seq<u64>, n: int)
    requires
        0 <= n <= sizes.len(),
    ensures
        total(sizes.take(n)) <= total(sizes),
    decreases sizes.len(),
{
    if n < sizes.len() {
        assert(sizes.drop_last().take(n) =~= sizes.take(n));
        lemma_total_prefix(sizes.drop_last(), n);
    } else {
        assert(sizes.take(n) =~= sizes);
    }
}

/// How many of the outcomes succeeded.
pub open spec fn done_count(outcomes: Seq<(bool, u64)>) -> nat
    decreases outcomes.len(),
{
    if outcomes.len() == 0 {
        0
    } else {
        done_count(outcomes.drop_last()) + if outcomes.last().0 {
            1nat
        } else {
            0nat
        }
    }
}

/// The bytes of the outcomes that succeeded.
pub open spec fn done_bytes(outcomes: Seq<(bool, u64)>) -> nat
    decreases outcomes.len(),
{
    if outcomes.len() == 0 {
        0
    } else {
        done_bytes(outcomes.drop_last()) + if outcomes.last().0 {
            outcomes.last().1 as nat
        } else {
            0nat
        }
    }
}

proof fn lemma_done_prefix(outcomes: Seq<(bool, u64)>, n: int)
    requires
        0 <= n <= outcomes.len(),
    ensures
        done_bytes(outcomes.take(n)) <= done_bytes(outcomes),
        done_count(outcomes.take(n)) <= done_count(outcomes),
        done_count(outcomes) <= outcomes.len(),
    decreases outcomes.len(),
{
    if outcomes.len() > 0 {
        if n < outcomes.len() {
            assert(outcomes.drop_last().take(n) =~= outcomes.take(n));
            lemma_done_prefix(outcomes.drop_last(), n);
        } else {
            assert(outcomes.take(n) =~= outcomes);
            lemma_done_prefix(outcomes.drop_last(), 0);
        }
    } else {
        assert(outcomes.take(n) =~= outcomes);
    }
}

/// What a run of removals freed: only the files whose removal succeeded
/// count, each with its size. (Also the files and bytes of a folder, with
/// `true` for the entries that are files.)
pub fn tally(outcomes: &[(bool, u64)]) -> (r: Freed)
    requires
        done_bytes(outcomes@) <= u64::MAX,
    ensures
        r.files == done_count(outcomes@),
        r.bytes == done_bytes(outcomes@),
{
    let mut freed = Freed { files: 0, bytes: 0 };
    let mut i: usize = 0;
    proof {
        lemma_done_prefix(outcomes@, 0);
    }
    while i < outcomes.len()
        invariant
            i <= outcomes.len(),
            done_bytes(outcomes@) <= u64::MAX,
            done_count(outcomes@) <= outcomes.len(),
            freed.files == done_count(outcomes@.take(i as int)),
            freed.bytes == done_bytes(outcomes@.take(i as int)),
        decreases outcomes.len() - i,
    {
        proof {
            assert(outcomes@.take(i + 1).drop_last() =~= outcomes@.take(i as int));
            lemma_done_prefix(outcomes@, i + 1);
        }
        let (ok, len) = outcomes[i];
        if ok {
            freed.files = freed.files + 1;
            freed.bytes = freed.bytes + len;
        }
        i += 1;
    }
    assert(outcomes@.take(outcomes.len() as int) =~= outcomes@);
    freed
}

// ---------------------------------------------------------------------------
// file names
// ---------------------------------------------------------------------------

/// `Path::file_name` of a path: its last component, unless it ends in `..`.
pub uninterp spec fn path_file_name(p: Seq<char>) -> Option<Seq<char>>;

/// `Path::new(p).file_name()`, as text.
#[verifier::external_body]
pub(crate) fn file_name(p: &str) -> (r: Option<String>)
    ensures
        opt_text(r) == path_file_name(p@),
{
    std::path::Path::new(p).file_name().map(|n| n.to_string_lossy().into_owned())
}

/// The name a listed file is matched by: its file name in lower case.
pub open spec fn name_key(p: Seq<char>) -> Seq<char> {
    match path_file_name(p) {
        Some(n) => lower(n),
        None => lower(Seq::empty()),
    }
}

fn name_key_of(p: &str) -> (r: String)
    ensures
        r@ == name_key(p@),
{
    match file_name(p) {
        Some(n) => to_lower(n.as_str()),
        None => {
            let e = String::new();
            to_lower(e.as_str())
        },
    }
}

/// Is `x` one of the texts of `v`?
fn holds(v: &Vec<String>, x: &str) -> (r: bool)
    ensures
        r == texts(v@).contains(x@),
{
    let mut i: usize = 0;
    while i < v.len()
        invariant
            i <= v.len(),
            forall|k: int| 0 <= k < i ==> v@[k]@ != x@,
        decreases v.len() - i,
    {
        if str_eq(v[i].as_str(), x) {
            assert(texts(v@)[i as int] == x@);
            return true;
        }
        i += 1;
    }
    assert(!texts(v@).contains(x@)) by {
        if texts(v@).contains(x@) {
            let k = choose|k: int| 0 <= k < texts(v@).len() && texts(v@)[k] == x@;
            assert(v@[k]@ == x@);
        }
    }
    false
}

// ---------------------------------------------------------------------------
// attachments
// ---------------------------------------------------------------------------

/// The file name that a file message's body protects, if any: the name of its
/// `localPath`, lower-cased. An empty body (a message deleted for everyone),
/// a body without `localPath` or with an empty one protects nothing.
pub open spec fn body_reference(t: Seq<char>) -> Option<Seq<char>> {
    if trim(t).len() == 0 {
        None
    } else {
        match json_str(t, "localPath"@) {
            Some(p) => if p.len() > 0 {
                match path_file_name(p) {
                    Some(n) => Some(lower(n)),
                    None => None,
                }
            } else {
                None
            },
            None => None,
        }
    }
}

/// A body that can be read: it decrypted and is either empty or JSON.
pub open spec fn body_readable(b: Option<Seq<char>>) -> bool {
    match b {
        None => false,
        Some(t) => trim(t).len() == 0 || json_field_of(t, "localPath"@) is Some,
    }
}

pub open spec fn bodies_view(bodies: Seq<Option<String>>) -> Seq<Option<Seq<char>>> {
    bodies.map_values(|b: Option<String>| opt_text(b))
}

/// The names that some file message still protects.
pub open spec fn referenced_set(bodies: Seq<Option<Seq<char>>>) -> Set<Seq<char>> {
    Set::new(
        |x: Seq<char>|
            exists|i: int|
                0 <= i < bodies.len() && (#[trigger] bodies[i]) is Some && body_reference(
                    bodies[i]->Some_0,
                ) == Some(x),
    )
}

/// How many bodies did not decrypt.
pub open spec fn count_missing(bodies: Seq<Option<Seq<char>>>) -> nat
    decreases bodies.len(),
{
    if bodies.len() == 0 {
        0
    } else {
        count_missing(bodies.drop_last()) + if bodies.last() is None {
            1nat
        } else {
            0nat
        }
    }
}

/// The message when some body did not decrypt.
pub open spec fn unreadable_msg(missing: nat, total: nat) -> Seq<char> {
    "não consegui ler "@ + decimal(missing) + " de "@ + decimal(total)
        + " mensagens de anexo; limpeza cancelada por segurança"@
}

/// Prefix of the message for body `i` that is not JSON.
pub open spec fn bad_json_prefix(i: nat) -> Seq<char> {
    "anexo #"@ + decimal(i) + " com metadados ilegíveis ("@
}

pub open spec fn bad_json_suffix() -> Seq<char> {
    "); limpeza cancelada"@
}

fn count_unreadable(bodies: &[Option<String>]) -> (r: u64)
    ensures
        r == count_missing(bodies_view(bodies@)),
{
    let mut n: u64 = 0;
    let mut i: usize = 0;
    while i < bodies.len()
        invariant
            i <= bodies.len(),
            n == count_missing(bodies_view(bodies@).take(i as int)),
            n <= i,
        decreases bodies.len() - i,
    {
        assert(bodies_view(bodies@).take(i + 1).drop_last() =~= bodies_view(bodies@).take(
            i as int,
        ));
        if bodies[i].is_none() {
            n += 1;
        }
        i += 1;
    }
    assert(bodies_view(bodies@).take(bodies.len() as int) =~= bodies_view(bodies@));
    n
}

/// The names of the files that attachment messages still reference.
///
/// `bodies` are the decrypted bodies of the file messages, `None` for a row
/// that did not decrypt. An unreadable row (`None`, or a body that is not JSON)
/// aborts the whole scan: it may point at a live file, and without the full
/// inventory nothing can be shown to be an orphan. The error names the first
/// unreadable row.
pub fn referenced_names(bodies: &[Option<String>]) -> (r: Result<Vec<String>, String>)
    ensures
        (forall|i: int|
            0 <= i < bodies@.len() ==> #[trigger] body_readable(bodies_view(bodies@)[i]))
            ==> (r matches Ok(v) && texts(v@).to_set() == referenced_set(bodies_view(bodies@))
            && texts(v@).no_duplicates()),
        !(forall|i: int|
            0 <= i < bodies@.len() ==> #[trigger] body_readable(bodies_view(bodies@)[i]))
            ==> r is Err,
        r matches Err(e) ==> exists|i: int|
            #![trigger bodies_view(bodies@)[i]]
            0 <= i < bodies@.len() && (forall|k: int|
                0 <= k < i ==> #[trigger] body_readable(bodies_view(bodies@)[k]))
                && !body_readable(bodies_view(bodies@)[i]) && (bodies_view(bodies@)[i] is None
                ==> e@ == unreadable_msg(count_missing(bodies_view(bodies@)), bodies@.len()))
                && (bodies_view(bodies@)[i] is Some ==> bad_json_prefix(i as nat).is_prefix_of(
                e@) && bad_json_suffix().is_suffix_of(e@)),
{
    let ghost bv = bodies_view(bodies@);
    let mut set: Vec<String> = Vec::new();
    let mut i: usize = 0;
    while i < bodies.len()
        invariant
            bv == bodies_view(bodies@),
            i <= bodies.len(),
            forall|k: int| 0 <= k < i ==> #[trigger] body_readable(bv[k]),
            texts(set@).no_duplicates(),
            forall|x: Seq<char>|
                texts(set@).contains(x) <==> exists|k: int|
                    0 <= k < i && (#[trigger] bv[k]) is Some && body_reference(bv[k]->Some_0)
                        == Some(x),
        decreases bodies.len() - i,
    {
        match &bodies[i] {
            None => {
                let missing = count_unreadable(bodies);
                let mut msg = owned("não consegui ler ");
                push_str(&mut msg, decimal_string(missing).as_str());
                push_str(&mut msg, " de ");
                push_str(&mut msg, decimal_string(bodies.len() as u64).as_str());
                push_str(&mut msg, " mensagens de anexo; limpeza cancelada por segurança");
                assert(bv[i as int] is None);
                assert(!body_readable(bodies_view(bodies@)[i as int]));
                return Err(msg);
            },
            Some(json) => {
                assert(bv[i as int] == Some(json@));
                if !is_blank(json.as_str()) {
                    match json_field(json.as_str(), "localPath") {
                        Err(e) => {
                            let mut msg = owned("anexo #");
                            push_str(&mut msg, decimal_string(i as u64).as_str());
                            push_str(&mut msg, " com metadados ilegíveis (");
                            push_str(&mut msg, e.as_str());
                            push_str(&mut msg, "); limpeza cancelada");
                            proof {
                                let p = bad_json_prefix(i as nat);
                                assert(msg@ =~= p + e@ + bad_json_suffix());
                                assert(msg@.subrange(0, p.len() as int) =~= p);
                                assert(msg@.subrange(
                                    msg@.len() - bad_json_suffix().len(),
                                    msg@.len() as int,
                                ) =~= bad_json_suffix());
                                assert(!body_readable(bodies_view(bodies@)[i as int]));
                            }
                            return Err(msg);
                        },
                        Ok(f) => {
                            match &f.as_str {
                                Some(p) => {
                                    if !p.as_str().is_empty() {
                                        match file_name(p.as_str()) {
                                            Some(n) => {
                                                let key = to_lower(n.as_str());
                                                if !holds(&set, key.as_str()) {
                                                    let ghost old_t = texts(set@);
                                                    set.push(key);
                                                    proof {
                                                        assert(texts(set@) =~= old_t.push(
                                                            key@,
                                                        ));
                                                        assert forall|a: int, b: int|
                                                            0 <= a < b < texts(
                                                                set@,
                                                            ).len() implies texts(set@)[a]
                                                            != texts(set@)[b] by {
                                                            if b == old_t.len() {
                                                                assert(old_t.contains(
                                                                    old_t[a],
                                                                ));
                                                            }
                                                        }
                                                    }
                                                }
                                            },
                                            None => {},
                                        }
                                    }
                                },
                                None => {},
                            }
                        },
                    }
                }
            },
        }
        proof {
            assert forall|x: Seq<char>|
                texts(set@).contains(x) <==> exists|k: int|
                    0 <= k < i + 1 && (#[trigger] bv[k]) is Some && body_reference(bv[k]->Some_0)
                        == Some(x) by {
                if texts(set@).contains(x) {
                    if !(exists|k: int|
                        0 <= k < i && (#[trigger] bv[k]) is Some && body_reference(bv[k]->Some_0)
                            == Some(x)) {
                        assert(body_reference(bv[i as int]->Some_0) == Some(x));
                    }
                }
            }
        }
        i += 1;
    }
    proof {
        assert(texts(set@).to_set() =~= referenced_set(bv));
    }
    Ok(set)
}

/// The files whose name no message references: leftovers of deleted
/// conversations, removed contacts or messages deleted one by one.
pub open spec fn orphans(files: Seq<Seq<char>>, used: Seq<Seq<char>>) -> Seq<Seq<char>> {
    files.filter(|p: Seq<char>| !used.contains(name_key(p)))
}

/// The files of `attachments/` that no message references.
pub fn orphan_attachments(files: &[String], used: &Vec<String>) -> (r: Vec<String>)
    ensures
        texts(r@) == orphans(texts(files@), texts(used@)),
{
    let ghost pred = |p: Seq<char>| !texts(used@).contains(name_key(p));
    let mut out: Vec<String> = Vec::new();
    let mut i: usize = 0;
    while i < files.len()
        invariant
            i <= files.len(),
            pred == (|p: Seq<char>| !texts(used@).contains(name_key(p))),
            texts(out@) == texts(files@).take(i as int).filter(pred),
        decreases files.len() - i,
    {
        let key = name_key_of(files[i].as_str());
        let keep = !holds(used, key.as_str());
        proof {
            assert(texts(files@).take(i + 1) =~= texts(files@).take(i as int).push(files@[i as int]@));
            lemma_filter_push(texts(files@).take(i as int), files@[i as int]@, pred);
        }
        if keep {
            out.push(files[i].clone());
            assert(texts(out@) =~= texts(files@).take(i as int).filter(pred).push(files@[i as int]@));
        }
        i += 1;
    }
    assert(texts(files@).take(files.len() as int) =~= texts(files@));
    out
}

// ---------------------------------------------------------------------------
// avatars
// ---------------------------------------------------------------------------

/// The ASCII letters and digits of a node id (the avatar cache's file stem).
pub open spec fn alnum_only(s: Seq<char>) -> Seq<char> {
    s.filter(|c: char| is_ascii_char(c) && ascii_alnum(c))
}

/// File name of a contact's cached avatar, the same rule as the avatar cache:
/// the node id's ASCII letters and digits, `.png`, lower-cased.
pub open spec fn avatar_name(node_id: Seq<char>) -> Seq<char> {
    lower(alnum_only(node_id) + ".png"@)
}

/// The ASCII letters and digits of `s`, in order.
pub fn ascii_alnum_of(s: &str) -> (r: String)
    ensures
        r@ == alnum_only(s@),
{
    let cs = chars_of(s);
    let ghost pred = |c: char| is_ascii_char(c) && ascii_alnum(c);
    let mut out = String::new();
    let mut i: usize = 0;
    while i < cs.len()
        invariant
            cs@ == s@,
            i <= cs.len(),
            pred == (|c: char| is_ascii_char(c) && ascii_alnum(c)),
            out@ == s@.take(i as int).filter(pred),
        decreases cs.len() - i,
    {
        let c = cs[i];
        proof {
            assert(s@.take(i + 1) =~= s@.take(i as int).push(c));
            lemma_filter_push(s@.take(i as int), c, pred);
        }
        if (c as u32) < 128 && (('0' <= c && c <= '9') || ('a' <= c && c <= 'z') || ('A' <= c
            && c <= 'Z')) {
            push_char(&mut out, c);
        }
        i += 1;
    }
    assert(s@.take(cs.len() as int) =~= s@);
    out
}

/// File name of the cached avatar of `node_id`.
pub fn avatar_name_of(node_id: &str) -> (r: String)
    ensures
        r@ == avatar_name(node_id@),
{
    let mut s = ascii_alnum_of(node_id);
    push_str(&mut s, ".png");
    to_lower(s.as_str())
}

/// The avatar names that contacts still protect (an empty id protects nothing).
pub open spec fn kept_avatars(node_ids: Seq<Seq<char>>) -> Seq<Seq<char>> {
    node_ids.filter(|n: Seq<char>| n.len() > 0).map_values(|n: Seq<char>| avatar_name(n))
}

/// Cached avatars of people who are no longer contacts.
pub fn orphan_avatars(files: &[String], node_ids: &[String]) -> (r: Vec<String>)
    ensures
        texts(r@) == orphans(texts(files@), kept_avatars(texts(node_ids@))),
{
    let ghost nonempty = |n: Seq<char>| n.len() > 0;
    let ghost to_name = |n: Seq<char>| avatar_name(n);
    let mut keep: Vec<String> = Vec::new();
    let mut i: usize = 0;
    while i < node_ids.len()
        invariant
            i <= node_ids.len(),
            nonempty == (|n: Seq<char>| n.len() > 0),
            to_name == (|n: Seq<char>| avatar_name(n)),
            texts(keep@) == texts(node_ids@).take(i as int).filter(nonempty).map_values(to_name),
        decreases node_ids.len() - i,
    {
        let n = node_ids[i].as_str();
        proof {
            assert(texts(node_ids@).take(i + 1) =~= texts(node_ids@).take(i as int).push(n@));
            lemma_filter_push(texts(node_ids@).take(i as int), n@, nonempty);
        }
        let ghost prev = texts(node_ids@).take(i as int).filter(nonempty);
        if !n.is_empty() {
            let a = avatar_name_of(n);
            keep.push(a);
            proof {
                assert(texts(node_ids@).take(i + 1).filter(nonempty) == prev.push(n@));
                assert(prev.push(n@).map_values(to_name) =~= prev.map_values(to_name).push(
                    avatar_name(n@),
                ));
                assert(texts(keep@) =~= prev.map_values(to_name).push(avatar_name(n@)));
            }
        }
        i += 1;
    }
    assert(texts(node_ids@).take(node_ids.len() as int) =~= texts(node_ids@));
    orphan_attachments(files, &keep)
}

// ---------------------------------------------------------------------------
// backups
// ---------------------------------------------------------------------------

/// A daily backup of the database: `chat-<yyyymmdd>.db`.
pub open spec fn is_backup_name(p: Seq<char>) -> bool {
    "chat-"@.is_prefix_of(name_key(p)) && ".db"@.is_suffix_of(name_key(p))
}

/// The daily backups that may go: all but the newest, in order. Names carry
/// the date in sortable form, so the newest is the last in name order.
pub open spec fn old_backup_list(files: Seq<Seq<char>>) -> Seq<Seq<char>> {
    files.filter(backup_pred()).sort_by(lex_order()).drop_last()
}

pub open spec fn backup_pred() -> spec_fn(Seq<char>) -> bool {
    |p: Seq<char>| is_backup_name(p)
}

/// Daily backups except the most recent one.
pub fn old_backups(files: &[String]) -> (r: Vec<String>)
    ensures
        texts(r@) == (if texts(files@).filter(backup_pred()).len() == 0 {
            Seq::empty()
        } else {
            old_backup_list(texts(files@))
        }),
{
    let ghost pred = backup_pred();
    let mut list: Vec<String> = Vec::new();
    let mut i: usize = 0;
    while i < files.len()
        invariant
            i <= files.len(),
            pred == backup_pred(),
            texts(list@) == texts(files@).take(i as int).filter(pred),
        decreases files.len() - i,
    {
        let key = name_key_of(files[i].as_str());
        let ok = starts_with(key.as_str(), "chat-") && ends_with(key.as_str(), ".db");
        proof {
            assert(texts(files@).take(i + 1) =~= texts(files@).take(i as int).push(files@[i as int]@));
            lemma_filter_push(texts(files@).take(i as int), files@[i as int]@, pred);
        }
        if ok {
            list.push(files[i].clone());
            assert(texts(list@) =~= texts(files@).take(i as int).filter(pred).push(files@[i as int]@));
        }
        i += 1;
    }
    assert(texts(files@).take(files.len() as int) =~= texts(files@));
    let mut sorted = sort_strings(list);
    let ghost before = texts(sorted@);
    proof {
        broadcast use vstd::seq_lib::group_to_multiset_ensures;
        lemma_lex_total_ordering();
        texts(files@).filter(pred).lemma_sort_by_ensures(lex_order());
        let f = texts(files@).filter(pred);
        assert(before == f.sort_by(lex_order()));
        assert(f.sort_by(lex_order()).to_multiset() == f.to_multiset());
        assert(f.to_multiset().len() == f.len());
        assert(f.sort_by(lex_order()).to_multiset().len() == f.sort_by(lex_order()).len());
        assert(before.len() == f.len());
    }
    sorted.pop();
    proof {
        if before.len() > 0 {
            assert(texts(sorted@) =~= before.drop_last());
        } else {
            assert(texts(sorted@) =~= Seq::<Seq<char>>::empty());
        }
    }
    sorted
}

// ---------------------------------------------------------------------------
// laws
// ---------------------------------------------------------------------------

/// Cleaning never selects a file that a message references, and it selects
/// every listed file that no message references.
pub proof fn lemma_orphans_exact(files: Seq<Seq<char>>, used: Seq<Seq<char>>)
    ensures
        forall|i: int|
            0 <= i < orphans(files, used).len() ==> !used.contains(
                name_key(#[trigger] orphans(files, used)[i]),
            ),
        forall|i: int|
            0 <= i < files.len() && !used.contains(name_key(files[i])) ==> orphans(
                files,
                used,
            ).contains(#[trigger] files[i]),
{
    broadcast use vstd::seq_lib::group_filter_ensures;
    let pred = |p: Seq<char>| !used.contains(name_key(p));
    assert forall|i: int| 0 <= i < orphans(files, used).len() implies !used.contains(
        name_key(#[trigger] orphans(files, used)[i]),
    ) by {
        assert(pred(files.filter(pred)[i]));
    }
}

/// Cleaning twice frees nothing the second time: once the orphans are gone,
/// the files that remain hold no orphan.
pub proof fn lemma_cleaning_idempotent(files: Seq<Seq<char>>, used: Seq<Seq<char>>)
    ensures
        orphans(files.filter(|p: Seq<char>| used.contains(name_key(p))), used).len() == 0,
{
    broadcast use vstd::seq_lib::group_filter_ensures;
    let kept = files.filter(|p: Seq<char>| used.contains(name_key(p)));
    let o = orphans(kept, used);
    if o.len() > 0 {
        assert(!used.contains(name_key(o[0])));
        assert(kept.contains(o[0])) by {
            assert(o.contains(o[0]));
            lemma_filter_subset(kept, |p: Seq<char>| !used.contains(name_key(p)));
        }
        let k = choose|k: int| 0 <= k < kept.len() && kept[k] == o[0];
        assert(used.contains(name_key(kept[k])));
    }
}

/// Everything a filter keeps was in the sequence.
pub proof fn lemma_filter_subset<A>(s: Seq<A>, pred: spec_fn(A) -> bool)
    ensures
        forall|x: A| #[trigger] s.filter(pred).contains(x) ==> s.contains(x),
    decreases s.len(),
{
    reveal(Seq::filter);
    if s.len() > 0 {
        lemma_filter_subset(s.drop_last(), pred);
        assert forall|x: A| #[trigger] s.filter(pred).contains(x) implies s.contains(x) by {
            let t = s.drop_last().filter(pred);
            if pred(s.last()) {
                if x != s.last() {
                    let k = choose|k: int| 0 <= k < s.filter(pred).len() && s.filter(pred)[k] == x;
                    assert(t.contains(x)) by {
                        assert(t[k] == x);
                    }
                    let j = choose|j: int| 0 <= j < s.drop_last().len() && s.drop_last()[j] == x;
                    assert(s[j] == x);
                }
            } else {
                assert(t.contains(x));
                let j = choose|j: int| 0 <= j < s.drop_last().len() && s.drop_last()[j] == x;
                assert(s[j] == x);
            }
        }
    }
}

/// The avatar of a contact whose id is not empty is never selected.
pub proof fn lemma_contact_avatar_survives(files: Seq<Seq<char>>, node_ids: Seq<Seq<char>>)
    ensures
        forall|i: int, j: int|
            0 <= i < files.len() && 0 <= j < node_ids.len() && node_ids[j].len() > 0 && name_key(
                #[trigger] files[i],
            ) == avatar_name(#[trigger] node_ids[j]) ==> !orphans(
                files,
                kept_avatars(node_ids),
            ).contains(files[i]),
{
    broadcast use vstd::seq_lib::group_filter_ensures;
    let kept = kept_avatars(node_ids);
    assert forall|i: int, j: int|
        0 <= i < files.len() && 0 <= j < node_ids.len() && node_ids[j].len() > 0 && name_key(
            #[trigger] files[i],
        ) == avatar_name(#[trigger] node_ids[j]) implies !orphans(files, kept).contains(
        files[i],
    ) by {
        let ne = |n: Seq<char>| n.len() > 0;
        let f = node_ids.filter(ne);
        assert(f.contains(node_ids[j]));
        let k = choose|k: int| 0 <= k < f.len() && f[k] == node_ids[j];
        assert(kept[k] == avatar_name(node_ids[j]));
        assert(kept.contains(name_key(files[i])));
        if orphans(files, kept).contains(files[i]) {
            let m = choose|m: int|
                0 <= m < orphans(files, kept).len() && orphans(files, kept)[m] == files[i];
            lemma_orphans_exact(files, kept);
            assert(!kept.contains(name_key(orphans(files, kept)[m])));
        }
    }
}

/// Of the daily backups, exactly the newest (greatest name) stays: the list
/// to delete holds all the others, none of them the newest.
pub proof fn lemma_newest_backup_stays(files: Seq<Seq<char>>)
    requires
        files.no_duplicates(),
        files.filter(backup_pred()).len() > 0,
    ensures
        ({
            let all = files.filter(backup_pred());
            let newest = all.sort_by(lex_order()).last();
            &&& all.contains(newest)
            &&& forall|i: int| 0 <= i < all.len() ==> lex_order()(#[trigger] all[i], newest)
            &&& !old_backup_list(files).contains(newest)
            &&& old_backup_list(files).len() == all.len() - 1
        }),
{
    broadcast use vstd::seq_lib::group_to_multiset_ensures;
    broadcast use vstd::seq_lib::group_filter_ensures;
    lemma_lex_total_ordering();
    let all = files.filter(backup_pred());
    let sorted = all.sort_by(lex_order());
    all.lemma_sort_by_ensures(lex_order());
    assert(sorted.len() == sorted.to_multiset().len());
    assert(all.len() == all.to_multiset().len());
    let newest = sorted.last();
    assert(sorted.contains(newest));
    assert(sorted.to_multiset().count(newest) > 0);
    assert(all.contains(newest));
    assert forall|i: int| 0 <= i < all.len() implies lex_order()(#[trigger] all[i], newest) by {
        assert(all.to_multiset().count(all[i]) > 0);
        assert(sorted.contains(all[i]));
        let k = choose|k: int| 0 <= k < sorted.len() && sorted[k] == all[i];
        if k < sorted.len() - 1 {
            assert(lex_order()(sorted[k], sorted[sorted.len() - 1]));
        } else {
            crate::order::lemma_lex_le_refl(newest);
        }
    }
    lemma_filter_no_duplicates(files, backup_pred());
    all.lemma_multiset_has_no_duplicates();
    sorted.lemma_multiset_has_no_duplicates_conv();
    let old = old_backup_list(files);
    assert(old == sorted.drop_last());
    if old.contains(newest) {
        let k = choose|k: int| 0 <= k < old.len() && old[k] == newest;
        assert(sorted[k] == sorted[sorted.len() - 1]);
    }
}

/// Filtering keeps a sequence free of duplicates.
pub proof fn lemma_filter_no_duplicates<A>(s: Seq<A>, pred: spec_fn(A) -> bool)
    requires
        s.no_duplicates(),
    ensures
        s.filter(pred).no_duplicates(),
    decreases s.len(),
{
    reveal(Seq::filter);
    if s.len() > 0 {
        lemma_filter_no_duplicates(s.drop_last(), pred);
        lemma_filter_subset(s.drop_last(), pred);
        if pred(s.last()) {
            let t = s.drop_last().filter(pred);
            assert forall|a: int, b: int| 0 <= a < b < t.push(s.last()).len() implies t.push(
                s.last(),
            )[a] != t.push(s.last())[b] by {
                if b == t.len() {
                    if t[a] == s.last() {
                        assert(t.contains(t[a]));
                        assert(s.drop_last().contains(s.last()));
                        let j = choose|j: int| 0 <= j < s.drop_last().len() && s.drop_last()[j]
                            == s.last();
                        assert(s[j] == s[s.len() - 1]);
                    }
                }
            }
        }
    }
}

} // verus!
