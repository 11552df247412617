//! Calendar dates of the proleptic Gregorian calendar, for the names of the
//! daily database backups (`chat-<yyyymmdd>.db`).

use vstd::prelude::*;
use crate::order::{lemma_filter_push, lemma_lex_total_ordering, lex_order, sort_strings, texts};
use crate::text::{decimal_padded, decimal_padded_string, owned, push_str, starts_with};

verus! {

pub open spec fn is_leap(y: int) -> bool {
    (y % 4 == 0 && y % 100 != 0) || y % 400 == 0
}

pub open spec fn month_len(y: int, m: int) -> int {
    if m == 2 {
        if is_leap(y) { 29 } else { 28 }
    } else if m == 4 || m == 6 || m == 9 || m == 11 {
        30
    } else {
        31
    }
}

pub open spec fn valid_date(y: int, m: int, d: int) -> bool {
    1 <= m <= 12 && 1 <= d <= month_len(y, m)
}

pub open spec fn days_before_month_common(m: int) -> int {
    if m == 1 { 0 }
    else if m == 2 { 31 }
    else if m == 3 { 59 }
    else if m == 4 { 90 }
    else if m == 5 { 120 }
    else if m == 6 { 151 }
    else if m == 7 { 181 }
    else if m == 8 { 212 }
    else if m == 9 { 243 }
    else if m == 10 { 273 }
    else if m == 11 { 304 }
    else { 334 }
}

pub open spec fn days_before_month(y: int, m: int) -> int {
    days_before_month_common(m) + if m > 2 && is_leap(y) { 1int } else { 0int }
}

pub open spec fn leap_years_before(y: int) -> int {
    (y - 1) / 4 - (y - 1) / 100 + (y - 1) / 400
}

pub open spec fn days_from_epoch(y: int, m: int, d: int) -> int {
    365 * (y - 1) + leap_years_before(y) + days_before_month(y, m) + d - 1 - 719162
}

proof fn lemma_yoe(doe: int)
    requires
        0 <= doe < 146097,
    ensures
        ({
            let yoe = (doe - doe / 1460 + doe / 36524 - doe / 146096) / 365;
            &&& 0 <= yoe <= 399
            &&& 365 * yoe + yoe / 4 - yoe / 100 <= doe
            &&& doe < 365 * (yoe + 1) + (yoe + 1) / 4 - (yoe + 1) / 100 + (if yoe == 399 { 1int } else { 0int })
        }),
{
}

proof fn lemma_month(doy: int)
    requires
        0 <= doy <= 365,
    ensures
        ({
            let mp = (5 * doy + 2) / 153;
            let d = doy - (153 * mp + 2) / 5 + 1;
            &&& 0 <= mp <= 11
            &&& 1 <= d
            &&& mp < 11 ==> d <= (if mp == 1 || mp == 3 || mp == 6 || mp == 8 { 30int } else { 31int })
            &&& mp == 11 ==> d == doy - 336
        }),
{
    let mp = (5 * doy + 2) / 153;
    assert(153 * mp <= 5 * doy + 2 < 153 * mp + 153);
    assert(0 <= mp <= 11);
    if mp == 0 { assert((153 * mp + 2) / 5 == 0); }
    else if mp == 1 { assert((153 * mp + 2) / 5 == 31); }
    else if mp == 2 { assert((153 * mp + 2) / 5 == 61); }
    else if mp == 3 { assert((153 * mp + 2) / 5 == 92); }
    else if mp == 4 { assert((153 * mp + 2) / 5 == 122); }
    else if mp == 5 { assert((153 * mp + 2) / 5 == 153); }
    else if mp == 6 { assert((153 * mp + 2) / 5 == 184); }
    else if mp == 7 { assert((153 * mp + 2) / 5 == 214); }
    else if mp == 8 { assert((153 * mp + 2) / 5 == 245); }
    else if mp == 9 { assert((153 * mp + 2) / 5 == 275); }
    else if mp == 10 { assert((153 * mp + 2) / 5 == 306); }
    else { assert((153 * mp + 2) / 5 == 337); }
}

proof fn lemma_era_shift(era: int, k: int)
    ensures
        (era * 400 + k) / 4 == era * 100 + k / 4,
        (era * 400 + k) / 100 == era * 4 + k / 100,
        (era * 400 + k) / 400 == era + k / 400,
        is_leap(era * 400 + k) == is_leap(k),
{
}

proof fn lemma_days_of_march_year(era: int, yoe: int, mp: int, d: int)
    requires
        0 <= yoe <= 399,
        0 <= mp <= 11,
    ensures
        ({
            let m = if mp < 10 { mp + 3 } else { mp - 9 };
            let y = yoe + era * 400 + if m <= 2 { 1int } else { 0int };
            days_from_epoch(y, m, d) == era * 146097 + 365 * yoe + yoe / 4 - yoe / 100 + (153 * mp + 2) / 5 + d - 1 - 719468
        }),
{
    let m = if mp < 10 { mp + 3 } else { mp - 9 };
    let y = yoe + era * 400 + if m <= 2 { 1int } else { 0int };
    lemma_era_shift(era, y - 1 - era * 400);
    lemma_era_shift(era, y - era * 400);
    if mp == 0 { assert((153 * mp + 2) / 5 == 0); }
    else if mp == 1 { assert((153 * mp + 2) / 5 == 31); }
    else if mp == 2 { assert((153 * mp + 2) / 5 == 61); }
    else if mp == 3 { assert((153 * mp + 2) / 5 == 92); }
    else if mp == 4 { assert((153 * mp + 2) / 5 == 122); }
    else if mp == 5 { assert((153 * mp + 2) / 5 == 153); }
    else if mp == 6 { assert((153 * mp + 2) / 5 == 184); }
    else if mp == 7 { assert((153 * mp + 2) / 5 == 214); }
    else if mp == 8 { assert((153 * mp + 2) / 5 == 245); }
    else if mp == 9 { assert((153 * mp + 2) / 5 == 275); }
    else if mp == 10 { assert((153 * mp + 2) / 5 == 306); }
    else { assert((153 * mp + 2) / 5 == 337); }
    if m > 2 {
        // y - 1 = era * 400 + yoe - 1; the leap day of year y is counted by is_leap(y)
        assert(leap_years_before(y) + (if is_leap(y) { 1int } else { 0int }) == era * 97 + (yoe + 1 - 1) / 4 - (yoe + 1 - 1) / 100 + (yoe) / 400 + 0) by {
            lemma_era_shift(era, yoe);
            lemma_era_shift(era, yoe - 1);
        }
    } else {
        lemma_era_shift(era, yoe);
    }
}

proof fn lemma_civil(era: int, doe: int)
    requires
        0 <= doe < 146097,
    ensures
        ({
            let yoe = (doe - doe / 1460 + doe / 36524 - doe / 146096) / 365;
            let doy = doe - (365 * yoe + yoe / 4 - yoe / 100);
            let mp = (5 * doy + 2) / 153;
            let d = doy - (153 * mp + 2) / 5 + 1;
            let m = if mp < 10 { mp + 3 } else { mp - 9 };
            let y = yoe + era * 400 + if m <= 2 { 1int } else { 0int };
            &&& valid_date(y, m, d)
            &&& days_from_epoch(y, m, d) == era * 146097 + doe - 719468
        }),
{
    let yoe = (doe - doe / 1460 + doe / 36524 - doe / 146096) / 365;
    lemma_yoe(doe);
    let doy = doe - (365 * yoe + yoe / 4 - yoe / 100);
    assert(doy <= 365);
    lemma_month(doy);
    let mp = (5 * doy + 2) / 153;
    let d = doy - (153 * mp + 2) / 5 + 1;
    let m = if mp < 10 { mp + 3 } else { mp - 9 };
    let y = yoe + era * 400 + if m <= 2 { 1int } else { 0int };
    assert(valid_date(y, m, d)) by {
        if mp == 11 {
            lemma_era_shift(era, yoe + 1);
            assert(is_leap(y) == is_leap(yoe + 1));
        }
    }
    lemma_days_of_march_year(era, yoe, mp, d);
}

/// Days from the epoch to the first of January of `y`.
pub open spec fn year_start(y: int) -> int {
    365 * (y - 1) + leap_years_before(y) - 719162
}

pub open spec fn year_len(y: int) -> int {
    if is_leap(y) {
        366
    } else {
        365
    }
}

proof fn lemma_year_step(y: int)
    ensures
        year_start(y + 1) == year_start(y) + year_len(y),
{
    assert(y / 4 - (y - 1) / 4 == (if y % 4 == 0 { 1int } else { 0int }));
    assert(y / 100 - (y - 1) / 100 == (if y % 100 == 0 { 1int } else { 0int }));
    assert(y / 400 - (y - 1) / 400 == (if y % 400 == 0 { 1int } else { 0int }));
}

proof fn lemma_year_order(y1: int, y2: int)
    requires
        y1 < y2,
    ensures
        year_start(y1) + year_len(y1) <= year_start(y2),
    decreases y2 - y1,
{
    lemma_year_step(y1);
    if y1 + 1 < y2 {
        lemma_year_order(y1 + 1, y2);
    }
}

proof fn lemma_day_of_year(y: int, m: int, d: int)
    requires
        valid_date(y, m, d),
    ensures
        0 <= days_before_month(y, m) + d - 1 < year_len(y),
        days_from_epoch(y, m, d) == year_start(y) + days_before_month(y, m) + d - 1,
{
}

proof fn lemma_same_year(y: int, m1: int, d1: int, m2: int, d2: int)
    requires
        valid_date(y, m1, d1),
        valid_date(y, m2, d2),
        m1 < m2,
    ensures
        days_before_month(y, m1) + d1 < days_before_month(y, m2) + d2,
{
}

/// A day has one date: two valid dates that fall on the same day are the
/// same date, so the stamp of a time is fixed by the day it falls on.
pub proof fn lemma_one_date_per_day(y1: int, m1: int, d1: int, y2: int, m2: int, d2: int)
    requires
        valid_date(y1, m1, d1),
        valid_date(y2, m2, d2),
        days_from_epoch(y1, m1, d1) == days_from_epoch(y2, m2, d2),
    ensures
        y1 == y2 && m1 == m2 && d1 == d2,
{
    lemma_day_of_year(y1, m1, d1);
    lemma_day_of_year(y2, m2, d2);
    if y1 < y2 {
        lemma_year_order(y1, y2);
    } else if y2 < y1 {
        lemma_year_order(y2, y1);
    } else if m1 < m2 {
        lemma_same_year(y1, m1, d1, m2, d2);
    } else if m2 < m1 {
        lemma_same_year(y1, m2, d2, m1, d1);
    }
}

/// The date, in year, month and day, of a time in seconds since the epoch
/// (UTC), with no dependency on a time zone.
#[verifier::spinoff_prover]
#[verifier::rlimit(40)]
pub fn civil_date(secs: i64) -> (r: (i64, u64, u64))
    ensures
        valid_date(r.0 as int, r.1 as int, r.2 as int),
        days_from_epoch(r.0 as int, r.1 as int, r.2 as int) == secs as int / 86400,
{
    let shifted: u128 = (secs as i128 + 12622780800000000000i128) as u128;
    let days_shifted: u128 = shifted / 86400;
    let zs: u128 = days_shifted + 719468;
    let eras: u128 = zs / 146097;
    let doe: u128 = zs % 146097;
    let ghost days: int = secs as int / 86400;
    let ghost z: int = days + 719468;
    proof {
        assert(shifted == secs as int + 86400 * 146097000000000);
        assert(days_shifted == days + 146097000000000) by {
            assert((secs as int + 86400 * 146097000000000) / 86400 == secs as int / 86400 + 146097000000000);
        }
        assert(eras == z / 146097 + 1000000000);
        assert(doe == z % 146097);
    }
    let yoe: u128 = (doe - doe / 1460 + doe / 36524 - doe / 146096) / 365;
    let doy: u128 = doe - (365 * yoe + yoe / 4 - yoe / 100);
    let mp: u128 = (5 * doy + 2) / 153;
    let d: u128 = doy - (153 * mp + 2) / 5 + 1;
    let m: u128 = if mp < 10 { mp + 3 } else { mp - 9 };
    let era: i128 = eras as i128 - 1000000000;
    let y: i128 = yoe as i128 + era * 400 + if m <= 2 { 1i128 } else { 0i128 };
    proof {
        lemma_yoe(doe as int);
        lemma_civil(z / 146097, z % 146097);
    }
    (y as i64, m as u64, d as u64)
}

/// The four-digit year of a date stamp (`{y:04}`): zero-padded, with its
/// minus sign counted in the width.
pub open spec fn year_text(y: int) -> Seq<char> {
    if y < 0 {
        "-"@ + decimal_padded((-y) as nat, 3)
    } else {
        decimal_padded(y as nat, 4)
    }
}

/// `yyyymmdd` of a date.
pub open spec fn stamp_text(y: int, m: int, d: int) -> Seq<char> {
    year_text(y) + decimal_padded(m as nat, 2) + decimal_padded(d as nat, 2)
}

/// `yyyymmdd` of a time in seconds since the epoch (civil algorithm, no time zone).
pub fn date_stamp(secs: i64) -> (r: String)
    ensures
        exists|y: int, m: int, d: int|
            valid_date(y, m, d) && days_from_epoch(y, m, d) == secs as int / 86400 && r@
                == stamp_text(y, m, d),
{
    let (y, m, d) = civil_date(secs);
    let mut s = if y < 0 {
        let mut t = owned("-");
        push_str(&mut t, decimal_padded_string((-(y as i128)) as u64, 3).as_str());
        t
    } else {
        decimal_padded_string(y as u64, 4)
    };
    push_str(&mut s, decimal_padded_string(m, 2).as_str());
    push_str(&mut s, decimal_padded_string(d, 2).as_str());
    assert(s@ == stamp_text(y as int, m as int, d as int));
    s
}

/// The file of the daily backup taken at a time: `chat-<yyyymmdd>.db`.
pub fn backup_file_name(secs: i64) -> (r: String)
    ensures
        exists|y: int, m: int, d: int|
            valid_date(y, m, d) && days_from_epoch(y, m, d) == secs as int / 86400 && r@
                == "chat-"@ + stamp_text(y, m, d) + ".db"@,
{
    let stamp = date_stamp(secs);
    let mut s = owned("chat-");
    push_str(&mut s, stamp.as_str());
    push_str(&mut s, ".db");
    s
}

/// How many daily backups the rotation keeps.
pub const BACKUPS_KEPT: usize = 3;

pub open spec fn rotation_pred() -> spec_fn(Seq<char>) -> bool {
    |n: Seq<char>| "chat-"@.is_prefix_of(n)
}

/// The backups, in name order, that the rotation deletes: all of the files
/// named `chat-*` but the last three.
pub open spec fn rotation_prune(names: Seq<Seq<char>>) -> Seq<Seq<char>> {
    let s = names.filter(rotation_pred()).sort_by(lex_order());
    if s.len() > BACKUPS_KEPT {
        s.take(s.len() - BACKUPS_KEPT)
    } else {
        Seq::empty()
    }
}

/// The files of the backup folder (by name) that the daily rotation removes,
/// oldest first, so that the three newest stay.
pub fn backups_to_prune(names: &[String]) -> (r: Vec<String>)
    ensures
        texts(r@) == rotation_prune(texts(names@)),
{
    let ghost pred = rotation_pred();
    let mut list: Vec<String> = Vec::new();
    let mut i: usize = 0;
    while i < names.len()
        invariant
            i <= names.len(),
            pred == rotation_pred(),
            texts(list@) == texts(names@).take(i as int).filter(pred),
        decreases names.len() - i,
    {
        let ok = starts_with(names[i].as_str(), "chat-");
        proof {
            assert(texts(names@).take(i + 1) =~= texts(names@).take(i as int).push(names@[i as int]@));
            lemma_filter_push(texts(names@).take(i as int), names@[i as int]@, pred);
        }
        if ok {
            list.push(names[i].clone());
            assert(texts(list@) =~= texts(names@).take(i as int).filter(pred).push(names@[i as int]@));
        }
        i += 1;
    }
    assert(texts(names@).take(names.len() as int) =~= texts(names@));
    let sorted = sort_strings(list);
    let ghost all = texts(sorted@);
    proof {
        broadcast use vstd::seq_lib::group_to_multiset_ensures;
        lemma_lex_total_ordering();
        let f = texts(names@).filter(pred);
        f.lemma_sort_by_ensures(lex_order());
        assert(f.sort_by(lex_order()).to_multiset() == f.to_multiset());
        assert(f.to_multiset().len() == f.len());
        assert(f.sort_by(lex_order()).to_multiset().len() == f.sort_by(lex_order()).len());
        assert(all.len() == sorted.len());
    }
    let mut out: Vec<String> = Vec::new();
    if sorted.len() > BACKUPS_KEPT {
        let n: usize = sorted.len() - BACKUPS_KEPT;
        let mut j: usize = 0;
        while j < n
            invariant
                j <= n,
                n == sorted.len() - BACKUPS_KEPT,
                n < sorted.len(),
                all == texts(sorted@),
                out.len() == j,
                texts(out@) == all.take(j as int),
            decreases n - j,
        {
            out.push(sorted[j].clone());
            proof {
                assert(out@[j as int]@ == sorted@[j as int]@);
                assert(texts(out@) =~= all.take(j + 1));
            }
            j += 1;
        }
    } else {
        assert(texts(out@) =~= Seq::<Seq<char>>::empty());
    }
    out
}

/// The daily rotation deletes only backups (files named `chat-*` of the
/// folder), all of them but three, and never one of the three newest: the
/// latest copies always survive it.
pub proof fn lemma_rotation_keeps_newest(names: Seq<Seq<char>>)
    requires
        names.no_duplicates(),
    ensures
        ({
            let s = names.filter(rotation_pred()).sort_by(lex_order());
            let pruned = rotation_prune(names);
            &&& pruned.len() == (if s.len() > BACKUPS_KEPT {
                s.len() - BACKUPS_KEPT
            } else {
                0
            })
            &&& forall|i: int|
                0 <= i < pruned.len() ==> names.contains(#[trigger] pruned[i]) && "chat-"@.is_prefix_of(
                    pruned[i],
                )
            &&& forall|i: int|
                0 <= i < s.len() && i >= s.len() - BACKUPS_KEPT ==> !pruned.contains(#[trigger] s[i])
        }),
{
    broadcast use vstd::seq_lib::group_to_multiset_ensures;
    broadcast use vstd::seq_lib::group_filter_ensures;
    lemma_lex_total_ordering();
    let f = names.filter(rotation_pred());
    let s = f.sort_by(lex_order());
    f.lemma_sort_by_ensures(lex_order());
    assert(s.len() == s.to_multiset().len());
    assert(f.len() == f.to_multiset().len());
    crate::storage::lemma_filter_no_duplicates(names, rotation_pred());
    f.lemma_multiset_has_no_duplicates();
    s.lemma_multiset_has_no_duplicates_conv();
    let pruned = rotation_prune(names);
    assert forall|i: int| 0 <= i < pruned.len() implies names.contains(#[trigger] pruned[i])
        && "chat-"@.is_prefix_of(pruned[i]) by {
        assert(pruned[i] == s[i]);
        assert(s.to_multiset().count(s[i]) > 0);
        assert(f.contains(s[i]));
        let k = choose|k: int| 0 <= k < f.len() && f[k] == s[i];
        assert(rotation_pred()(f[k]));
        names.lemma_filter_contains_rev(rotation_pred(), f[k]);
    }
    assert forall|i: int| 0 <= i < s.len() && i >= s.len() - BACKUPS_KEPT implies !pruned.contains(
        #[trigger] s[i],
    ) by {
        if pruned.contains(s[i]) {
            let k = choose|k: int| 0 <= k < pruned.len() && pruned[k] == s[i];
            assert(s[k] == s[i]);
        }
    }
}

} // verus!
