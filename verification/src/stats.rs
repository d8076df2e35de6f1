//! Counting records by level, source, hour or field, and ranking values.
use crate::model::{level_label, record_views, GroupBy, LogLevel, LogRecord, RecordView};
use crate::strmap::{
    count_at, has_key, insert_pos, keys_sorted, lemma_insert_pos_props, lemma_map_insert,
    lemma_sorted_lookup, lookup, map_insert, StrMap,
};
use crate::text::{
    chars_of, lemma_text_lt_irreflexive, lemma_text_lt_total, lemma_text_lt_transitive, padded,
    padded_signed, padded_signed_text, padded_text, push_str, text_less, text_lt, views,
};
use crate::time::Timestamp;
use vstd::prelude::*;

verus! {

// ---------------------------------------------------------------------------
// Counting
// ---------------------------------------------------------------------------

/// How often `k` occurs in `keys`.
pub open spec fn occurrences(keys: Seq<Seq<char>>, k: Seq<char>) -> nat
    decreases keys.len(),
{
    if keys.len() == 0 {
        0
    } else {
        occurrences(keys.drop_last(), k) + if keys.last() == k {
            1nat
        } else {
            0nat
        }
    }
}

/// The counts of the keys, as a map sorted by key built one key at a time.
pub open spec fn tally(keys: Seq<Seq<char>>) -> Seq<(Seq<char>, usize)>
    decreases keys.len(),
{
    if keys.len() == 0 {
        Seq::empty()
    } else {
        let prev = tally(keys.drop_last());
        map_insert(prev, keys.last(), (count_at(prev, keys.last()) + 1) as usize)
    }
}

/// The sum of the counts.
pub open spec fn total(s: Seq<(Seq<char>, usize)>) -> nat
    decreases s.len(),
{
    if s.len() == 0 {
        0
    } else {
        total(s.drop_last()) + s.last().1 as nat
    }
}

/// A key occurs no more often than there are keys.
pub proof fn lemma_occurrences_bound(keys: Seq<Seq<char>>, k: Seq<char>)
    ensures
        occurrences(keys, k) <= keys.len(),
    decreases keys.len(),
{
    if keys.len() > 0 {
        lemma_occurrences_bound(keys.drop_last(), k);
    }
}

/// The sum over a concatenation.
pub proof fn lemma_total_concat(a: Seq<(Seq<char>, usize)>, b: Seq<(Seq<char>, usize)>)
    ensures
        total(a + b) == total(a) + total(b),
    decreases b.len(),
{
    if b.len() > 0 {
        assert((a + b).drop_last() =~= a + b.drop_last());
        lemma_total_concat(a, b.drop_last());
    } else {
        assert(a + b =~= a);
    }
}

/// The sum after storing `v` under `k`: the old count of `k` replaced by `v`.
pub proof fn lemma_total_map_insert(s: Seq<(Seq<char>, usize)>, k: Seq<char>, v: usize)
    requires
        keys_sorted(s),
    ensures
        total(map_insert(s, k, v)) + count_at(s, k) == total(s) + v,
{
    lemma_insert_pos_props(s, k);
    lemma_map_insert(s, k, v);
    let i = insert_pos(s, k);
    let one = seq![(k, v)];
    assert(total(one) == v) by {
        assert(one.drop_last() =~= Seq::<(Seq<char>, usize)>::empty());
        reveal_with_fuel(total, 2);
    }
    if i < s.len() && s[i].0 == k {
        lemma_sorted_lookup(s, i);
        let old_one = seq![s[i]];
        assert(total(old_one) == s[i].1) by {
            assert(old_one.drop_last() =~= Seq::<(Seq<char>, usize)>::empty());
            reveal_with_fuel(total, 2);
        }
        assert(map_insert(s, k, v) =~= s.take(i) + one + s.skip(i + 1));
        assert(s =~= s.take(i) + old_one + s.skip(i + 1));
        lemma_total_concat(s.take(i) + one, s.skip(i + 1));
        lemma_total_concat(s.take(i), one);
        lemma_total_concat(s.take(i) + old_one, s.skip(i + 1));
        lemma_total_concat(s.take(i), old_one);
    } else {
        assert forall|j: int| 0 <= j < s.len() implies s[j].0 != k by {
            lemma_text_lt_irreflexive(k);
            if i < s.len() {
                lemma_text_lt_total(k, s[i].0);
            }
            if j > i {
                lemma_text_lt_transitive(k, s[i].0, s[j].0);
            }
        }
        crate::strmap::lemma_lookup_absent(s, k);
        assert(map_insert(s, k, v) =~= s.take(i) + one + s.skip(i));
        assert(s =~= s.take(i) + s.skip(i));
        lemma_total_concat(s.take(i) + one, s.skip(i));
        lemma_total_concat(s.take(i), one);
        lemma_total_concat(s.take(i), s.skip(i));
    }
}

/// A tally is sorted by key, gives each key how often it occurs, and its
/// counts add up to the number of keys.
pub proof fn lemma_tally(keys: Seq<Seq<char>>)
    requires
        keys.len() <= usize::MAX,
    ensures
        keys_sorted(tally(keys)),
        forall|k: Seq<char>| #[trigger] count_at(tally(keys), k) == occurrences(keys, k),
        total(tally(keys)) == keys.len(),
    decreases keys.len(),
{
    if keys.len() > 0 {
        let prev = tally(keys.drop_last());
        let k0 = keys.last();
        lemma_tally(keys.drop_last());
        lemma_occurrences_bound(keys.drop_last(), k0);
        let c = count_at(prev, k0);
        lemma_map_insert(prev, k0, (c + 1) as usize);
        lemma_total_map_insert(prev, k0, (c + 1) as usize);
        assert forall|k: Seq<char>| #[trigger] count_at(tally(keys), k) == occurrences(keys, k) by {
            assert(lookup(tally(keys), k) == if k == k0 {
                Some((c + 1) as usize)
            } else {
                lookup(prev, k)
            });
            assert(count_at(prev, k) == occurrences(keys.drop_last(), k));
        }
    }
}

/// Grouped counts: every record is counted once, under its own key, so the
/// counts add up to the number of records.
pub proof fn lemma_group_counts(rs: Seq<RecordView>, g: GroupBy, field: Option<Seq<char>>)
    requires
        rs.len() <= usize::MAX,
    ensures
        total(tally(group_keys(rs, g, field))) == rs.len(),
        forall|k: Seq<char>| #[trigger] count_at(tally(group_keys(rs, g, field)), k) == occurrences(group_keys(rs, g, field), k),
        keys_sorted(tally(group_keys(rs, g, field))),
{
    lemma_tally(group_keys(rs, g, field));
}

/// The counts of the keys (see `tally`).
pub fn tally_keys(keys: &Vec<String>) -> (r: StrMap<usize>)
    ensures
        r@ == tally(views(keys@)),
{
    let ghost ks = views(keys@);
    let mut counts: StrMap<usize> = StrMap::new();
    for i in 0..keys.len()
        invariant
            ks == views(keys@),
            ks.len() == keys.len(),
            counts@ == tally(ks.take(i as int)),
    {
        proof {
            assert(ks.take(i + 1).drop_last() =~= ks.take(i as int));
            lemma_tally(ks.take(i as int));
            lemma_occurrences_bound(ks.take(i as int), ks[i as int]);
        }
        counts.increment(keys[i].clone());
    }
    assert(ks.take(keys.len() as int) =~= ks);
    counts
}

// ---------------------------------------------------------------------------
// Grouping
// ---------------------------------------------------------------------------

/// The key of a level count: the level's name, `UNKNOWN` without a level.
pub open spec fn level_key(l: Option<LogLevel>) -> Seq<char> {
    match l {
        Some(l) => level_label(l),
        None => "UNKNOWN"@,
    }
}

/// The key of an hour count: `YYYY-MM-DD HH:00` in the time's own offset,
/// `UNKNOWN_TIME` without a time.
pub open spec fn hour_key(t: Option<Timestamp>) -> Seq<char> {
    match t {
        Some(t) => padded_signed(t.local.year as int, 4) + seq!['-'] + padded(t.local.month as nat, 2)
            + seq!['-'] + padded(t.local.day as nat, 2) + seq![' '] + padded(t.local.hour as nat, 2)
            + ":00"@,
        None => "UNKNOWN_TIME"@,
    }
}

/// The key a record is counted under.
pub open spec fn group_key(r: RecordView, g: GroupBy, field: Option<Seq<char>>) -> Seq<char> {
    match g {
        GroupBy::Level => level_key(r.level),
        GroupBy::Source => r.source,
        GroupBy::Hour => hour_key(r.timestamp),
        GroupBy::Field => match field {
            Some(f) => match lookup(r.fields, f) {
                Some(v) => v,
                None => "MISSING"@,
            },
            None => "MISSING_FIELD_NAME"@,
        },
    }
}

/// The keys of the records, in order.
pub open spec fn group_keys(rs: Seq<RecordView>, g: GroupBy, field: Option<Seq<char>>) -> Seq<Seq<char>> {
    rs.map_values(|r: RecordView| group_key(r, g, field))
}

/// Views of an optional string slice.
pub open spec fn str_view(o: Option<&str>) -> Option<Seq<char>> {
    match o {
        Some(s) => Some(s@),
        None => None,
    }
}

/// The key of a level count.
pub fn level_key_text(level: Option<LogLevel>) -> (r: String)
    ensures
        r@ == level_key(level),
{
    match level {
        Some(l) => l.label().to_owned(),
        None => "UNKNOWN".to_owned(),
    }
}

/// The key a record is counted under (see `group_key`).
pub fn record_group_key(record: &LogRecord, group_by: GroupBy, field_name: Option<&str>) -> (r: String)
    ensures
        r@ == group_key(record@, group_by, str_view(field_name)),
{
    match group_by {
        GroupBy::Level => level_key_text(record.level),
        GroupBy::Source => record.source.clone(),
        GroupBy::Hour => match &record.timestamp {
            Some(t) => {
                let mut out = padded_signed_text(t.local.year as i64, 4);
                push_str(&mut out, "-");
                push_str(&mut out, padded_text(t.local.month as u64, 2).as_str());
                push_str(&mut out, "-");
                push_str(&mut out, padded_text(t.local.day as u64, 2).as_str());
                push_str(&mut out, " ");
                push_str(&mut out, padded_text(t.local.hour as u64, 2).as_str());
                push_str(&mut out, ":00");
                proof {
                    reveal_strlit("-");
                    reveal_strlit(" ");
                }
                out
            },
            None => "UNKNOWN_TIME".to_owned(),
        },
        GroupBy::Field => match field_name {
            Some(f) => {
                proof {
                    crate::model::lemma_text_fields_lookup(record.fields@, f@);
                }
                match record.fields.get(f) {
                    Some(v) => v.clone(),
                    None => "MISSING".to_owned(),
                }
            },
            None => "MISSING_FIELD_NAME".to_owned(),
        },
    }
}

/// The keys of the records under a grouping.
fn record_keys(records: &[LogRecord], group_by: GroupBy, field_name: Option<&str>) -> (r: Vec<String>)
    ensures
        views(r@) == group_keys(record_views(records@), group_by, str_view(field_name)),
{
    let mut keys: Vec<String> = Vec::new();
    for i in 0..records.len()
        invariant
            views(keys@) == group_keys(record_views(records@.take(i as int)), group_by, str_view(field_name)),
    {
        let k = record_group_key(&records[i], group_by, field_name);
        let ghost prev = keys@;
        keys.push(k);
        assert(record_views(records@.take(i + 1)) =~= record_views(records@.take(i as int)).push(records@[i as int]@));
        assert(views(keys@) =~= views(prev).push(k@));
        assert(views(keys@) =~= group_keys(record_views(records@.take(i + 1)), group_by, str_view(field_name)));
    }
    assert(records@.take(records.len() as int) =~= records@);
    keys
}

/// The number of records under each key of the grouping, by key.
pub fn group_records(records: &[LogRecord], group_by: GroupBy, field_name: Option<&str>) -> (r: StrMap<usize>)
    ensures
        r@ == tally(group_keys(record_views(records@), group_by, str_view(field_name))),
{
    let keys = record_keys(records, group_by, field_name);
    tally_keys(&keys)
}

// ---------------------------------------------------------------------------
// Ranking
// ---------------------------------------------------------------------------

/// Whether a counted value ranks before another: a higher count first, and
/// among equal counts the lower value in string order.
pub open spec fn ranks_before(a: (Seq<char>, usize), b: (Seq<char>, usize)) -> bool {
    a.1 > b.1 || (a.1 == b.1 && text_lt(a.0, b.0))
}

/// Where `x` goes in a ranked list: after every entry that ranks before it.
pub open spec fn rank_pos(s: Seq<(Seq<char>, usize)>, x: (Seq<char>, usize)) -> int
    decreases s.len(),
{
    if s.len() == 0 || !ranks_before(s[0], x) {
        0
    } else {
        1 + rank_pos(s.drop_first(), x)
    }
}

/// The entries ranked: each placed in turn after those ranking before it.
pub open spec fn rank_sort(s: Seq<(Seq<char>, usize)>) -> Seq<(Seq<char>, usize)>
    decreases s.len(),
{
    if s.len() == 0 {
        Seq::empty()
    } else {
        let prev = rank_sort(s.drop_last());
        prev.insert(rank_pos(prev, s.last()), s.last())
    }
}

/// The first `limit` entries of a ranked list.
pub open spec fn first_n<A>(s: Seq<A>, limit: nat) -> Seq<A> {
    if limit < s.len() {
        s.take(limit as int)
    } else {
        s
    }
}

/// The `limit` most frequent values with their counts, most frequent first,
/// ties in string order.
pub open spec fn top_entries(keys: Seq<Seq<char>>, limit: nat) -> Seq<(Seq<char>, usize)> {
    first_n(rank_sort(tally(keys)), limit)
}

/// Counted values with their texts taken by their views.
pub open spec fn count_pairs(v: Seq<(String, usize)>) -> Seq<(Seq<char>, usize)> {
    v.map_values(|e: (String, usize)| (e.0@, e.1))
}

/// The rank position is the first entry not ranking before `x`.
proof fn lemma_rank_pos(s: Seq<(Seq<char>, usize)>, x: (Seq<char>, usize), i: int)
    requires
        0 <= i <= s.len(),
        forall|j: int| 0 <= j < i ==> ranks_before(#[trigger] s[j], x),
        i == s.len() || !ranks_before(s[i], x),
    ensures
        rank_pos(s, x) == i,
    decreases s.len(),
{
    if i > 0 {
        assert(ranks_before(s[0], x));
        assert forall|j: int| 0 <= j < i - 1 implies ranks_before(#[trigger] s.drop_first()[j], x) by {
            assert(s.drop_first()[j] == s[j + 1]);
        }
        lemma_rank_pos(s.drop_first(), x, i - 1);
    }
}

/// Whether `a` ranks before `b` (see `ranks_before`).
fn ranks_before_exec(a: &(String, usize), b: &(String, usize)) -> (r: bool)
    ensures
        r == ranks_before((a.0@, a.1), (b.0@, b.1)),
{
    a.1 > b.1 || (a.1 == b.1 && text_less(a.0.as_str(), b.0.as_str()))
}

/// Places `x` into a ranked list after the entries ranking before it.
pub(crate) fn rank_insert(out: &mut Vec<(String, usize)>, x: (String, usize))
    ensures
        count_pairs(final(out)@) == count_pairs(old(out)@).insert(
            rank_pos(count_pairs(old(out)@), (x.0@, x.1)),
            (x.0@, x.1),
        ),
{
    let ghost s = count_pairs(out@);
    let mut j: usize = 0;
    while j < out.len() && ranks_before_exec(&out[j], &x)
        invariant
            j <= out.len(),
            s == count_pairs(out@),
            out@ == old(out)@,
            forall|k: int| 0 <= k < j ==> ranks_before(#[trigger] s[k], (x.0@, x.1)),
        decreases out.len() - j,
    {
        j += 1;
    }
    proof {
        lemma_rank_pos(s, (x.0@, x.1), j as int);
    }
    let ghost xv = (x.0@, x.1);
    out.insert(j, x);
    proof {
        s.insert_ensures(j as int, xv);
        assert(count_pairs(out@) =~= s.insert(j as int, xv));
    }
}

/// The `limit` most frequent values (see `top_entries`).
fn top_values(values: &Vec<String>, limit: usize) -> (r: Vec<(String, usize)>)
    ensures
        count_pairs(r@) == top_entries(views(values@), limit as nat),
{
    let counts = tally_keys(values);
    let ghost c = counts@;
    let mut ordered: Vec<(String, usize)> = Vec::new();
    assert(c.take(0) =~= Seq::<(Seq<char>, usize)>::empty());
    assert(count_pairs(ordered@) =~= Seq::<(Seq<char>, usize)>::empty());
    let n = counts.len();
    for i in 0..n
        invariant
            n == c.len(),
            c == counts@,
            count_pairs(ordered@) == rank_sort(c.take(i as int)),
    {
        let x = (counts.key_at(i).clone(), *counts.value_at(i));
        proof {
            assert(c.take(i + 1).drop_last() =~= c.take(i as int));
            assert(c.take(i + 1).last() == (x.0@, x.1));
        }
        rank_insert(&mut ordered, x);
    }
    assert(c.take(c.len() as int) =~= c);
    let ghost full = count_pairs(ordered@);
    ordered.truncate(limit);
    assert(count_pairs(ordered@) =~= first_n(full, limit as nat));
    ordered
}

/// No two entries share a value.
pub open spec fn distinct_names(s: Seq<(Seq<char>, usize)>) -> bool {
    forall|i: int, j: int| 0 <= i < j < s.len() ==> #[trigger] s[i].0 != #[trigger] s[j].0
}

/// Ranking is a strict order, total on entries with distinct values.
proof fn lemma_ranks_before_order(a: (Seq<char>, usize), b: (Seq<char>, usize))
    ensures
        !ranks_before(a, a),
        !(ranks_before(a, b) && ranks_before(b, a)),
        a.0 != b.0 ==> ranks_before(a, b) || ranks_before(b, a),
{
    lemma_text_lt_irreflexive(a.0);
    lemma_text_lt_total(a.0, b.0);
}

/// Ranking is transitive.
proof fn lemma_ranks_before_transitive(a: (Seq<char>, usize), b: (Seq<char>, usize), c: (Seq<char>, usize))
    requires
        ranks_before(a, b),
        ranks_before(b, c),
    ensures
        ranks_before(a, c),
{
    if a.1 == b.1 && b.1 == c.1 {
        lemma_text_lt_transitive(a.0, b.0, c.0);
    }
}

/// The rank position splits a list into the entries ranking before `x` and
/// the rest.
proof fn lemma_rank_pos_props(s: Seq<(Seq<char>, usize)>, x: (Seq<char>, usize))
    ensures
        0 <= rank_pos(s, x) <= s.len(),
        forall|j: int| 0 <= j < rank_pos(s, x) ==> ranks_before(#[trigger] s[j], x),
        rank_pos(s, x) < s.len() ==> !ranks_before(s[rank_pos(s, x)], x),
    decreases s.len(),
{
    if s.len() > 0 && ranks_before(s[0], x) {
        lemma_rank_pos_props(s.drop_first(), x);
        assert forall|j: int| 0 <= j < rank_pos(s, x) implies ranks_before(#[trigger] s[j], x) by {
            if j > 0 {
                assert(s[j] == s.drop_first()[j - 1]);
            }
        }
    }
}

/// Ranking a list of distinct values orders it strictly by rank and keeps
/// exactly its entries.
pub proof fn lemma_rank_sort(s: Seq<(Seq<char>, usize)>)
    requires
        distinct_names(s),
    ensures
        rank_sort(s).len() == s.len(),
        forall|x: (Seq<char>, usize)| #[trigger] rank_sort(s).contains(x) == s.contains(x),
        forall|i: int, j: int| 0 <= i < j < s.len() ==> ranks_before(#[trigger] rank_sort(s)[i], #[trigger] rank_sort(s)[j]),
    decreases s.len(),
{
    if s.len() > 0 {
        let d = s.drop_last();
        let x = s.last();
        assert(distinct_names(d));
        lemma_rank_sort(d);
        let prev = rank_sort(d);
        let p = rank_pos(prev, x);
        lemma_rank_pos_props(prev, x);
        prev.insert_ensures(p, x);
        let r = rank_sort(s);
        assert(r == prev.insert(p, x));
        assert forall|y: (Seq<char>, usize)| #[trigger] r.contains(y) == s.contains(y) by {
            if r.contains(y) {
                let k = choose|k: int| 0 <= k < r.len() && r[k] == y;
                if k < p {
                    assert(prev.contains(y));
                    assert(d.contains(y));
                    let m = choose|m: int| 0 <= m < d.len() && d[m] == y;
                    assert(s[m] == y);
                } else if k == p {
                    assert(s[s.len() - 1] == y);
                } else {
                    assert(r[k] == prev[k - 1]);
                    assert(prev.contains(y));
                    assert(d.contains(y));
                    let m = choose|m: int| 0 <= m < d.len() && d[m] == y;
                    assert(s[m] == y);
                }
            }
            if s.contains(y) {
                let m = choose|m: int| 0 <= m < s.len() && s[m] == y;
                if m == s.len() - 1 {
                    assert(r[p] == y);
                } else {
                    assert(d[m] == y);
                    assert(d.contains(y));
                    assert(prev.contains(y));
                    let k = choose|k: int| 0 <= k < prev.len() && prev[k] == y;
                    if k < p {
                        assert(r[k] == y);
                    } else {
                        assert(r[k + 1] == y);
                    }
                }
            }
        }
        // x's value differs from every value already ranked
        assert forall|k: int| 0 <= k < prev.len() implies prev[k].0 != x.0 by {
            assert(prev.contains(prev[k]));
            assert(d.contains(prev[k]));
            let m = choose|m: int| 0 <= m < d.len() && d[m] == prev[k];
            assert(s[m] == d[m]);
            assert(s[m].0 != s[s.len() - 1].0);
        }
        if p < prev.len() {
            lemma_ranks_before_order(prev[p], x);
        }
        assert forall|i: int, j: int| 0 <= i < j < s.len() implies ranks_before(#[trigger] r[i], #[trigger] r[j]) by {
            if j < p {
                assert(r[i] == prev[i] && r[j] == prev[j]);
            } else if j == p {
                assert(r[i] == prev[i]);
            } else if i == p {
                assert(r[j] == prev[j - 1]);
                if j - 1 > p {
                    lemma_ranks_before_transitive(x, prev[p], prev[j - 1]);
                }
            } else if i < p {
                assert(r[i] == prev[i] && r[j] == prev[j - 1]);
                if j - 1 > p {
                    lemma_ranks_before_transitive(x, prev[p], prev[j - 1]);
                }
                lemma_ranks_before_transitive(prev[i], x, prev[j - 1]);
            } else {
                assert(r[i] == prev[i - 1] && r[j] == prev[j - 1]);
            }
        }
    }
}

/// Every entry of a tally counts a value that occurs, by how often it occurs.
pub proof fn lemma_tally_entries(keys: Seq<Seq<char>>)
    requires
        keys.len() <= usize::MAX,
    ensures
        forall|i: int| 0 <= i < tally(keys).len() ==> (#[trigger] tally(keys)[i]).1 == occurrences(keys, tally(keys)[i].0)
            && tally(keys)[i].1 > 0,
        distinct_names(tally(keys)),
        forall|k: Seq<char>| occurrences(keys, k) > 0 ==> #[trigger] tally(keys).contains((k, occurrences(keys, k) as usize)),
    decreases keys.len(),
{
    lemma_tally(keys);
    let t = tally(keys);
    assert forall|i: int, j: int| 0 <= i < j < t.len() implies #[trigger] t[i].0 != #[trigger] t[j].0 by {
        lemma_text_lt_irreflexive(t[i].0);
    }
    if keys.len() > 0 {
        let d = keys.drop_last();
        let k0 = keys.last();
        lemma_tally_entries(d);
        lemma_tally(d);
        lemma_occurrences_bound(d, k0);
        let prev = tally(d);
        let c = count_at(prev, k0);
        lemma_map_insert(prev, k0, (c + 1) as usize);
        assert forall|i: int| 0 <= i < t.len() implies (#[trigger] t[i]).1 == occurrences(keys, t[i].0) && t[i].1 > 0 by {
            lemma_sorted_lookup(t, i);
            assert(count_at(t, t[i].0) == occurrences(keys, t[i].0));
            if t[i].0 != k0 {
                assert(lookup(prev, t[i].0) == Some(t[i].1));
                crate::strmap::lemma_lookup_found(prev, t[i].0);
                let m = choose|m: int| 0 <= m < prev.len() && prev[m].0 == t[i].0 && prev[m].1 == lookup(prev, t[i].0)->0;
                assert(prev[m].1 > 0);
            }
        }
    }
    assert forall|k: Seq<char>| occurrences(keys, k) > 0 implies #[trigger] t.contains((k, occurrences(keys, k) as usize)) by {
        assert(count_at(t, k) == occurrences(keys, k));
        assert(lookup(t, k) is Some);
        crate::strmap::lemma_lookup_found(t, k);
        let m = choose|m: int| 0 <= m < t.len() && t[m].0 == k && t[m].1 == lookup(t, k)->0;
        assert(t[m] == (k, occurrences(keys, k) as usize));
    }
}

/// The top values: at most `limit` of them (fewer only when fewer values
/// occur), most frequent first with ties in string order, each with how often
/// it occurs; any value left out ranks after every value shown.
pub proof fn lemma_top_entries(keys: Seq<Seq<char>>, limit: nat)
    requires
        keys.len() <= usize::MAX,
    ensures
        top_entries(keys, limit).len() == if limit < tally(keys).len() { limit } else { tally(keys).len() },
        forall|i: int, j: int| 0 <= i < j < top_entries(keys, limit).len() ==> ranks_before(
            #[trigger] top_entries(keys, limit)[i],
            #[trigger] top_entries(keys, limit)[j],
        ),
        forall|i: int| 0 <= i < top_entries(keys, limit).len() ==> (#[trigger] top_entries(keys, limit)[i]).1
            == occurrences(keys, top_entries(keys, limit)[i].0) && top_entries(keys, limit)[i].1 > 0,
        forall|k: Seq<char>, i: int| occurrences(keys, k) > 0 && 0 <= i < top_entries(keys, limit).len()
            && !top_entries(keys, limit).contains((k, occurrences(keys, k) as usize)) ==> ranks_before(
            #[trigger] top_entries(keys, limit)[i],
            (k, #[trigger] occurrences(keys, k) as usize),
        ),
{
    lemma_tally_entries(keys);
    let t = tally(keys);
    lemma_rank_sort(t);
    let r = rank_sort(t);
    let top = top_entries(keys, limit);
    assert forall|i: int| 0 <= i < top.len() implies (#[trigger] top[i]).1 == occurrences(keys, top[i].0) && top[i].1 > 0 by {
        assert(top[i] == r[i]);
        assert(r.contains(r[i]));
        assert(t.contains(r[i]));
        let m = choose|m: int| 0 <= m < t.len() && t[m] == r[i];
        assert(t[m].1 == occurrences(keys, t[m].0));
    }
    assert forall|i: int, j: int| 0 <= i < j < top.len() implies ranks_before(#[trigger] top[i], #[trigger] top[j]) by {
        assert(top[i] == r[i] && top[j] == r[j]);
    }
    assert forall|k: Seq<char>, i: int| occurrences(keys, k) > 0 && 0 <= i < top.len()
        && !top.contains((k, occurrences(keys, k) as usize)) implies ranks_before(
        #[trigger] top[i],
        (k, #[trigger] occurrences(keys, k) as usize),
    ) by {
        let e = (k, occurrences(keys, k) as usize);
        assert(t.contains(e));
        assert(r.contains(e));
        let p = choose|p: int| 0 <= p < r.len() && r[p] == e;
        if p < top.len() {
            assert(top[p] == e);
        }
        assert(top[i] == r[i]);
    }
}

/// The values of a field among the records that have it, in order.
pub open spec fn present_values(rs: Seq<RecordView>, field: Seq<char>) -> Seq<Seq<char>>
    decreases rs.len(),
{
    if rs.len() == 0 {
        Seq::empty()
    } else {
        let prev = present_values(rs.drop_last(), field);
        match lookup(rs.last().fields, field) {
            Some(v) => prev.push(v),
            None => prev,
        }
    }
}

/// The `limit` most frequent values of a field among the records that have it.
pub fn top_field_values(records: &[LogRecord], field: &str, limit: usize) -> (r: Vec<(String, usize)>)
    ensures
        count_pairs(r@) == top_entries(present_values(record_views(records@), field@), limit as nat),
{
    let ghost rs = record_views(records@);
    let mut values: Vec<String> = Vec::new();
    for i in 0..records.len()
        invariant
            rs == record_views(records@),
            views(values@) == present_values(rs.take(i as int), field@),
    {
        proof {
            assert(rs.take(i + 1).drop_last() =~= rs.take(i as int));
            assert(rs.take(i + 1).last() == records@[i as int]@);
            crate::model::lemma_text_fields_lookup(records@[i as int].fields@, field@);
        }
        if let Some(v) = records[i].fields.get(field) {
            let ghost prev = values@;
            values.push(v.clone());
            assert(views(values@) =~= views(prev).push(v@));
        }
    }
    assert(rs.take(records.len() as int) =~= rs);
    top_values(&values, limit)
}

/// The `limit` most frequent values of a field, records without it counted
/// under `MISSING`.
pub fn top_field_values_including_missing(records: &[LogRecord], field: &str, limit: usize) -> (r: Vec<(String, usize)>)
    ensures
        count_pairs(r@) == top_entries(group_keys(record_views(records@), GroupBy::Field, Some(field@)), limit as nat),
{
    let keys = record_keys(records, GroupBy::Field, Some(field));
    top_values(&keys, limit)
}

// ---------------------------------------------------------------------------
// Summaries
// ---------------------------------------------------------------------------

/// Something that takes in items one at a time and then yields a result.
pub trait Aggregator<T> {
    type Output;

    /// Whether one more item can be taken in.
    spec fn can_add(&self, item: &T) -> bool;

    /// Takes in one item.
    fn add(&mut self, item: &T)
        requires
            old(self).can_add(item),
    ;

    /// The result of the items taken in.
    fn finish(self) -> Self::Output;
}

/// Counts records by level name (`UNKNOWN` without a level).
#[derive(Debug)]
pub struct CountByLevel {
    counts: StrMap<usize>,
}

impl View for CountByLevel {
    type V = Seq<(Seq<char>, usize)>;

    closed spec fn view(&self) -> Seq<(Seq<char>, usize)> {
        self.counts@
    }
}

impl Default for CountByLevel {
    fn default() -> (r: CountByLevel)
        ensures
            r@ == Seq::<(Seq<char>, usize)>::empty(),
    {
        CountByLevel { counts: StrMap::new() }
    }
}

impl Aggregator<LogRecord> for CountByLevel {
    type Output = StrMap<usize>;

    open spec fn can_add(&self, item: &LogRecord) -> bool {
        count_at(self@, level_key(item.level)) < usize::MAX
    }

    fn add(&mut self, item: &LogRecord)
        ensures
            final(self)@ == map_insert(old(self)@, level_key(item.level), (count_at(old(self)@, level_key(item.level)) + 1) as usize),
    {
        let key = level_key_text(item.level);
        self.counts.increment(key);
    }

    fn finish(self) -> (r: StrMap<usize>)
        ensures
            r@ == self@,
    {
        self.counts
    }
}

/// The counts a level counter holds after taking in the records one by
/// one, starting from `start`: each record adds one under its level key.
pub open spec fn levels_added(start: Seq<(Seq<char>, usize)>, rs: Seq<RecordView>) -> Seq<(Seq<char>, usize)>
    decreases rs.len(),
{
    if rs.len() == 0 {
        start
    } else {
        let prev = levels_added(start, rs.drop_last());
        let k = level_key(rs.last().level);
        map_insert(prev, k, (count_at(prev, k) + 1) as usize)
    }
}

/// Feeding every record, in order, to a fresh level counter counts them as
/// grouping by level does: each level name (`UNKNOWN` without a level) with
/// its number of records, nothing for no records; and every record can be
/// taken in, as no count reaches its limit on the way.
pub proof fn lemma_count_by_level(rs: Seq<RecordView>)
    requires
        rs.len() <= usize::MAX,
    ensures
        levels_added(Seq::empty(), rs) == tally(group_keys(rs, GroupBy::Level, None)),
        forall|i: int| 0 <= i < rs.len() ==> count_at(#[trigger] levels_added(Seq::empty(), rs.take(i)), level_key(rs[i].level))
            < usize::MAX,
    decreases rs.len(),
{
    let keys = group_keys(rs, GroupBy::Level, None);
    if rs.len() > 0 {
        let prev = rs.drop_last();
        lemma_count_by_level(prev);
        assert(group_keys(prev, GroupBy::Level, None) =~= keys.drop_last());
    }
    assert forall|i: int| 0 <= i < rs.len() implies count_at(#[trigger] levels_added(Seq::empty(), rs.take(i)), level_key(rs[i].level))
        < usize::MAX by {
        let pre = rs.take(i);
        lemma_levels_added_prefix(rs, i);
        lemma_tally(group_keys(pre, GroupBy::Level, None));
        lemma_occurrences_bound(group_keys(pre, GroupBy::Level, None), level_key(rs[i].level));
    }
}

/// A prefix of the records is counted as grouping the prefix by level.
proof fn lemma_levels_added_prefix(rs: Seq<RecordView>, i: int)
    requires
        0 <= i <= rs.len(),
        rs.len() <= usize::MAX,
    ensures
        levels_added(Seq::empty(), rs.take(i)) == tally(group_keys(rs.take(i), GroupBy::Level, None)),
    decreases i,
{
    if i > 0 {
        lemma_levels_added_prefix(rs, i - 1);
        assert(rs.take(i).drop_last() =~= rs.take(i - 1));
        assert(group_keys(rs.take(i), GroupBy::Level, None).drop_last() =~= group_keys(rs.take(i - 1), GroupBy::Level, None));
    }
}

/// Counts and rankings over a set of records.
#[derive(Debug)]
pub struct Summary {
    pub total: usize,
    pub level_counts: StrMap<usize>,
    pub grouped_counts: StrMap<usize>,
    pub source_counts: StrMap<usize>,
    pub top_sources: Vec<(String, usize)>,
    pub top_field_name: Option<String>,
    pub top_field_values: Vec<(String, usize)>,
}

/// The sources of the records, in order.
pub open spec fn sources(rs: Seq<RecordView>) -> Seq<Seq<char>> {
    rs.map_values(|r: RecordView| r.source)
}

/// Counts by level, by the chosen grouping and by source; the `top_n` most
/// frequent sources; and, where a field is named, its `top_n` most frequent
/// values, records without it counted under `MISSING`.
pub fn summarize(
    records: &[LogRecord],
    group_by: GroupBy,
    group_field: Option<&str>,
    top_n: usize,
    top_field: Option<&str>,
) -> (r: Summary)
    ensures
        r.total == records@.len(),
        r.level_counts@ == tally(group_keys(record_views(records@), GroupBy::Level, None)),
        r.grouped_counts@ == tally(group_keys(record_views(records@), group_by, str_view(group_field))),
        r.source_counts@ == tally(group_keys(record_views(records@), GroupBy::Source, None)),
        count_pairs(r.top_sources@) == top_entries(sources(record_views(records@)), top_n as nat),
        crate::filter::opt_view(r.top_field_name) == str_view(top_field),
        count_pairs(r.top_field_values@) == match top_field {
            Some(f) => top_entries(group_keys(record_views(records@), GroupBy::Field, Some(f@)), top_n as nat),
            None => Seq::<(Seq<char>, usize)>::empty(),
        },
{
    let ghost lk = group_keys(record_views(records@), GroupBy::Level, None);
    let mut level_counter = CountByLevel::default();
    for i in 0..records.len()
        invariant
            lk == group_keys(record_views(records@), GroupBy::Level, None),
            level_counter@ == tally(lk.take(i as int)),
    {
        proof {
            assert(lk.take(i + 1).drop_last() =~= lk.take(i as int));
            assert(lk.take(i + 1).last() == level_key(records@[i as int].level));
            lemma_tally(lk.take(i as int));
            lemma_occurrences_bound(lk.take(i as int), level_key(records@[i as int].level));
        }
        level_counter.add(&records[i]);
    }
    assert(lk.take(records.len() as int) =~= lk);
    let mut source_list: Vec<String> = Vec::new();
    for i in 0..records.len()
        invariant
            views(source_list@) == sources(record_views(records@.take(i as int))),
    {
        let ghost prev = source_list@;
        source_list.push(records[i].source.clone());
        assert(record_views(records@.take(i + 1)) =~= record_views(records@.take(i as int)).push(records@[i as int]@));
        assert(views(source_list@) =~= views(prev).push(records@[i as int].source@));
        assert(views(source_list@) =~= sources(record_views(records@.take(i + 1))));
    }
    assert(records@.take(records.len() as int) =~= records@);
    let top_field_values = match top_field {
        Some(field) => top_field_values_including_missing(records, field, top_n),
        None => Vec::new(),
    };
    assert(top_field is None ==> count_pairs(top_field_values@) =~= Seq::<(Seq<char>, usize)>::empty());
    Summary {
        total: records.len(),
        level_counts: level_counter.finish(),
        grouped_counts: group_records(records, group_by, group_field),
        source_counts: group_records(records, GroupBy::Source, None),
        top_sources: top_values(&source_list, top_n),
        top_field_name: match top_field {
            Some(f) => Some(f.to_owned()),
            None => None,
        },
        top_field_values,
    }
}

} // verus!
