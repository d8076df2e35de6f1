//! Data quality: parse issues by source and reason, missing times and
//! levels, the checks a quality score is made of, and a catalogue of structured fields.
use crate::model::{issue_views, record_views, IssueView, LogRecord, ParseIssue, RecordView};
use crate::stats::{
    count_pairs, total, first_n, lemma_occurrences_bound, lemma_tally, present_values, rank_sort, tally,
    tally_keys,
};
use crate::strmap::{lookup, StrMap};
use crate::text::{
    chars_of, find_char, find_char_exec, slice_chars, string_from, trim, trim_bounds, views,
};
use vstd::prelude::*;

verus! {

// ---------------------------------------------------------------------------
// Parse issues
// ---------------------------------------------------------------------------

/// The sources of the issues, in order.
pub open spec fn issue_sources(is: Seq<IssueView>) -> Seq<Seq<char>> {
    is.map_values(|i: IssueView| i.source)
}

/// The category of an issue reason: the text before the first `:`, trimmed;
/// `unknown issue` where that is empty.
pub open spec fn reason_key(reason: Seq<char>) -> Seq<char> {
    let head = match find_char(reason, ':') {
        Some(i) => reason.take(i),
        None => reason,
    };
    if trim(head).len() == 0 {
        "unknown issue"@
    } else {
        trim(head)
    }
}

/// The categories of the issues' reasons, in order.
pub open spec fn issue_reasons(is: Seq<IssueView>) -> Seq<Seq<char>> {
    is.map_values(|i: IssueView| reason_key(i.reason))
}

/// The number of issues from each source, by source.
pub fn count_issue_sources(issues: &[ParseIssue]) -> (r: StrMap<usize>)
    ensures
        r@ == tally(issue_sources(issue_views(issues@))),
{
    let mut keys: Vec<String> = Vec::new();
    for i in 0..issues.len()
        invariant
            views(keys@) == issue_sources(issue_views(issues@.take(i as int))),
    {
        let ghost prev = keys@;
        keys.push(issues[i].source.clone());
        assert(issue_views(issues@.take(i + 1)) =~= issue_views(issues@.take(i as int)).push(issues@[i as int]@));
        assert(views(keys@) =~= views(prev).push(issues@[i as int].source@));
    }
    assert(issues@.take(issues.len() as int) =~= issues@);
    tally_keys(&keys)
}

/// The category of an issue reason (see `reason_key`).
fn normalize_reason(reason: &str) -> (r: String)
    ensures
        r@ == reason_key(reason@),
{
    let v = chars_of(reason);
    let head = match find_char_exec(&v, ':') {
        Some(i) => {
            proof {
                crate::text::lemma_find_char(v@, ':');
            }
            slice_chars(&v, 0, i)
        },
        None => slice_chars(&v, 0, v.len()),
    };
    assert(v@.subrange(0, v@.len() as int) =~= v@);
    let (lo, hi) = trim_bounds(&head);
    if lo == hi {
        "unknown issue".to_owned()
    } else {
        string_from(&head, lo, hi)
    }
}

/// The number of issues in each category of reason, by category.
pub fn count_issue_reasons(issues: &[ParseIssue]) -> (r: StrMap<usize>)
    ensures
        r@ == tally(issue_reasons(issue_views(issues@))),
{
    let mut keys: Vec<String> = Vec::new();
    for i in 0..issues.len()
        invariant
            views(keys@) == issue_reasons(issue_views(issues@.take(i as int))),
    {
        let ghost prev = keys@;
        let k = normalize_reason(issues[i].reason.as_str());
        keys.push(k);
        assert(issue_views(issues@.take(i + 1)) =~= issue_views(issues@.take(i as int)).push(issues@[i as int]@));
        assert(views(keys@) =~= views(prev).push(k@));
    }
    assert(issues@.take(issues.len() as int) =~= issues@);
    tally_keys(&keys)
}

// ---------------------------------------------------------------------------
// Fields
// ---------------------------------------------------------------------------

/// What is known of one structured field over a set of records.
#[derive(Debug)]
pub struct FieldSummary {
    pub name: String,
    pub present_count: usize,
    pub missing_count: usize,
    pub unique_value_count: usize,
    pub sample_values: Vec<String>,
}

/// A field summary with its texts taken by their views.
pub struct FieldSummaryView {
    pub name: Seq<char>,
    pub present_count: usize,
    pub missing_count: usize,
    pub unique_value_count: usize,
    pub sample_values: Seq<Seq<char>>,
}

impl View for FieldSummary {
    type V = FieldSummaryView;

    open spec fn view(&self) -> FieldSummaryView {
        FieldSummaryView {
            name: self.name@,
            present_count: self.present_count,
            missing_count: self.missing_count,
            unique_value_count: self.unique_value_count,
            sample_values: views(self.sample_values@),
        }
    }
}

/// Views of field summaries.
pub open spec fn summary_views(s: Seq<FieldSummary>) -> Seq<FieldSummaryView> {
    s.map_values(|f: FieldSummary| f@)
}

/// The non-empty texts, in order.
pub open spec fn nonempty(vals: Seq<Seq<char>>) -> Seq<Seq<char>>
    decreases vals.len(),
{
    if vals.len() == 0 {
        Seq::empty()
    } else if vals.last().len() > 0 {
        nonempty(vals.drop_last()).push(vals.last())
    } else {
        nonempty(vals.drop_last())
    }
}

/// The distinct texts in string order.
pub open spec fn distinct_sorted(vals: Seq<Seq<char>>) -> Seq<Seq<char>> {
    tally(vals).map_values(|e: (Seq<char>, usize)| e.0)
}

/// The summary of one field: how many records have it and how many do not,
/// how many distinct non-empty values it takes, and the first five of those
/// in string order.
pub open spec fn field_summary(rs: Seq<RecordView>, name: Seq<char>) -> FieldSummaryView {
    let present = present_values(rs, name);
    let distinct = distinct_sorted(nonempty(present));
    FieldSummaryView {
        name,
        present_count: present.len() as usize,
        missing_count: (rs.len() - present.len()) as usize,
        unique_value_count: distinct.len() as usize,
        sample_values: first_n(distinct, 5),
    }
}

/// The field names of the records, record after record, each record's in
/// its own order.
pub open spec fn field_name_list(rs: Seq<RecordView>) -> Seq<Seq<char>>
    decreases rs.len(),
{
    if rs.len() == 0 {
        Seq::empty()
    } else {
        field_name_list(rs.drop_last()) + rs.last().fields.map_values(|e: (Seq<char>, Seq<char>)| e.0)
    }
}

/// Each distinct field name with the number of records that have it, in
/// string order of the names.
pub open spec fn field_presence(rs: Seq<RecordView>) -> Seq<(Seq<char>, usize)> {
    distinct_sorted(field_name_list(rs)).map_values(|n: Seq<char>| (n, present_values(rs, n).len() as usize))
}

/// The summaries of the `limit` most common fields: most records first,
/// ties in string order of the names.
pub open spec fn catalog(rs: Seq<RecordView>, limit: nat) -> Seq<FieldSummaryView> {
    first_n(rank_sort(field_presence(rs)), limit).map_values(|p: (Seq<char>, usize)| field_summary(rs, p.0))
}

/// There are no more present values than records.
proof fn lemma_present_values_len(rs: Seq<RecordView>, name: Seq<char>)
    ensures
        present_values(rs, name).len() <= rs.len(),
    decreases rs.len(),
{
    if rs.len() > 0 {
        lemma_present_values_len(rs.drop_last(), name);
    }
}

/// The texts of a list, empty ones dropped.
fn nonempty_texts(vals: &Vec<String>) -> (r: Vec<String>)
    ensures
        views(r@) == nonempty(views(vals@)),
{
    let ghost vs = views(vals@);
    let mut out: Vec<String> = Vec::new();
    for i in 0..vals.len()
        invariant
            vs == views(vals@),
            views(out@) == nonempty(vs.take(i as int)),
    {
        proof {
            assert(vs.take(i + 1).drop_last() =~= vs.take(i as int));
            assert(vs.take(i + 1).last() == vals@[i as int]@);
        }
        if !vals[i].as_str().is_empty() {
            let ghost prev = out@;
            out.push(vals[i].clone());
            assert(views(out@) =~= views(prev).push(vals@[i as int]@));
        }
    }
    assert(vs.take(vals.len() as int) =~= vs);
    out
}

/// The values of a field among the records that have it.
fn field_values(records: &[LogRecord], name: &str) -> (r: Vec<String>)
    ensures
        views(r@) == present_values(record_views(records@), name@),
{
    let ghost rs = record_views(records@);
    let mut values: Vec<String> = Vec::new();
    for i in 0..records.len()
        invariant
            rs == record_views(records@),
            views(values@) == present_values(rs.take(i as int), name@),
    {
        proof {
            assert(rs.take(i + 1).drop_last() =~= rs.take(i as int));
            assert(rs.take(i + 1).last() == records@[i as int]@);
            crate::model::lemma_text_fields_lookup(records@[i as int].fields@, name@);
        }
        if let Some(v) = records[i].fields.get(name) {
            let ghost prev = values@;
            values.push(v.clone());
            assert(views(values@) =~= views(prev).push(v@));
        }
    }
    assert(rs.take(records.len() as int) =~= rs);
    values
}

/// The keys of a count map, in order.
fn map_keys(m: &StrMap<usize>) -> (r: Vec<String>)
    ensures
        views(r@) == m@.map_values(|e: (Seq<char>, usize)| e.0),
{
    let mut out: Vec<String> = Vec::new();
    let n = m.len();
    for i in 0..n
        invariant
            n == m@.len(),
            views(out@) == m@.take(i as int).map_values(|e: (Seq<char>, usize)| e.0),
    {
        let ghost prev = out@;
        let k = m.key_at(i).clone();
        out.push(k);
        assert(views(out@) =~= views(prev).push(k@));
        assert(views(out@) =~= m@.take(i + 1).map_values(|e: (Seq<char>, usize)| e.0));
    }
    assert(m@.take(n as int) =~= m@);
    out
}

/// The summary of one field (see `field_summary`).
fn summarize_field(records: &[LogRecord], name: &str) -> (r: FieldSummary)
    ensures
        r@ == field_summary(record_views(records@), name@),
{
    let values = field_values(records, name);
    proof {
        lemma_present_values_len(record_views(records@), name@);
    }
    let present_count = values.len();
    let filled = nonempty_texts(&values);
    let distinct = map_keys(&tally_keys(&filled));
    let mut samples: Vec<String> = Vec::new();
    let k = if distinct.len() < 5 {
        distinct.len()
    } else {
        5
    };
    for i in 0..k
        invariant
            k <= distinct.len(),
            views(samples@) == views(distinct@).take(i as int),
    {
        let ghost prev = samples@;
        samples.push(distinct[i].clone());
        assert(views(samples@) =~= views(prev).push(distinct@[i as int]@));
        assert(views(samples@) =~= views(distinct@).take(i + 1));
    }
    assert(views(samples@) =~= first_n(views(distinct@), 5));
    FieldSummary {
        name: name.to_owned(),
        present_count,
        missing_count: records.len() - present_count,
        unique_value_count: distinct.len(),
        sample_values: samples,
    }
}

/// The field names of all records, in order (see `field_name_list`).
fn all_field_names(records: &[LogRecord]) -> (r: Vec<String>)
    ensures
        views(r@) == field_name_list(record_views(records@)),
{
    let ghost rs = record_views(records@);
    let mut names: Vec<String> = Vec::new();
    for i in 0..records.len()
        invariant
            rs == record_views(records@),
            views(names@) == field_name_list(rs.take(i as int)),
    {
        proof {
            assert(rs.take(i + 1).drop_last() =~= rs.take(i as int));
            assert(rs.take(i + 1).last() == records@[i as int]@);
        }
        let fields = &records[i].fields;
        let ghost base = names@;
        let ghost fv = rs[i as int].fields;
        let n = fields.len();
        for j in 0..n
            invariant
                n == fields@.len(),
                fv == crate::model::text_fields(fields@),
                views(names@) == views(base) + fv.take(j as int).map_values(|e: (Seq<char>, Seq<char>)| e.0),
        {
            let ghost prev = names@;
            let k = fields.key_at(j).clone();
            names.push(k);
            assert(views(names@) =~= views(prev).push(k@));
            assert(fv[j as int].0 == k@);
            assert(views(names@) =~= views(base) + fv.take(j + 1).map_values(|e: (Seq<char>, Seq<char>)| e.0));
        }
        assert(fv.take(n as int) =~= fv);
    }
    assert(rs.take(records.len() as int) =~= rs);
    names
}

/// The summaries of the `limit` fields present in most records, most records
/// first, ties in string order (see `catalog`).
pub fn field_catalog(records: &[LogRecord], limit: usize) -> (r: Vec<FieldSummary>)
    ensures
        summary_views(r@) == catalog(record_views(records@), limit as nat),
{
    let ghost rs = record_views(records@);
    let names = map_keys(&tally_keys(&all_field_names(records)));
    let ghost presence = field_presence(rs);
    let mut ranked: Vec<(String, usize)> = Vec::new();
    for i in 0..names.len()
        invariant
            rs == record_views(records@),
            presence == field_presence(rs),
            views(names@) == distinct_sorted(field_name_list(rs)),
            count_pairs(ranked@) == rank_sort(presence.take(i as int)),
    {
        let values = field_values(records, names[i].as_str());
        proof {
            lemma_present_values_len(rs, names@[i as int]@);
            assert(presence.take(i + 1).drop_last() =~= presence.take(i as int));
            assert(presence.take(i + 1).last() == (names@[i as int]@, values@.len() as usize));
        }
        crate::stats::rank_insert(&mut ranked, (names[i].clone(), values.len()));
    }
    assert(presence.take(names.len() as int) =~= presence);
    ranked.truncate(limit);
    let ghost chosen = count_pairs(ranked@);
    assert(chosen =~= first_n(rank_sort(presence), limit as nat));
    let mut out: Vec<FieldSummary> = Vec::new();
    for i in 0..ranked.len()
        invariant
            rs == record_views(records@),
            chosen == count_pairs(ranked@),
            summary_views(out@) == chosen.take(i as int).map_values(|p: (Seq<char>, usize)| field_summary(rs, p.0)),
    {
        let s = summarize_field(records, ranked[i].0.as_str());
        let ghost prev = out@;
        out.push(s);
        assert(summary_views(out@) =~= summary_views(prev).push(s@));
        assert(summary_views(out@) =~= chosen.take(i + 1).map_values(|p: (Seq<char>, usize)| field_summary(rs, p.0)));
    }
    assert(chosen.take(ranked@.len() as int) =~= chosen);
    out
}

// ---------------------------------------------------------------------------
// The whole dataset
// ---------------------------------------------------------------------------

/// The number of records without a time.
pub open spec fn missing_timestamps(rs: Seq<RecordView>) -> nat
    decreases rs.len(),
{
    if rs.len() == 0 {
        0
    } else {
        missing_timestamps(rs.drop_last()) + if rs.last().timestamp is None {
            1nat
        } else {
            0nat
        }
    }
}

/// The number of records without a level.
pub open spec fn missing_levels(rs: Seq<RecordView>) -> nat
    decreases rs.len(),
{
    if rs.len() == 0 {
        0
    } else {
        missing_levels(rs.drop_last()) + if rs.last().level is None {
            1nat
        } else {
            0nat
        }
    }
}

/// The checks the quality score is the share of: two per record (a time,
/// a level) and one per parse issue.
pub open spec fn total_checks(records: nat, issues: nat) -> nat {
    2 * records + issues
}

/// The checks that passed: the times and levels the records have.
pub open spec fn passed_checks(records: nat, missing_ts: nat, missing_lv: nat) -> nat {
    (2 * records - missing_ts - missing_lv) as nat
}

/// The data quality of a dataset.
#[derive(Debug)]
pub struct Diagnostics {
    pub parse_issue_count: usize,
    pub issues_by_source: StrMap<usize>,
    pub issues_by_reason: StrMap<usize>,
    pub missing_timestamp_count: usize,
    pub missing_level_count: usize,
    /// The checks that passed (see `passed_checks`).
    pub passed_checks: u128,
    /// All checks (see `total_checks`); the quality score is the share of
    /// them that passed, 100% where there are none.
    pub total_checks: u128,
    pub field_catalog: Vec<FieldSummary>,
}

/// Missing counts are bounded by the number of records.
pub proof fn lemma_missing_bounds(rs: Seq<RecordView>)
    ensures
        missing_timestamps(rs) <= rs.len(),
        missing_levels(rs) <= rs.len(),
    decreases rs.len(),
{
    if rs.len() > 0 {
        lemma_missing_bounds(rs.drop_last());
    }
}

/// The checks that passed and all checks (see `passed_checks` and
/// `total_checks`).
fn check_counts(records: usize, missing_ts: usize, missing_lv: usize, issues: usize) -> (r: (u128, u128))
    requires
        missing_ts <= records,
        missing_lv <= records,
    ensures
        r.0 == passed_checks(records as nat, missing_ts as nat, missing_lv as nat),
        r.1 == total_checks(records as nat, issues as nat),
{
    let total: u128 = 2 * (records as u128) + (issues as u128);
    let passed: u128 = 2 * (records as u128) - (missing_ts as u128) - (missing_lv as u128);
    (passed, total)
}

/// The number of records without a time, and without a level.
fn count_missing(records: &[LogRecord]) -> (r: (usize, usize))
    ensures
        r.0 == missing_timestamps(record_views(records@)),
        r.1 == missing_levels(record_views(records@)),
        r.0 <= records@.len(),
        r.1 <= records@.len(),
{
    let ghost rs = record_views(records@);
    let mut ts: usize = 0;
    let mut lv: usize = 0;
    for i in 0..records.len()
        invariant
            rs == record_views(records@),
            ts == missing_timestamps(rs.take(i as int)),
            lv == missing_levels(rs.take(i as int)),
            ts <= i,
            lv <= i,
    {
        proof {
            assert(rs.take(i + 1).drop_last() =~= rs.take(i as int));
            assert(rs.take(i + 1).last() == records@[i as int]@);
        }
        if records[i].timestamp.is_none() {
            ts += 1;
        }
        if records[i].level.is_none() {
            lv += 1;
        }
    }
    assert(rs.take(records.len() as int) =~= rs);
    (ts, lv)
}

/// The data quality of records and issues, with a catalogue of at most
/// `field_limit` fields.
pub fn analyze_dataset(records: &[LogRecord], issues: &[ParseIssue], field_limit: usize) -> (r: Diagnostics)
    ensures
        r.parse_issue_count == issues@.len(),
        r.issues_by_source@ == tally(issue_sources(issue_views(issues@))),
        r.issues_by_reason@ == tally(issue_reasons(issue_views(issues@))),
        r.missing_timestamp_count == missing_timestamps(record_views(records@)),
        r.missing_level_count == missing_levels(record_views(records@)),
        r.passed_checks == passed_checks(
            records@.len(),
            missing_timestamps(record_views(records@)),
            missing_levels(record_views(records@)),
        ),
        r.total_checks == total_checks(records@.len(), issues@.len()),
        summary_views(r.field_catalog@) == catalog(record_views(records@), field_limit as nat),
{
    let (ts, lv) = count_missing(records);
    let (passed, total) = check_counts(records.len(), ts, lv, issues.len());
    Diagnostics {
        parse_issue_count: issues.len(),
        issues_by_source: count_issue_sources(issues),
        issues_by_reason: count_issue_reasons(issues),
        missing_timestamp_count: ts,
        missing_level_count: lv,
        passed_checks: passed,
        total_checks: total,
        field_catalog: field_catalog(records, field_limit),
    }
}

/// The passed checks are some of all checks, and all of them exactly when no
/// record lacks a time or a level and there is no parse issue; one more
/// issue adds one check and no passed one.
pub proof fn lemma_check_counts(records: nat, missing_ts: nat, missing_lv: nat, issues: nat)
    requires
        missing_ts <= records,
        missing_lv <= records,
    ensures
        passed_checks(records, missing_ts, missing_lv) <= total_checks(records, issues),
        (passed_checks(records, missing_ts, missing_lv) == total_checks(records, issues)) == (missing_ts == 0
            && missing_lv == 0 && issues == 0),
        total_checks(records, issues + 1) == total_checks(records, issues) + 1,
{
}

/// Counting issues by source or by reason counts each issue once.
pub proof fn lemma_issue_counts(is: Seq<IssueView>)
    requires
        is.len() <= usize::MAX,
    ensures
        total(tally(issue_sources(is))) == is.len(),
        total(tally(issue_reasons(is))) == is.len(),
{
    lemma_tally(issue_sources(is));
    lemma_tally(issue_reasons(is));
}

/// The catalogue has at most `limit` fields, each found in some records and
/// missing from the others.
pub proof fn lemma_catalog_counts(rs: Seq<RecordView>, limit: nat)
    requires
        rs.len() <= usize::MAX,
    ensures
        catalog(rs, limit).len() <= limit,
        forall|i: int| 0 <= i < catalog(rs, limit).len() ==> (#[trigger] catalog(rs, limit)[i]).present_count
            + catalog(rs, limit)[i].missing_count == rs.len(),
{
    assert forall|i: int| 0 <= i < catalog(rs, limit).len() implies (#[trigger] catalog(rs, limit)[i]).present_count
        + catalog(rs, limit)[i].missing_count == rs.len() by {
        let name = first_n(rank_sort(field_presence(rs)), limit)[i].0;
        lemma_present_values_len(rs, name);
    }
}

} // verus!
