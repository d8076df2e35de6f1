//! Reports: Markdown and CSV renderings of a summary, its records and issues.
use crate::csvio::{csv_line_text, csv_record, write_csv_record, CsvWriteError};
use crate::diagnostics::{
    analyze_dataset, catalog, issue_reasons, missing_levels, missing_timestamps,
    FieldSummaryView, summary_views,
};
use crate::error::{result_view, ErrorView, LoglensError};
use crate::json::{json_map_text, json_object_text, pairs_view};
use crate::model::{issue_views, level_label, record_views, IssueView, LogRecord, ParseIssue, RecordView};
use crate::paths::{path_extension, path_extension_of};
use crate::stats::{count_pairs, first_n, lemma_tally, lemma_tally_entries, occurrences, tally, Summary};
use crate::strmap::{count_at, keys_sorted, StrMap};
use crate::text::{
    chars_are, chars_of, decimal, decimal_text, join, join_texts, lower, lower_chars, padded,
    padded_text, push_char, push_str, views,
};
use vstd::prelude::*;

verus! {

// ---------------------------------------------------------------------------
// Pieces of Markdown
// ---------------------------------------------------------------------------

/// A character as it is written in a Markdown table cell: `|` escaped, a
/// line break made a space.
pub open spec fn escape_char(c: char) -> Seq<char> {
    if c == '|' {
        seq!['\\', '|']
    } else if c == '\n' {
        seq![' ']
    } else {
        seq![c]
    }
}

/// A text as it is written in a Markdown table cell.
pub open spec fn escape(s: Seq<char>) -> Seq<char>
    decreases s.len(),
{
    if s.len() == 0 {
        Seq::empty()
    } else {
        escape(s.drop_last()) + escape_char(s.last())
    }
}

/// An escaped text keeps to one line, and each `|` in it is escaped: it has
/// no line break, and every `|` follows a backslash.
pub proof fn lemma_escape_cell(s: Seq<char>)
    ensures
        !escape(s).contains('\n'),
        forall|i: int| 0 <= i < escape(s).len() && #[trigger] escape(s)[i] == '|' ==> i > 0 && escape(s)[i - 1] == '\\',
        escape(s).len() >= s.len(),
    decreases s.len(),
{
    if s.len() > 0 {
        let prev = escape(s.drop_last());
        lemma_escape_cell(s.drop_last());
        let tail = escape_char(s.last());
        assert(escape(s) == prev + tail);
        assert forall|i: int| 0 <= i < escape(s).len() implies escape(s)[i] != '\n' by {
            if i < prev.len() {
                assert(escape(s)[i] == prev[i]);
                assert(!prev.contains('\n'));
                if prev[i] == '\n' {
                    assert(prev.contains('\n'));
                }
            }
        }
        assert forall|i: int| 0 <= i < escape(s).len() && #[trigger] escape(s)[i] == '|' implies i > 0 && escape(s)[i
            - 1] == '\\' by {
            if i < prev.len() {
                assert(escape(s)[i] == prev[i]);
                assert(escape(s)[i - 1] == prev[i - 1]);
            }
        }
    }
}

/// A text as it is written in a Markdown table cell (see `escape`).
pub fn escape_markdown(value: &str) -> (r: String)
    ensures
        r@ == escape(value@),
{
    let v = chars_of(value);
    let mut out = String::new();
    for i in 0..v.len()
        invariant
            out@ == escape(v@.take(i as int)),
    {
        let c = v[i];
        proof {
            assert(v@.take(i + 1).drop_last() =~= v@.take(i as int));
        }
        if c == '|' {
            push_char(&mut out, '\\');
            push_char(&mut out, '|');
        } else if c == '\n' {
            push_char(&mut out, ' ');
        } else {
            push_char(&mut out, c);
        }
        assert(out@ =~= escape(v@.take(i + 1)));
    }
    assert(v@.take(v.len() as int) =~= v@);
    out
}

/// A row `| key | count |` of a count table.
pub open spec fn count_row(e: (Seq<char>, usize)) -> Seq<char> {
    "| "@ + escape(e.0) + " | "@ + decimal(e.1 as nat) + " |\n"@
}

/// The rows of a count table, in order.
pub open spec fn count_rows(s: Seq<(Seq<char>, usize)>) -> Seq<char>
    decreases s.len(),
{
    if s.len() == 0 {
        Seq::empty()
    } else {
        count_rows(s.drop_last()) + count_row(s.last())
    }
}

/// A table of counts by key.
pub open spec fn key_table(s: Seq<(Seq<char>, usize)>) -> Seq<char> {
    "| Key | Count |\n"@ + "| --- | ---: |\n"@ + count_rows(s)
}

/// A table of counted values.
pub open spec fn value_table(s: Seq<(Seq<char>, usize)>) -> Seq<char> {
    "| Value | Count |\n"@ + "| --- | ---: |\n"@ + count_rows(s)
}

/// Appends the row of one counted value.
fn push_count_row(output: &mut String, key: &str, count: usize)
    ensures
        final(output)@ == old(output)@ + count_row((key@, count)),
{
    push_str(output, "| ");
    push_str(output, escape_markdown(key).as_str());
    push_str(output, " | ");
    push_str(output, decimal_text(count as u64).as_str());
    push_str(output, " |\n");
}

/// Appends a table of counts by key.
fn append_markdown_table(output: &mut String, counts: &StrMap<usize>)
    ensures
        final(output)@ == old(output)@ + key_table(counts@),
{
    push_str(output, "| Key | Count |\n");
    push_str(output, "| --- | ---: |\n");
    let ghost base = output@;
    let ghost s = counts@;
    let n = counts.len();
    for i in 0..n
        invariant
            n == s.len(),
            s == counts@,
            output@ == base + count_rows(s.take(i as int)),
    {
        proof {
            assert(s.take(i + 1).drop_last() =~= s.take(i as int));
        }
        push_count_row(output, counts.key_at(i).as_str(), *counts.value_at(i));
    }
    assert(s.take(n as int) =~= s);
}

/// Appends a table of counted values.
fn append_pair_table(output: &mut String, pairs: &Vec<(String, usize)>)
    ensures
        final(output)@ == old(output)@ + value_table(count_pairs(pairs@)),
{
    push_str(output, "| Value | Count |\n");
    push_str(output, "| --- | ---: |\n");
    let ghost base = output@;
    let ghost s = count_pairs(pairs@);
    for i in 0..pairs.len()
        invariant
            s == count_pairs(pairs@),
            output@ == base + count_rows(s.take(i as int)),
    {
        proof {
            assert(s.take(i + 1).drop_last() =~= s.take(i as int));
        }
        push_count_row(output, pairs[i].0.as_str(), pairs[i].1);
    }
    assert(s.take(pairs.len() as int) =~= s);
}

/// A percentage in hundredths written with two decimals (`{:.2}`).
pub open spec fn percent(h: nat) -> Seq<char> {
    decimal(h / 100) + seq!['.'] + padded(h % 100, 2)
}

/// A percentage in hundredths written with two decimals.
fn percent_text(h: u64) -> (r: String)
    ensures
        r@ == percent(h as nat),
{
    let mut out = decimal_text(h / 100);
    push_char(&mut out, '.');
    push_str(&mut out, padded_text(h % 100, 2).as_str());
    out
}

/// A row of the field catalogue.
pub open spec fn catalog_row(f: FieldSummaryView) -> Seq<char> {
    "| "@ + escape(f.name) + " | "@ + decimal(f.present_count as nat) + " | "@ + decimal(
        f.missing_count as nat,
    ) + " | "@ + decimal(f.unique_value_count as nat) + " | "@ + escape(join(f.sample_values, ", "@))
        + " |\n"@
}

/// The rows of the field catalogue.
pub open spec fn catalog_rows(c: Seq<FieldSummaryView>) -> Seq<char>
    decreases c.len(),
{
    if c.len() == 0 {
        Seq::empty()
    } else {
        catalog_rows(c.drop_last()) + catalog_row(c.last())
    }
}

/// A row of the parse diagnostics table.
pub open spec fn issue_row(i: IssueView) -> Seq<char> {
    "| "@ + escape(i.source) + " | "@ + decimal(i.line as nat) + " | "@ + escape(i.reason) + " | "@
        + escape(i.raw) + " |\n"@
}

/// The rows of the parse diagnostics table.
pub open spec fn issue_rows(is: Seq<IssueView>) -> Seq<char>
    decreases is.len(),
{
    if is.len() == 0 {
        Seq::empty()
    } else {
        issue_rows(is.drop_last()) + issue_row(is.last())
    }
}

/// How a record's time is shown: RFC 3339, `-` without one.
pub open spec fn time_cell(r: RecordView) -> Seq<char> {
    match r.timestamp {
        Some(t) => t.rfc3339@,
        None => "-"@,
    }
}

/// How a record's level is shown: its name, `UNKNOWN` without one.
pub open spec fn level_cell(r: RecordView) -> Seq<char> {
    match r.level {
        Some(l) => level_label(l),
        None => "UNKNOWN"@,
    }
}

/// A row of the sample records table.
pub open spec fn record_row(r: RecordView) -> Seq<char> {
    "| "@ + escape(time_cell(r)) + " | "@ + escape(level_cell(r)) + " | "@ + escape(r.source) + " | "@
        + escape(r.message) + " |\n"@
}

/// The rows of the sample records table.
pub open spec fn record_rows(rs: Seq<RecordView>) -> Seq<char>
    decreases rs.len(),
{
    if rs.len() == 0 {
        Seq::empty()
    } else {
        record_rows(rs.drop_last()) + record_row(rs.last())
    }
}

// ---------------------------------------------------------------------------
// The Markdown report
// ---------------------------------------------------------------------------

/// A summary with its texts taken by their views.
pub struct SummaryView {
    pub total: usize,
    pub level_counts: Seq<(Seq<char>, usize)>,
    pub grouped_counts: Seq<(Seq<char>, usize)>,
    pub source_counts: Seq<(Seq<char>, usize)>,
    pub top_sources: Seq<(Seq<char>, usize)>,
    pub top_field_name: Option<Seq<char>>,
    pub top_field_values: Seq<(Seq<char>, usize)>,
}

impl View for Summary {
    type V = SummaryView;

    open spec fn view(&self) -> SummaryView {
        SummaryView {
            total: self.total,
            level_counts: self.level_counts@,
            grouped_counts: self.grouped_counts@,
            source_counts: self.source_counts@,
            top_sources: count_pairs(self.top_sources@),
            top_field_name: crate::filter::opt_view(self.top_field_name),
            top_field_values: count_pairs(self.top_field_values@),
        }
    }
}

/// The opening lines of the report.
pub open spec fn report_intro(total: nat, issues: nat, quality: nat) -> Seq<char> {
    "# LogLens Report\n\n"@ + "- Total records: "@ + decimal(total) + seq!['\n'] + "- Parse issues: "@
        + decimal(issues) + seq!['\n'] + "- Data quality score: "@ + percent(quality) + "%\n"@
}

/// The count tables of the report.
pub open spec fn report_tables(s: SummaryView) -> Seq<char> {
    "\n## Level Counts\n\n"@ + key_table(s.level_counts) + "\n## Grouped Counts\n\n"@ + key_table(
        s.grouped_counts,
    ) + "\n## Source Counts\n\n"@ + key_table(s.source_counts) + "\n## Top Sources\n\n"@
        + value_table(s.top_sources) + match s.top_field_name {
        Some(f) => "\n## Top Field Values: "@ + escape(f) + "\n\n"@ + value_table(s.top_field_values),
        None => Seq::empty(),
    }
}

/// The opening lines and the count tables of the report.
pub open spec fn report_head(s: SummaryView, issues: nat, quality: nat) -> Seq<char> {
    report_intro(s.total as nat, issues, quality) + report_tables(s)
}

/// The data quality table.
pub open spec fn quality_section(missing_ts: nat, missing_lv: nat, issues: nat, quality: nat) -> Seq<char> {
    "\n## Data Quality\n\n"@ + "| Metric | Value |\n"@ + "| --- | ---: |\n"@ + "| Missing timestamps | "@
        + decimal(missing_ts) + " |\n"@ + "| Missing levels | "@ + decimal(missing_lv) + " |\n"@
        + "| Parse issues | "@ + decimal(issues) + " |\n"@ + "| Quality score | "@ + percent(quality)
        + "% |\n"@
}

/// The field catalogue section.
pub open spec fn catalog_section(c: Seq<FieldSummaryView>) -> Seq<char> {
    "\n## Field Catalog\n\n"@ + if c.len() == 0 {
        "No structured fields found.\n"@
    } else {
        "| Field | Present | Missing | Unique Values | Samples |\n"@
            + "| --- | ---: | ---: | ---: | --- |\n"@ + catalog_rows(c)
    }
}

/// The parse issue summary and diagnostics sections.
pub open spec fn issue_sections(by_reason: Seq<(Seq<char>, usize)>, is: Seq<IssueView>, limit: nat) -> Seq<char> {
    "\n## Parse Issue Summary\n\n"@ + (if by_reason.len() == 0 {
        "No parse issue categories.\n"@
    } else {
        key_table(by_reason)
    }) + "\n## Parse Diagnostics\n\n"@ + if is.len() == 0 {
        "No parse issues.\n"@
    } else {
        "| Source | Line | Reason | Raw |\n"@ + "| --- | ---: | --- | --- |\n"@ + issue_rows(
            first_n(is, limit),
        )
    }
}

/// The sample records section.
pub open spec fn samples_section(rs: Seq<RecordView>, limit: nat) -> Seq<char> {
    "\n## Sample Records\n\n"@ + "| Time | Level | Source | Message |\n"@ + "| --- | --- | --- | --- |\n"@
        + record_rows(first_n(rs, limit))
}

/// The Markdown report of a summary, the records and the issues: the counts
/// of the summary, the data quality of the records and issues (with a
/// catalogue of at most ten fields) under the score `quality`, in hundredths
/// of a percent, and at most `limit` issues and records.
pub open spec fn markdown_report(
    s: SummaryView,
    rs: Seq<RecordView>,
    is: Seq<IssueView>,
    limit: nat,
    quality: nat,
) -> Seq<char> {
    report_head(s, is.len(), quality) + quality_section(
        missing_timestamps(rs),
        missing_levels(rs),
        is.len(),
        quality,
    ) + catalog_section(catalog(rs, 10)) + issue_sections(tally(issue_reasons(is)), is, limit)
        + samples_section(rs, limit)
}

/// The Parse Issue Summary of the Markdown report counts the issues by reason
/// category: its table lists, in key order, each category that occurs with
/// the number of issues in it, and nothing else.
pub proof fn lemma_report_issue_summary(s: SummaryView, rs: Seq<RecordView>, is: Seq<IssueView>, limit: nat, q: nat)
    requires
        is.len() <= usize::MAX,
    ensures
        exists|t: Seq<(Seq<char>, usize)>| {
            &&& keys_sorted(t)
            &&& forall|i: int| 0 <= i < t.len() ==> (#[trigger] t[i]).1 > 0
            &&& forall|k: Seq<char>| #[trigger] count_at(t, k) == occurrences(issue_reasons(is), k)
            &&& markdown_report(s, rs, is, limit, q) == report_head(s, is.len(), q) + quality_section(
                missing_timestamps(rs),
                missing_levels(rs),
                is.len(),
                q,
            ) + catalog_section(catalog(rs, 10)) + issue_sections(t, is, limit) + samples_section(rs, limit)
        },
{
    let t = tally(issue_reasons(is));
    lemma_tally(issue_reasons(is));
    lemma_tally_entries(issue_reasons(is));
}

/// Appends the opening lines of the report.
fn push_intro(output: &mut String, total: usize, issues: usize, quality: u64)
    ensures
        final(output)@ == old(output)@ + report_intro(total as nat, issues as nat, quality as nat),
{
    let ghost base = output@;
    push_str(output, "# LogLens Report\n\n");
    push_str(output, "- Total records: ");
    push_str(output, decimal_text(total as u64).as_str());
    push_char(output, '\n');
    push_str(output, "- Parse issues: ");
    push_str(output, decimal_text(issues as u64).as_str());
    push_char(output, '\n');
    push_str(output, "- Data quality score: ");
    push_str(output, percent_text(quality).as_str());
    push_str(output, "%\n");
    assert(output@ =~= base + report_intro(total as nat, issues as nat, quality as nat));
}

/// Appends the count tables of the report.
#[verifier::rlimit(40)]
fn push_tables(output: &mut String, summary: &Summary)
    ensures
        final(output)@ == old(output)@ + report_tables(summary@),
{
    let ghost base = output@;
    push_str(output, "\n## Level Counts\n\n");
    append_markdown_table(output, &summary.level_counts);
    push_str(output, "\n## Grouped Counts\n\n");
    append_markdown_table(output, &summary.grouped_counts);
    push_str(output, "\n## Source Counts\n\n");
    append_markdown_table(output, &summary.source_counts);
    push_str(output, "\n## Top Sources\n\n");
    append_pair_table(output, &summary.top_sources);
    let ghost mid = output@;
    assert(mid =~= base + ("\n## Level Counts\n\n"@ + key_table(summary@.level_counts) + "\n## Grouped Counts\n\n"@ + key_table(
        summary@.grouped_counts,
    ) + "\n## Source Counts\n\n"@ + key_table(summary@.source_counts) + "\n## Top Sources\n\n"@
        + value_table(summary@.top_sources)));
    if let Some(field_name) = &summary.top_field_name {
        push_str(output, "\n## Top Field Values: ");
        push_str(output, escape_markdown(field_name.as_str()).as_str());
        push_str(output, "\n\n");
        append_pair_table(output, &summary.top_field_values);
    }
    assert(output@ =~= base + report_tables(summary@));
}

/// Appends the opening lines and the count tables.
fn push_head(output: &mut String, summary: &Summary, issues: usize, quality: u64)
    ensures
        final(output)@ == old(output)@ + report_head(summary@, issues as nat, quality as nat),
{
    let ghost base = output@;
    push_intro(output, summary.total, issues, quality);
    push_tables(output, summary);
    assert(output@ =~= base + report_head(summary@, issues as nat, quality as nat));
}

/// Appends the data quality table.
fn push_quality(output: &mut String, missing_ts: usize, missing_lv: usize, issues: usize, quality: u64)
    ensures
        final(output)@ == old(output)@ + quality_section(missing_ts as nat, missing_lv as nat, issues as nat, quality as nat),
{
    let ghost base = output@;
    push_str(output, "\n## Data Quality\n\n");
    push_str(output, "| Metric | Value |\n");
    push_str(output, "| --- | ---: |\n");
    push_str(output, "| Missing timestamps | ");
    push_str(output, decimal_text(missing_ts as u64).as_str());
    push_str(output, " |\n");
    push_str(output, "| Missing levels | ");
    push_str(output, decimal_text(missing_lv as u64).as_str());
    push_str(output, " |\n");
    push_str(output, "| Parse issues | ");
    push_str(output, decimal_text(issues as u64).as_str());
    push_str(output, " |\n");
    push_str(output, "| Quality score | ");
    push_str(output, percent_text(quality).as_str());
    push_str(output, "% |\n");
    assert(output@ =~= base + quality_section(missing_ts as nat, missing_lv as nat, issues as nat, quality as nat));
}

/// Appends the field catalogue section.
#[verifier::spinoff_prover]
#[verifier::rlimit(40)]
fn push_catalog(output: &mut String, fields: &Vec<crate::diagnostics::FieldSummary>)
    ensures
        final(output)@ == old(output)@ + catalog_section(summary_views(fields@)),
{
    let ghost base = output@;
    push_str(output, "\n## Field Catalog\n\n");
    if fields.len() == 0 {
        push_str(output, "No structured fields found.\n");
        assert(output@ =~= base + catalog_section(summary_views(fields@)));
        return;
    }
    push_str(output, "| Field | Present | Missing | Unique Values | Samples |\n");
    push_str(output, "| --- | ---: | ---: | ---: | --- |\n");
    let ghost head = output@;
    let ghost c = summary_views(fields@);
    for i in 0..fields.len()
        invariant
            c == summary_views(fields@),
            output@ == head + catalog_rows(c.take(i as int)),
    {
        proof {
            assert(c.take(i + 1).drop_last() =~= c.take(i as int));
        }
        let field = &fields[i];
        let ghost before = output@;
        push_str(output, "| ");
        push_str(output, escape_markdown(field.name.as_str()).as_str());
        push_str(output, " | ");
        push_str(output, decimal_text(field.present_count as u64).as_str());
        push_str(output, " | ");
        push_str(output, decimal_text(field.missing_count as u64).as_str());
        push_str(output, " | ");
        push_str(output, decimal_text(field.unique_value_count as u64).as_str());
        push_str(output, " | ");
        let samples = join_texts(&field.sample_values, ", ");
        push_str(output, escape_markdown(samples.as_str()).as_str());
        push_str(output, " |\n");
        assert(output@ =~= before + catalog_row(c[i as int]));
    }
    assert(c.take(fields.len() as int) =~= c);
    assert(output@ =~= base + catalog_section(summary_views(fields@)));
}

/// Appends the parse issue summary and diagnostics sections.
fn push_issue_sections(output: &mut String, by_reason: &StrMap<usize>, issues: &[ParseIssue], limit: usize)
    ensures
        final(output)@ == old(output)@ + issue_sections(by_reason@, issue_views(issues@), limit as nat),
{
    let ghost base = output@;
    push_str(output, "\n## Parse Issue Summary\n\n");
    if by_reason.is_empty() {
        push_str(output, "No parse issue categories.\n");
    } else {
        append_markdown_table(output, by_reason);
    }
    push_str(output, "\n## Parse Diagnostics\n\n");
    let ghost is = issue_views(issues@);
    if issues.len() == 0 {
        push_str(output, "No parse issues.\n");
        assert(output@ =~= base + issue_sections(by_reason@, is, limit as nat));
        return;
    }
    push_str(output, "| Source | Line | Reason | Raw |\n");
    push_str(output, "| --- | ---: | --- | --- |\n");
    let ghost head = output@;
    let n = if limit < issues.len() {
        limit
    } else {
        issues.len()
    };
    let ghost chosen = first_n(is, limit as nat);
    for i in 0..n
        invariant
            n <= issues@.len(),
            is == issue_views(issues@),
            chosen == first_n(is, limit as nat),
            chosen.len() == n,
            output@ == head + issue_rows(chosen.take(i as int)),
    {
        proof {
            assert(chosen.take(i + 1).drop_last() =~= chosen.take(i as int));
            assert(chosen[i as int] == issues@[i as int]@);
        }
        let issue = &issues[i];
        let ghost before = output@;
        push_str(output, "| ");
        push_str(output, escape_markdown(issue.source.as_str()).as_str());
        push_str(output, " | ");
        push_str(output, decimal_text(issue.line as u64).as_str());
        push_str(output, " | ");
        push_str(output, escape_markdown(issue.reason.as_str()).as_str());
        push_str(output, " | ");
        push_str(output, escape_markdown(issue.raw.as_str()).as_str());
        push_str(output, " |\n");
        assert(output@ =~= before + issue_row(chosen[i as int]));
    }
    assert(chosen.take(n as int) =~= chosen);
    assert(output@ =~= base + issue_sections(by_reason@, is, limit as nat));
}

/// Appends the row of one sample record.
fn push_record_row(output: &mut String, record: &LogRecord)
    ensures
        final(output)@ == old(output)@ + record_row(record@),
{
    let ghost base = output@;
    let time = match &record.timestamp {
        Some(t) => t.rfc3339.clone(),
        None => "-".to_owned(),
    };
    let level = match record.level {
        Some(l) => l.label().to_owned(),
        None => "UNKNOWN".to_owned(),
    };
    push_str(output, "| ");
    push_str(output, escape_markdown(time.as_str()).as_str());
    push_str(output, " | ");
    push_str(output, escape_markdown(level.as_str()).as_str());
    push_str(output, " | ");
    push_str(output, escape_markdown(record.source.as_str()).as_str());
    push_str(output, " | ");
    push_str(output, escape_markdown(record.message.as_str()).as_str());
    push_str(output, " |\n");
    assert(output@ =~= base + record_row(record@));
}

/// Appends the sample records section.
fn push_samples(output: &mut String, records: &[LogRecord], limit: usize)
    ensures
        final(output)@ == old(output)@ + samples_section(record_views(records@), limit as nat),
{
    let ghost base = output@;
    push_str(output, "\n## Sample Records\n\n");
    push_str(output, "| Time | Level | Source | Message |\n");
    push_str(output, "| --- | --- | --- | --- |\n");
    let ghost head = output@;
    let ghost rs = record_views(records@);
    let n = if limit < records.len() {
        limit
    } else {
        records.len()
    };
    let ghost chosen = first_n(rs, limit as nat);
    for i in 0..n
        invariant
            n <= records@.len(),
            rs == record_views(records@),
            chosen == first_n(rs, limit as nat),
            chosen.len() == n,
            output@ == head + record_rows(chosen.take(i as int)),
    {
        proof {
            assert(chosen.take(i + 1).drop_last() =~= chosen.take(i as int));
            assert(chosen[i as int] == records@[i as int]@);
        }
        push_record_row(output, &records[i]);
    }
    assert(chosen.take(n as int) =~= chosen);
    assert(output@ =~= base + samples_section(rs, limit as nat));
}

/// The Markdown report (see `markdown_report`). `quality_hundredths` is the
/// data quality score in hundredths of a percent: the share of the passed
/// checks among all checks that `analyze_dataset` counts, rounded as the
/// caller does in floating point.
pub fn to_markdown(
    summary: &Summary,
    records: &[LogRecord],
    issues: &[ParseIssue],
    sample_limit: usize,
    quality_hundredths: u64,
) -> (r: String)
    ensures
        r@ == markdown_report(
            summary@,
            record_views(records@),
            issue_views(issues@),
            sample_limit as nat,
            quality_hundredths as nat,
        ),
{
    let diagnostics = analyze_dataset(records, issues, 10);
    let mut output = String::new();
    push_head(&mut output, summary, issues.len(), quality_hundredths);
    push_quality(
        &mut output,
        diagnostics.missing_timestamp_count,
        diagnostics.missing_level_count,
        diagnostics.parse_issue_count,
        quality_hundredths,
    );
    push_catalog(&mut output, &diagnostics.field_catalog);
    push_issue_sections(&mut output, &diagnostics.issues_by_reason, issues, sample_limit);
    push_samples(&mut output, records, sample_limit);
    assert(output@ =~= markdown_report(
        summary@,
        record_views(records@),
        issue_views(issues@),
        sample_limit as nat,
        quality_hundredths as nat,
    ));
    output
}

// ---------------------------------------------------------------------------
// The CSV report
// ---------------------------------------------------------------------------

/// The header of the CSV report.
pub open spec fn csv_header() -> Seq<Seq<char>> {
    seq!["timestamp"@, "level"@, "source"@, "message"@, "fields"@]
}

/// An error of the CSV writer as an error of the library.
pub open spec fn write_error(e: CsvWriteError) -> ErrorView {
    match e {
        CsvWriteError::Write(m) => ErrorView::Csv(m@),
        CsvWriteError::Flush(m) => ErrorView::ReportWrite { path: "<memory>"@, message: m@ },
    }
}

/// The cells of one record's CSV line.
pub open spec fn csv_cells(r: RecordView, fields: Seq<char>) -> Seq<Seq<char>> {
    seq![
        match r.timestamp {
            Some(t) => t.rfc3339@,
            None => Seq::empty(),
        },
        match r.level {
            Some(l) => level_label(l),
            None => Seq::empty(),
        },
        r.source,
        r.message,
        fields,
    ]
}

/// The CSV line of one record: its time (RFC 3339, empty without one), its
/// level (empty without one), source, message and fields as a JSON object.
pub open spec fn csv_report_row(r: RecordView) -> Result<Seq<char>, ErrorView> {
    match json_map_text(r.fields) {
        Err(m) => Err(ErrorView::JsonLine { line: 0, message: m }),
        Ok(fields) => {
            let cells = csv_cells(r, fields);
            match csv_record(cells) {
                Ok(_) => Ok(csv_line_text(cells)),
                Err(e) => Err(write_error(e)),
            }
        },
    }
}

/// The CSV report: the header line and one line per record, or the first
/// error met.
pub open spec fn csv_report(rs: Seq<RecordView>) -> Result<Seq<char>, ErrorView>
    decreases rs.len(),
{
    if rs.len() == 0 {
        match csv_record(csv_header()) {
            Ok(_) => Ok(csv_line_text(csv_header())),
            Err(e) => Err(write_error(e)),
        }
    } else {
        match csv_report(rs.drop_last()) {
            Err(e) => Err(e),
            Ok(t) => match csv_report_row(rs.last()) {
                Err(e) => Err(e),
                Ok(line) => Ok(t + line),
            },
        }
    }
}

/// The header line of the CSV report is the five column names apart by
/// commas, none quoted.
pub proof fn lemma_csv_header_line()
    ensures
        csv_line_text(csv_header()) == "timestamp,level,source,message,fields\n"@,
{
    reveal_strlit("timestamp");
    reveal_strlit("level");
    reveal_strlit("source");
    reveal_strlit("message");
    reveal_strlit("fields");
    reveal_strlit("timestamp,level,source,message,fields\n");
    let h = csv_header();
    assert forall|j: int| 0 <= j < 5 implies #[trigger] crate::csvio::csv_cell(h[j]) == h[j] by {
        assert(!(exists|i: int| 0 <= i < h[j].len() && crate::csvio::csv_special(#[trigger] h[j][i])));
    }
    let cells = h.map_values(|f: Seq<char>| crate::csvio::csv_cell(f));
    assert(cells =~= h);
    reveal_with_fuel(join, 6);
    assert(h.drop_last().drop_last().drop_last().drop_last() =~= seq!["timestamp"@]);
    assert(h.drop_last().drop_last().drop_last() =~= seq!["timestamp"@, "level"@]);
    assert(h.drop_last().drop_last() =~= seq!["timestamp"@, "level"@, "source"@]);
    assert(h.drop_last() =~= seq!["timestamp"@, "level"@, "source"@, "message"@]);
    assert(csv_line_text(h) =~= "timestamp,level,source,message,fields\n"@);
}

/// Once a prefix of the records gives an error, so do all of them.
proof fn lemma_csv_report_error(rs: Seq<RecordView>, i: int)
    requires
        0 <= i <= rs.len(),
        csv_report(rs.take(i)) is Err,
    ensures
        csv_report(rs) == csv_report(rs.take(i)),
    decreases rs.len() - i,
{
    if i < rs.len() {
        assert(rs.take(i + 1).drop_last() =~= rs.take(i));
        lemma_csv_report_error(rs, i + 1);
    } else {
        assert(rs.take(i) =~= rs);
    }
}

/// An error of the CSV writer as an error of the library (see `write_error`).
fn writer_error(e: CsvWriteError) -> (r: LoglensError)
    ensures
        r@ == write_error(e),
{
    match e {
        CsvWriteError::Write(m) => LoglensError::Csv(m),
        CsvWriteError::Flush(m) => LoglensError::ReportWrite { path: "<memory>".to_owned(), message: m },
    }
}

/// The field entries of a record as string pairs.
fn field_pairs(record: &LogRecord) -> (r: Vec<(String, String)>)
    ensures
        crate::json::pairs_view(r@) == record@.fields,
{
    let mut out: Vec<(String, String)> = Vec::new();
    let ghost f = record@.fields;
    let n = record.fields.len();
    for i in 0..n
        invariant
            n == f.len(),
            f == record@.fields,
            crate::json::pairs_view(out@) == f.take(i as int),
    {
        let ghost prev = out@;
        let k = record.fields.key_at(i).clone();
        let v = record.fields.value_at(i).clone();
        assert(f[i as int] == (k@, v@));
        out.push((k, v));
        assert(crate::json::pairs_view(out@) =~= crate::json::pairs_view(prev).push((k@, v@)));
        assert(crate::json::pairs_view(out@) =~= f.take(i + 1));
    }
    assert(f.take(n as int) =~= f);
    out
}

/// The CSV line of one record (see `csv_report_row`).
fn csv_line(record: &LogRecord) -> (r: Result<String, LoglensError>)
    ensures
        result_view(r) == csv_report_row(record@),
{
    let pairs = field_pairs(record);
    let fields = match json_object_text(&pairs) {
        Ok(t) => t,
        Err(m) => return Err(LoglensError::JsonLine { line: 0, message: m }),
    };
    assert(json_map_text(record@.fields) == Ok::<Seq<char>, Seq<char>>(fields@));
    let timestamp = match &record.timestamp {
        Some(t) => t.rfc3339.clone(),
        None => String::new(),
    };
    let level = match record.level {
        Some(l) => l.label().to_owned(),
        None => String::new(),
    };
    let mut cells: Vec<String> = Vec::new();
    cells.push(timestamp);
    cells.push(level);
    cells.push(record.source.clone());
    cells.push(record.message.clone());
    cells.push(fields);
    let ghost expected = csv_cells(record@, fields@);
    assert(views(cells@) =~= expected);
    match write_csv_record(&cells) {
        Ok(t) => {
            assert(csv_record(expected) == Ok::<Seq<char>, CsvWriteError>(t@));
            assert(csv_report_row(record@) == Ok::<Seq<char>, ErrorView>(t@));
            Ok(t)
        },
        Err(e) => Err(writer_error(e)),
    }
}

/// The CSV report (see `csv_report`).
pub fn to_csv(records: &[LogRecord]) -> (r: Result<String, LoglensError>)
    ensures
        result_view(r) == csv_report(record_views(records@)),
{
    let mut header: Vec<String> = Vec::new();
    header.push("timestamp".to_owned());
    header.push("level".to_owned());
    header.push("source".to_owned());
    header.push("message".to_owned());
    header.push("fields".to_owned());
    assert(views(header@) =~= csv_header());
    let ghost rs = record_views(records@);
    assert(rs.take(0) =~= Seq::<RecordView>::empty());
    let mut output = match write_csv_record(&header) {
        Ok(t) => t,
        Err(e) => {
            proof {
                lemma_csv_report_error(rs, 0);
            }
            return Err(writer_error(e));
        },
    };
    for i in 0..records.len()
        invariant
            rs == record_views(records@),
            csv_report(rs.take(i as int)) == Ok::<Seq<char>, ErrorView>(output@),
    {
        proof {
            assert(rs.take(i + 1).drop_last() =~= rs.take(i as int));
            assert(rs.take(i + 1).last() == records@[i as int]@);
        }
        match csv_line(&records[i]) {
            Ok(line) => push_str(&mut output, line.as_str()),
            Err(e) => {
                proof {
                    lemma_csv_report_error(rs, i + 1);
                }
                return Err(e);
            },
        }
    }
    assert(rs.take(records.len() as int) =~= rs);
    Ok(output)
}

// ---------------------------------------------------------------------------
// Choosing the format
// ---------------------------------------------------------------------------

/// The kind of report a path asks for.
#[derive(Clone, Copy, Debug, PartialEq, Eq, Structural)]
pub enum ReportFormat {
    Markdown,
    Json,
    Csv,
}

/// The kind of report for an output path: by its extension in any case,
/// `json` JSON, `csv` CSV, anything else Markdown.
pub open spec fn report_format_of(path: Seq<char>) -> ReportFormat {
    match path_extension(path) {
        Some(e) => if lower(e) == "json"@ {
            ReportFormat::Json
        } else if lower(e) == "csv"@ {
            ReportFormat::Csv
        } else {
            ReportFormat::Markdown
        },
        None => ReportFormat::Markdown,
    }
}

/// The kind of report for an output path (see `report_format_of`).
pub fn report_format(path: &str) -> (r: ReportFormat)
    ensures
        r == report_format_of(path@),
{
    match path_extension_of(path) {
        Some(e) => {
            let l = lower_chars(&e);
            if chars_are(&l, "json") {
                ReportFormat::Json
            } else if chars_are(&l, "csv") {
                ReportFormat::Csv
            } else {
                ReportFormat::Markdown
            }
        },
        None => ReportFormat::Markdown,
    }
}

} // verus!
