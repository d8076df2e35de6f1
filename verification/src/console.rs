//! The lines shown on the terminal: records, parse issues and summaries.
use crate::model::{issue_views, record_views, DatasetView, IssueView, LogDataset, LogRecord, ParseIssue, RecordView};
use crate::report::{level_cell, time_cell, SummaryView};
use crate::stats::{count_pairs, first_n, Summary};
use crate::strmap::StrMap;
use crate::text::{decimal, decimal_text, push_char, push_str, views};
use vstd::prelude::*;

verus! {

/// `n` spaces.
pub open spec fn spaces(n: nat) -> Seq<char> {
    Seq::new(n, |i: int| ' ')
}

/// A text filled with spaces on the right up to `width` characters (`{:<width}`).
pub open spec fn pad_right(s: Seq<char>, width: nat) -> Seq<char> {
    if s.len() >= width {
        s
    } else {
        s + spaces((width - s.len()) as nat)
    }
}

/// The line saying how many entries were left out.
pub open spec fn more_line(n: nat, what: Seq<char>) -> Seq<char> {
    "... "@ + decimal(n) + " more "@ + what
}

/// The closing line, where entries were left out.
pub open spec fn rest_lines(len: nat, limit: nat, what: Seq<char>) -> Seq<Seq<char>> {
    if len > limit {
        seq![more_line((len - limit) as nat, what)]
    } else {
        Seq::empty()
    }
}

/// The line of one record: time, level padded to seven characters, source, message.
pub open spec fn record_line(r: RecordView) -> Seq<char> {
    time_cell(r) + seq![' '] + pad_right(level_cell(r), 7) + seq![' '] + r.source + seq![' '] + r.message
}

/// The lines of the first `limit` records, then how many more there are.
pub open spec fn record_lines(rs: Seq<RecordView>, limit: nat) -> Seq<Seq<char>> {
    first_n(rs, limit).map_values(|r: RecordView| record_line(r)) + rest_lines(rs.len(), limit, "records"@)
}

/// The line of one parse issue: `source:line reason raw`.
pub open spec fn issue_line(i: IssueView) -> Seq<char> {
    i.source + seq![':'] + decimal(i.line as nat) + seq![' '] + i.reason + seq![' '] + i.raw
}

/// Nothing without issues; else their number, the first `limit` of them and
/// how many more there are.
pub open spec fn issue_lines(is: Seq<IssueView>, limit: nat) -> Seq<Seq<char>> {
    if is.len() == 0 {
        Seq::empty()
    } else {
        seq!["Parse issues: "@ + decimal(is.len())] + first_n(is, limit).map_values(
            |i: IssueView| issue_line(i),
        ) + rest_lines(is.len(), limit, "parse issues"@)
    }
}

/// A row of a count table: the key padded to 32 characters, then the count.
pub open spec fn count_line(e: (Seq<char>, usize)) -> Seq<char> {
    pad_right(e.0, 32) + seq![' '] + decimal(e.1 as nat)
}

/// A titled table of counts, its first column headed `head`.
pub open spec fn count_table(title: Seq<char>, head: Seq<char>, s: Seq<(Seq<char>, usize)>) -> Seq<Seq<char>> {
    seq![title, pad_right(head, 32) + " Count"@, Seq::new(44, |i: int| '-')] + s.map_values(
        |e: (Seq<char>, usize)| count_line(e),
    )
}

/// The lines of a summary: the total, the three count tables, the top
/// sources and, where a field was named, its top values; tables apart by an
/// empty line.
pub open spec fn summary_lines(s: SummaryView) -> Seq<Seq<char>> {
    seq!["Total records: "@ + decimal(s.total as nat), Seq::empty()] + count_table(
        "Level counts"@,
        "Key"@,
        s.level_counts,
    ) + seq![Seq::empty()] + count_table("Grouped counts"@, "Key"@, s.grouped_counts) + seq![
        Seq::empty(),
    ] + count_table("Source counts"@, "Key"@, s.source_counts) + seq![Seq::empty()] + count_table(
        "Top sources"@,
        "Value"@,
        s.top_sources,
    ) + match s.top_field_name {
        Some(name) => seq![Seq::empty()] + count_table(
            "Top field values: "@ + name,
            "Value"@,
            s.top_field_values,
        ),
        None => Seq::empty(),
    }
}

/// Appends spaces up to `width` characters.
fn pad_to(out: &mut String, len: usize, width: usize)
    ensures
        final(out)@ == old(out)@ + (if len >= width { Seq::empty() } else { spaces((width - len) as nat) }),
{
    let ghost base = out@;
    let mut k = len;
    while k < width
        invariant
            len <= width ==> len <= k <= width,
            len > width ==> k == len,
            out@ == base + (if len >= width { Seq::empty() } else { spaces((k - len) as nat) }),
        decreases width - k,
    {
        push_char(out, ' ');
        k = k + 1;
        assert(spaces((k - len) as nat) =~= spaces((k - 1 - len) as nat).push(' '));
    }
    assert(len >= width || k == width);
}

/// Fills a text with spaces on the right up to `width` characters.
pub fn pad_right_text(text: &str, width: usize) -> (r: String)
    ensures
        r@ == pad_right(text@, width as nat),
{
    let mut out = String::new();
    push_str(&mut out, text);
    let len = text.unicode_len();
    pad_to(&mut out, len, width);
    assert(out@ =~= pad_right(text@, width as nat));
    out
}

/// The text that a record's time is shown by.
fn time_text(record: &LogRecord) -> (r: String)
    ensures
        r@ == time_cell(record@),
{
    match &record.timestamp {
        Some(t) => t.rfc3339.clone(),
        None => "-".to_owned(),
    }
}

/// The text that a record's level is shown by.
fn level_text(record: &LogRecord) -> (r: String)
    ensures
        r@ == level_cell(record@),
{
    match record.level {
        Some(l) => l.label().to_owned(),
        None => "UNKNOWN".to_owned(),
    }
}

/// The line of one record.
fn record_line_text(record: &LogRecord) -> (r: String)
    ensures
        r@ == record_line(record@),
{
    let mut out = time_text(record);
    push_char(&mut out, ' ');
    push_str(&mut out, pad_right_text(level_text(record).as_str(), 7).as_str());
    push_char(&mut out, ' ');
    push_str(&mut out, record.source.as_str());
    push_char(&mut out, ' ');
    push_str(&mut out, record.message.as_str());
    assert(out@ =~= record_line(record@));
    out
}

/// The line saying how many entries were left out.
fn more_line_text(n: usize, what: &str) -> (r: String)
    ensures
        r@ == more_line(n as nat, what@),
{
    let mut out = "... ".to_owned();
    push_str(&mut out, decimal_text(n as u64).as_str());
    push_str(&mut out, " more ");
    push_str(&mut out, what);
    out
}

/// The lines that show the first `limit` records, then how many more there are.
pub fn record_lines_text(records: &[LogRecord], limit: usize) -> (r: Vec<String>)
    ensures
        views(r@) == record_lines(record_views(records@), limit as nat),
{
    let ghost rs = record_views(records@);
    let shown = if limit < records.len() { limit } else { records.len() };
    let mut out: Vec<String> = Vec::new();
    for i in 0..shown
        invariant
            shown <= records.len(),
            rs == record_views(records@),
            views(out@) == rs.take(i as int).map_values(|r: RecordView| record_line(r)),
    {
        let ghost prev = out@;
        out.push(record_line_text(&records[i]));
        assert(views(out@) =~= views(prev).push(record_line(records@[i as int]@)));
        assert(rs.take(i + 1).map_values(|r: RecordView| record_line(r)) =~= rs.take(i as int).map_values(
            |r: RecordView| record_line(r),
        ).push(record_line(rs[i as int])));
    }
    let ghost body = out@;
    if records.len() > limit {
        out.push(more_line_text(records.len() - limit, "records"));
    }
    proof {
        assert(rs.take(shown as int) =~= first_n(rs, limit as nat));
        if records.len() > limit {
            assert(views(out@) =~= views(body).push(more_line((records.len() - limit) as nat, "records"@)));
        }
        assert(views(out@) =~= record_lines(rs, limit as nat));
    }
    out
}

/// The line of one parse issue.
fn issue_line_text(issue: &ParseIssue) -> (r: String)
    ensures
        r@ == issue_line(issue@),
{
    let mut out = issue.source.clone();
    push_char(&mut out, ':');
    push_str(&mut out, decimal_text(issue.line as u64).as_str());
    push_char(&mut out, ' ');
    push_str(&mut out, issue.reason.as_str());
    push_char(&mut out, ' ');
    push_str(&mut out, issue.raw.as_str());
    assert(out@ =~= issue_line(issue@));
    out
}

/// The lines that show the parse issues: none without issues, else their
/// number, the first `limit` of them and how many more there are.
pub fn issue_lines_text(issues: &[ParseIssue], limit: usize) -> (r: Vec<String>)
    ensures
        views(r@) == issue_lines(issue_views(issues@), limit as nat),
{
    let ghost is = issue_views(issues@);
    let mut out: Vec<String> = Vec::new();
    if issues.len() == 0 {
        assert(views(out@) =~= issue_lines(is, limit as nat));
        return out;
    }
    let mut head = "Parse issues: ".to_owned();
    push_str(&mut head, decimal_text(issues.len() as u64).as_str());
    out.push(head);
    let ghost start = out@;
    let shown = if limit < issues.len() { limit } else { issues.len() };
    for i in 0..shown
        invariant
            shown <= issues.len(),
            is == issue_views(issues@),
            views(out@) == views(start) + is.take(i as int).map_values(|x: IssueView| issue_line(x)),
    {
        let ghost prev = out@;
        out.push(issue_line_text(&issues[i]));
        assert(views(out@) =~= views(prev).push(issue_line(issues@[i as int]@)));
        assert(is.take(i + 1).map_values(|x: IssueView| issue_line(x)) =~= is.take(i as int).map_values(
            |x: IssueView| issue_line(x),
        ).push(issue_line(is[i as int])));
    }
    let ghost body = out@;
    if issues.len() > limit {
        out.push(more_line_text(issues.len() - limit, "parse issues"));
    }
    proof {
        assert(is.take(shown as int) =~= first_n(is, limit as nat));
        if issues.len() > limit {
            assert(views(out@) =~= views(body).push(more_line((issues.len() - limit) as nat, "parse issues"@)));
        }
        assert(views(out@) =~= issue_lines(is, limit as nat));
    }
    out
}

/// A row of a count table.
fn count_line_text(key: &str, count: usize) -> (r: String)
    ensures
        r@ == count_line((key@, count)),
{
    let mut out = pad_right_text(key, 32);
    push_char(&mut out, ' ');
    push_str(&mut out, decimal_text(count as u64).as_str());
    out
}

/// Appends the title, head and rule of a count table.
fn push_table_head(out: &mut Vec<String>, title: &str, head: &str)
    ensures
        views(final(out)@) == views(old(out)@) + seq![title@, pad_right(head@, 32) + " Count"@, Seq::new(44, |i: int| '-')],
{
    let ghost base = out@;
    out.push(title.to_owned());
    let mut h = pad_right_text(head, 32);
    push_str(&mut h, " Count");
    out.push(h);
    let mut rule = String::new();
    pad_to_char(&mut rule, '-', 44);
    out.push(rule);
    assert(views(out@) =~= views(base) + seq![title@, pad_right(head@, 32) + " Count"@, Seq::new(44, |i: int| '-')]);
}

/// Appends `n` copies of a character.
fn pad_to_char(out: &mut String, c: char, n: usize)
    ensures
        final(out)@ == old(out)@ + Seq::new(n as nat, |i: int| c),
{
    let ghost base = out@;
    for k in 0..n
        invariant
            out@ == base + Seq::new(k as nat, |i: int| c),
    {
        push_char(out, c);
        assert(Seq::new((k + 1) as nat, |i: int| c) =~= Seq::new(k as nat, |i: int| c).push(c));
    }
}

/// Appends a table of counts by key.
fn push_key_table(out: &mut Vec<String>, title: &str, counts: &StrMap<usize>)
    ensures
        views(final(out)@) == views(old(out)@) + count_table(title@, "Key"@, counts@),
{
    let ghost base = views(out@);
    push_table_head(out, title, "Key");
    let ghost start = views(out@);
    let ghost s = counts@;
    let n = counts.len();
    for i in 0..n
        invariant
            n == s.len(),
            s == counts@,
            views(out@) == start + s.take(i as int).map_values(|e: (Seq<char>, usize)| count_line(e)),
    {
        let ghost prev = out@;
        out.push(count_line_text(counts.key_at(i).as_str(), *counts.value_at(i)));
        assert(views(out@) =~= views(prev).push(count_line(s[i as int])));
        assert(s.take(i + 1).map_values(|e: (Seq<char>, usize)| count_line(e)) =~= s.take(i as int).map_values(
            |e: (Seq<char>, usize)| count_line(e),
        ).push(count_line(s[i as int])));
    }
    assert(s.take(n as int) =~= s);
    assert(views(out@) =~= base + count_table(title@, "Key"@, counts@));
}

/// Appends a table of counted values.
fn push_value_table(out: &mut Vec<String>, title: &str, pairs: &Vec<(String, usize)>)
    ensures
        views(final(out)@) == views(old(out)@) + count_table(title@, "Value"@, count_pairs(pairs@)),
{
    let ghost base = views(out@);
    push_table_head(out, title, "Value");
    let ghost start = views(out@);
    let ghost s = count_pairs(pairs@);
    for i in 0..pairs.len()
        invariant
            s == count_pairs(pairs@),
            views(out@) == start + s.take(i as int).map_values(|e: (Seq<char>, usize)| count_line(e)),
    {
        let ghost prev = out@;
        out.push(count_line_text(pairs[i].0.as_str(), pairs[i].1));
        assert(views(out@) =~= views(prev).push(count_line(s[i as int])));
        assert(s.take(i + 1).map_values(|e: (Seq<char>, usize)| count_line(e)) =~= s.take(i as int).map_values(
            |e: (Seq<char>, usize)| count_line(e),
        ).push(count_line(s[i as int])));
    }
    assert(s.take(pairs.len() as int) =~= s);
    assert(views(out@) =~= base + count_table(title@, "Value"@, s));
}

/// Appends an empty line.
fn push_blank(out: &mut Vec<String>)
    ensures
        views(final(out)@) == views(old(out)@) + seq![Seq::<char>::empty()],
{
    let ghost base = out@;
    out.push(String::new());
    assert(views(out@) =~= views(base) + seq![Seq::<char>::empty()]);
}

/// The lines that show a summary.
pub fn summary_lines_text(summary: &Summary) -> (r: Vec<String>)
    ensures
        views(r@) == summary_lines(summary@),
{
    let mut out: Vec<String> = Vec::new();
    let mut total = "Total records: ".to_owned();
    push_str(&mut total, decimal_text(summary.total as u64).as_str());
    out.push(total);
    push_blank(&mut out);
    assert(views(out@) =~= seq!["Total records: "@ + decimal(summary.total as nat), Seq::empty()]);
    push_key_table(&mut out, "Level counts", &summary.level_counts);
    push_blank(&mut out);
    push_key_table(&mut out, "Grouped counts", &summary.grouped_counts);
    push_blank(&mut out);
    push_key_table(&mut out, "Source counts", &summary.source_counts);
    push_blank(&mut out);
    push_value_table(&mut out, "Top sources", &summary.top_sources);
    let ghost before = views(out@);
    match &summary.top_field_name {
        Some(name) => {
            push_blank(&mut out);
            let mut title = "Top field values: ".to_owned();
            push_str(&mut title, name.as_str());
            push_value_table(&mut out, title.as_str(), &summary.top_field_values);
        },
        None => {},
    }
    proof {
        let s = summary@;
        match s.top_field_name {
            Some(name) => {
                assert(views(out@) =~= before + (seq![Seq::<char>::empty()] + count_table(
                    "Top field values: "@ + name,
                    "Value"@,
                    s.top_field_values,
                )));
            },
            None => {
                assert(views(out@) =~= before + Seq::<Seq<char>>::empty());
            },
        }
        assert(views(out@) =~= summary_lines(s));
    }
    out
}

/// What `scan` shows: how many records and issues were loaded, the first ten
/// records and the first five issues.
pub open spec fn scan_lines(d: DatasetView) -> Seq<Seq<char>> {
    seq!["Loaded "@ + decimal(d.records.len()) + " records"@, "Parse issues: "@ + decimal(d.issues.len())]
        + record_lines(d.records, 10) + issue_lines(d.issues, 5)
}

/// What `filter` shows: how many records matched, the first `limit` of them
/// and the first five issues of the input.
pub open spec fn filter_lines(rs: Seq<RecordView>, is: Seq<IssueView>, limit: nat) -> Seq<Seq<char>> {
    seq!["Matched "@ + decimal(rs.len()) + " records"@] + record_lines(rs, limit) + issue_lines(is, 5)
}

/// What `stats` shows: the summary, then the first five issues of the input.
pub open spec fn stats_lines(s: SummaryView, is: Seq<IssueView>) -> Seq<Seq<char>> {
    summary_lines(s) + issue_lines(is, 5)
}

/// Appends lines to lines.
fn append_lines(out: &mut Vec<String>, more: Vec<String>)
    ensures
        views(final(out)@) == views(old(out)@) + views(more@),
{
    let ghost base = views(out@);
    let ghost m = views(more@);
    let mut more = more;
    out.append(&mut more);
    assert(views(out@) =~= base + m);
}

/// A count followed by a word, after a lead-in.
fn counted_line(lead: &str, n: usize, tail: &str) -> (r: String)
    ensures
        r@ == lead@ + decimal(n as nat) + tail@,
{
    let mut out = lead.to_owned();
    push_str(&mut out, decimal_text(n as u64).as_str());
    push_str(&mut out, tail);
    out
}

/// The lines that `scan` shows for a loaded dataset.
pub fn scan_lines_text(dataset: &LogDataset) -> (r: Vec<String>)
    ensures
        views(r@) == scan_lines(dataset@),
{
    let mut out: Vec<String> = Vec::new();
    out.push(counted_line("Loaded ", dataset.records.len(), " records"));
    let mut issues = "Parse issues: ".to_owned();
    push_str(&mut issues, decimal_text(dataset.issue_count() as u64).as_str());
    out.push(issues);
    let ghost head = views(out@);
    assert(head =~= seq!["Loaded "@ + decimal(dataset@.records.len()) + " records"@, "Parse issues: "@ + decimal(dataset@.issues.len())]);
    append_lines(&mut out, record_lines_text(&dataset.records, 10));
    append_lines(&mut out, issue_lines_text(&dataset.issues, 5));
    assert(views(out@) =~= scan_lines(dataset@));
    out
}

/// The lines that `filter` shows for the records kept and the input's issues.
pub fn filter_lines_text(records: &[LogRecord], issues: &[ParseIssue], limit: usize) -> (r: Vec<String>)
    ensures
        views(r@) == filter_lines(record_views(records@), issue_views(issues@), limit as nat),
{
    let mut out: Vec<String> = Vec::new();
    out.push(counted_line("Matched ", records.len(), " records"));
    assert(views(out@) =~= seq!["Matched "@ + decimal(records@.len()) + " records"@]);
    append_lines(&mut out, record_lines_text(records, limit));
    append_lines(&mut out, issue_lines_text(issues, 5));
    assert(views(out@) =~= filter_lines(record_views(records@), issue_views(issues@), limit as nat));
    out
}

/// The lines that `stats` shows for a summary and the input's issues.
pub fn stats_lines_text(summary: &Summary, issues: &[ParseIssue]) -> (r: Vec<String>)
    ensures
        views(r@) == stats_lines(summary@, issue_views(issues@)),
{
    let mut out = summary_lines_text(summary);
    append_lines(&mut out, issue_lines_text(issues, 5));
    out
}

/// The line that `report` shows once the report is written.
pub fn report_written_line(count: usize, output: &str) -> (r: String)
    ensures
        r@ == "Wrote report for "@ + decimal(count as nat) + " records to "@ + output@,
{
    let mut out = counted_line("Wrote report for ", count, " records to ");
    push_str(&mut out, output);
    out
}

} // verus!
