//! Reading records from plain log lines, JSON lines and CSV.
use crate::csvio::{read_csv, csv_table, CsvRowError};
use crate::error::{result_view, ErrorView, LoglensError};
use crate::json::{json_parse, parse_json_line, JsonField, JsonValue};
use crate::model::{
    lemma_text_fields_insert, parse_level, issue_views, record_views, text_fields, DatasetView,
    InputFormat, IssueView, LogDataset, LogLevel, LogRecord, ParseIssue, RecordView,
};
use crate::pattern::{compile_pattern, pattern_captures, regex_captures, regex_error, groups_view, Pattern};
use crate::strmap::{keys_sorted, lemma_map_insert, lookup, map_insert, StrMap};
use crate::text::{
    blank, chars_are, chars_of, is_blank, join, join_texts, lines, lower, lower_chars, push_str,
    split_lines, trim, trim_bounds, trim_text, slice_chars, views,
};
use crate::paths::{path_extension, path_extension_of};
use crate::time::{parse_timestamp, timestamp_value, Timestamp};
use vstd::prelude::*;

verus! {

// ---------------------------------------------------------------------------
// Building a record from named values
// ---------------------------------------------------------------------------

/// Keys (lower-cased) that give a record its time.
pub open spec fn is_time_key(k: Seq<char>) -> bool {
    k == "timestamp"@ || k == "time"@ || k == "ts"@
}

/// Keys (lower-cased) that give a record its level.
pub open spec fn is_level_key(k: Seq<char>) -> bool {
    k == "level"@ || k == "severity"@
}

/// Keys (lower-cased) that give a record its message.
pub open spec fn is_message_key(k: Seq<char>) -> bool {
    k == "message"@ || k == "msg"@ || k == "event"@
}

/// The parts of a record gathered from named values so far.
pub struct Assembly {
    pub timestamp: Option<Timestamp>,
    pub level: Option<LogLevel>,
    pub message: Option<String>,
    pub fields: StrMap<String>,
}

/// An assembly with its texts taken by their views.
pub struct AssemblyView {
    pub timestamp: Option<Timestamp>,
    pub level: Option<LogLevel>,
    pub message: Option<Seq<char>>,
    pub fields: Seq<(Seq<char>, Seq<char>)>,
}

impl View for Assembly {
    type V = AssemblyView;

    open spec fn view(&self) -> AssemblyView {
        AssemblyView {
            timestamp: self.timestamp,
            level: self.level,
            message: match self.message {
                Some(m) => Some(m@),
                None => None,
            },
            fields: text_fields(self.fields@),
        }
    }
}

/// The assembly after one named value: `raw` is the key as written, `norm`
/// the key it is recognised by, `text` the value. The time, level and message
/// keys set those parts (a later one replacing an earlier one); any other
/// value becomes a field under its key as written.
pub open spec fn absorb_item(a: AssemblyView, raw: Seq<char>, norm: Seq<char>, text: Seq<char>) -> AssemblyView {
    if is_time_key(norm) {
        AssemblyView { timestamp: timestamp_value(text), level: a.level, message: a.message, fields: a.fields }
    } else if is_level_key(norm) {
        AssemblyView { timestamp: a.timestamp, level: parse_level(text), message: a.message, fields: a.fields }
    } else if is_message_key(norm) {
        AssemblyView { timestamp: a.timestamp, level: a.level, message: Some(text), fields: a.fields }
    } else {
        AssemblyView {
            timestamp: a.timestamp,
            level: a.level,
            message: a.message,
            fields: map_insert(a.fields, raw, text),
        }
    }
}

/// The assembly of a sequence of named values, taken in order.
pub open spec fn assemble(items: Seq<(Seq<char>, Seq<char>, Seq<char>)>) -> AssemblyView
    decreases items.len(),
{
    if items.len() == 0 {
        AssemblyView { timestamp: None, level: None, message: None, fields: Seq::empty() }
    } else {
        let it = items.last();
        absorb_item(assemble(items.drop_last()), it.0, it.1, it.2)
    }
}

impl Assembly {
    /// Nothing gathered yet.
    pub fn new() -> (r: Assembly)
        ensures
            r@ == assemble(Seq::empty()),
    {
        let r = Assembly { timestamp: None, level: None, message: None, fields: StrMap::new() };
        assert(r@.fields =~= Seq::<(Seq<char>, Seq<char>)>::empty());
        r
    }

    /// Takes in one named value (see `absorb_item`).
    pub fn absorb(&mut self, raw: String, norm: &Vec<char>, text: String)
        ensures
            final(self)@ == absorb_item(old(self)@, raw@, norm@, text@),
    {
        if chars_are(norm, "timestamp") || chars_are(norm, "time") || chars_are(norm, "ts") {
            self.timestamp = match parse_timestamp(text.as_str()) {
                Ok(t) => Some(t),
                Err(_) => None,
            };
        } else if chars_are(norm, "level") || chars_are(norm, "severity") {
            self.level = LogLevel::parse(text.as_str());
        } else if chars_are(norm, "message") || chars_are(norm, "msg") || chars_are(norm, "event") {
            self.message = Some(text);
        } else {
            let ghost before = self.fields@;
            self.fields.insert(raw, text);
            proof {
                lemma_text_fields_insert(before, raw@, text);
            }
        }
    }
}

// ---------------------------------------------------------------------------
// Plain log lines
// ---------------------------------------------------------------------------

/// Lines such as `[2026-06-20 10:01:00] [ERROR] timeout`: an optional time
/// in brackets, an optional level in brackets, the message.
pub const BRACKETED_PATTERN: &'static str = "^\\s*(?:\\[(?P<ts>[^\\]]+)\\]\\s*)?(?:\\[(?P<level>[A-Za-z]+)\\]\\s*)?(?P<msg>.*)$";

/// Lines such as `2026-06-20 10:00:00 INFO service started`: an optional
/// time, a level word, the message.
pub const SIMPLE_PATTERN: &'static str = "^\\s*(?:(?P<ts>\\d{4}-\\d{2}-\\d{2}[ T]\\d{2}:\\d{2}:\\d{2}(?:Z|[+-]\\d{2}:\\d{2})?)\\s+)?(?P<level>TRACE|DEBUG|INFO|WARN|WARNING|ERROR|FATAL|CRITICAL)\\s+(?P<msg>.*)$";

/// Group `i` of a capture, `None` where it is missing.
pub open spec fn group(g: Seq<Option<Seq<char>>>, i: int) -> Option<Seq<char>> {
    if 0 <= i < g.len() {
        g[i]
    } else {
        None
    }
}

/// The record a match of either line pattern gives: group 1 the time,
/// group 2 the level, group 3 the message (trimmed).
pub open spec fn captured_record(g: Seq<Option<Seq<char>>>, source: Seq<char>) -> RecordView {
    RecordView {
        timestamp: match group(g, 1) {
            Some(t) => timestamp_value(t),
            None => None,
        },
        level: match group(g, 2) {
            Some(l) => parse_level(l),
            None => None,
        },
        source,
        message: trim(
            match group(g, 3) {
                Some(m) => m,
                None => Seq::empty(),
            },
        ),
        fields: Seq::empty(),
    }
}

/// The record a plain line gives: by the simple pattern if it matches, else
/// by the bracketed one, else the whole trimmed line as the message.
pub open spec fn plain_record(line: Seq<char>, source: Seq<char>) -> RecordView {
    match regex_captures(SIMPLE_PATTERN@, line) {
        Some(g) => captured_record(g, source),
        None => match regex_captures(BRACKETED_PATTERN@, line) {
            Some(g) => captured_record(g, source),
            None => RecordView {
                timestamp: None,
                level: None,
                source,
                message: trim(line),
                fields: Seq::empty(),
            },
        },
    }
}

/// The records of the non-blank lines, in order.
pub open spec fn plain_records(ls: Seq<Seq<char>>, source: Seq<char>) -> Seq<RecordView>
    decreases ls.len(),
{
    if ls.len() == 0 {
        Seq::empty()
    } else {
        let prev = plain_records(ls.drop_last(), source);
        if is_blank(ls.last()) {
            prev
        } else {
            prev.push(plain_record(ls.last(), source))
        }
    }
}

/// What the plain log parser gives for an input: a record for each non-blank
/// line and no issues, unless one of the two patterns does not compile.
pub open spec fn plain_outcome(input: Seq<char>, source: Seq<char>) -> Result<DatasetView, ErrorView> {
    match regex_error(BRACKETED_PATTERN@) {
        Some(m) => Err(ErrorView::Regex(m)),
        None => match regex_error(SIMPLE_PATTERN@) {
            Some(m) => Err(ErrorView::Regex(m)),
            None => Ok(DatasetView { records: plain_records(lines(input), source), issues: Seq::empty() }),
        },
    }
}

/// The record of a match of a line pattern.
pub fn record_from_groups(g: &Vec<Option<String>>, source: &str) -> (r: LogRecord)
    ensures
        r@ == captured_record(groups_view(g@), source@),
{
    let ghost gv = groups_view(g@);
    let message = if g.len() > 3 {
        match &g[3] {
            Some(m) => trim_text(m.as_str()),
            None => String::new(),
        }
    } else {
        String::new()
    };
    assert(trim(Seq::<char>::empty()) =~= Seq::<char>::empty());
    assert(g.len() > 3 ==> gv[3] == match g@[3] {
        Some(m) => Some(m@),
        None => None::<Seq<char>>,
    });
    let mut record = LogRecord { timestamp: None, level: None, source: source.to_owned(), message, fields: StrMap::new() };
    if g.len() > 1 {
        if let Some(t) = &g[1] {
            record.timestamp = match parse_timestamp(t.as_str()) {
                Ok(ts) => Some(ts),
                Err(_) => None,
            };
        }
    }
    if g.len() > 2 {
        if let Some(l) = &g[2] {
            record.level = LogLevel::parse(l.as_str());
        }
    }
    assert(record@.fields =~= Seq::<(Seq<char>, Seq<char>)>::empty());
    record
}

/// The record of one plain line (see `plain_record`).
fn parse_plain_line(line: &str, source: &str, simple: &Pattern, bracketed: &Pattern) -> (r: LogRecord)
    requires
        simple.source() == SIMPLE_PATTERN@,
        bracketed.source() == BRACKETED_PATTERN@,
    ensures
        r@ == plain_record(line@, source@),
{
    if let Some(g) = pattern_captures(simple, line) {
        return record_from_groups(&g, source);
    }
    if let Some(g) = pattern_captures(bracketed, line) {
        return record_from_groups(&g, source);
    }
    let message = trim_text(line);
    let r = LogRecord::new(source, message.as_str());
    assert(r@.fields =~= Seq::<(Seq<char>, Seq<char>)>::empty());
    r
}

/// Reads plain log lines (see `plain_outcome`).
pub fn parse_plain_text(input: &str, source: &str) -> (r: Result<LogDataset, LoglensError>)
    ensures
        result_view(r) == plain_outcome(input@, source@),
{
    let bracketed = match compile_pattern(BRACKETED_PATTERN) {
        Ok(p) => p,
        Err(m) => return Err(LoglensError::Regex(m)),
    };
    let simple = match compile_pattern(SIMPLE_PATTERN) {
        Ok(p) => p,
        Err(m) => return Err(LoglensError::Regex(m)),
    };
    let all = split_lines(input);
    let ghost ls = lines(input@);
    let mut records: Vec<LogRecord> = Vec::new();
    for i in 0..all.len()
        invariant
            views(all@) == ls,
            simple.source() == SIMPLE_PATTERN@,
            bracketed.source() == BRACKETED_PATTERN@,
            record_views(records@) == plain_records(ls.take(i as int), source@),
    {
        let line = &all[i];
        proof {
            assert(ls.take(i + 1).drop_last() =~= ls.take(i as int));
            assert(ls.take(i + 1).last() == line@);
        }
        if !blank(line.as_str()) {
            let record = parse_plain_line(line.as_str(), source, &simple, &bracketed);
            let ghost prev = records@;
            records.push(record);
            assert(record_views(records@) =~= record_views(prev).push(record@));
        }
    }
    assert(ls.take(all.len() as int) =~= ls);
    let r = LogDataset::new(records, Vec::new());
    assert(r@.issues =~= Seq::<IssueView>::empty());
    Ok(r)
}

// ---------------------------------------------------------------------------
// JSON lines
// ---------------------------------------------------------------------------

/// The text of a JSON member value: empty for null, `true`/`false`, a number
/// or nested value as JSON, a string as it is.
pub open spec fn field_text(f: JsonField) -> Seq<char> {
    match f {
        JsonField::Null => Seq::empty(),
        JsonField::Bool(b) => if b {
            "true"@
        } else {
            "false"@
        },
        JsonField::Number(t) => t@,
        JsonField::Text(s) => s@,
        JsonField::Nested(t) => t@,
    }
}

/// The members of an object as named values, keys recognised in lower case.
pub open spec fn json_items(entries: Seq<(String, JsonField)>) -> Seq<(Seq<char>, Seq<char>, Seq<char>)> {
    entries.map_values(|e: (String, JsonField)| (e.0@, lower(e.0@), field_text(e.1)))
}

/// The record of a JSON value: a non-object is the message as JSON text; an
/// object gives its time, level and message keys and keeps the other members
/// as fields, the message being the whole object's JSON text where no member
/// gives one.
pub open spec fn json_record(v: JsonValue, source: Seq<char>) -> RecordView {
    match v {
        JsonValue::Other { text } => RecordView {
            timestamp: None,
            level: None,
            source,
            message: text@,
            fields: Seq::empty(),
        },
        JsonValue::Object { entries, text } => {
            let a = assemble(json_items(entries@));
            RecordView {
                timestamp: a.timestamp,
                level: a.level,
                source,
                message: match a.message {
                    Some(m) => m,
                    None => text@,
                },
                fields: a.fields,
            }
        },
    }
}

/// The records of the non-blank lines that read as JSON, in order.
pub open spec fn jsonl_records(ls: Seq<Seq<char>>, source: Seq<char>) -> Seq<RecordView>
    decreases ls.len(),
{
    if ls.len() == 0 {
        Seq::empty()
    } else {
        let prev = jsonl_records(ls.drop_last(), source);
        if is_blank(ls.last()) {
            prev
        } else {
            match json_parse(ls.last()) {
                Ok(v) => prev.push(json_record(v, source)),
                Err(_) => prev,
            }
        }
    }
}

/// An issue for each non-blank line that is no JSON, with its line number
/// (counting from 1), the error and the line itself.
pub open spec fn jsonl_issues(ls: Seq<Seq<char>>, source: Seq<char>) -> Seq<IssueView>
    decreases ls.len(),
{
    if ls.len() == 0 {
        Seq::empty()
    } else {
        let prev = jsonl_issues(ls.drop_last(), source);
        if is_blank(ls.last()) {
            prev
        } else {
            match json_parse(ls.last()) {
                Ok(_) => prev,
                Err(m) => prev.push(
                    IssueView {
                        source,
                        line: ls.len() as usize,
                        reason: "invalid JSON: "@ + m,
                        raw: ls.last(),
                    },
                ),
            }
        }
    }
}

/// What the JSON lines parser gives for an input.
pub open spec fn jsonl_outcome(input: Seq<char>, source: Seq<char>) -> DatasetView {
    DatasetView {
        records: jsonl_records(lines(input), source),
        issues: jsonl_issues(lines(input), source),
    }
}

/// The text of a JSON member value (see `field_text`).
fn value_to_text(f: &JsonField) -> (r: String)
    ensures
        r@ == field_text(*f),
{
    match f {
        JsonField::Null => String::new(),
        JsonField::Bool(b) => if *b {
            "true".to_owned()
        } else {
            "false".to_owned()
        },
        JsonField::Number(t) => t.clone(),
        JsonField::Text(s) => s.clone(),
        JsonField::Nested(t) => t.clone(),
    }
}

/// The record of a JSON value (see `json_record`).
pub fn json_value_to_record(value: &JsonValue, source: &str) -> (r: LogRecord)
    ensures
        r@ == json_record(*value, source@),
{
    match value {
        JsonValue::Other { text } => {
            let r = LogRecord::new(source, text.as_str());
            assert(r@.fields =~= Seq::<(Seq<char>, Seq<char>)>::empty());
            r
        },
        JsonValue::Object { entries, text } => {
            let ghost items = json_items(entries@);
            let mut a = Assembly::new();
            for i in 0..entries.len()
                invariant
                    items == json_items(entries@),
                    a@ == assemble(items.take(i as int)),
            {
                let key = &entries[i].0;
                let norm = lower_chars(&chars_of(key.as_str()));
                let t = value_to_text(&entries[i].1);
                proof {
                    assert(items.take(i + 1).drop_last() =~= items.take(i as int));
                }
                a.absorb(key.clone(), &norm, t);
            }
            assert(items.take(entries.len() as int) =~= items);
            let message = match a.message {
                Some(m) => m,
                None => text.clone(),
            };
            LogRecord {
                timestamp: a.timestamp,
                level: a.level,
                source: source.to_owned(),
                message,
                fields: a.fields,
            }
        },
    }
}

/// Reads JSON lines (see `jsonl_outcome`): a line that is no JSON becomes an
/// issue and the other lines are still read.
pub fn parse_jsonl_text(input: &str, source: &str) -> (r: LogDataset)
    ensures
        r@ == jsonl_outcome(input@, source@),
{
    let all = split_lines(input);
    let ghost ls = lines(input@);
    let mut records: Vec<LogRecord> = Vec::new();
    let mut issues: Vec<ParseIssue> = Vec::new();
    for i in 0..all.len()
        invariant
            views(all@) == ls,
            record_views(records@) == jsonl_records(ls.take(i as int), source@),
            issue_views(issues@) == jsonl_issues(ls.take(i as int), source@),
    {
        let line = &all[i];
        proof {
            assert(ls.take(i + 1).drop_last() =~= ls.take(i as int));
            assert(ls.take(i + 1).last() == line@);
            assert(ls.take(i + 1).len() == i + 1);
        }
        if !blank(line.as_str()) {
            match parse_json_line(line.as_str()) {
                Ok(value) => {
                    let record = json_value_to_record(&value, source);
                    let ghost prev = records@;
                    records.push(record);
                    assert(record_views(records@) =~= record_views(prev).push(record@));
                },
                Err(m) => {
                    let mut reason = String::new();
                    push_str(&mut reason, "invalid JSON: ");
                    push_str(&mut reason, m.as_str());
                    let issue = ParseIssue::new(source, i + 1, reason.as_str(), line.as_str());
                    let ghost prev = issues@;
                    issues.push(issue);
                    assert(issue_views(issues@) =~= issue_views(prev).push(issue@));
                },
            }
        }
    }
    assert(ls.take(all.len() as int) =~= ls);
    LogDataset::new(records, issues)
}

// ---------------------------------------------------------------------------
// CSV
// ---------------------------------------------------------------------------

/// The cells of a row as named values: each header (as written, and trimmed
/// and lower-cased to be recognised) with the cell under it.
pub open spec fn csv_items(headers: Seq<Seq<char>>, row: Seq<Seq<char>>) -> Seq<(Seq<char>, Seq<char>, Seq<char>)> {
    let n = if headers.len() < row.len() {
        headers.len()
    } else {
        row.len()
    };
    Seq::new(n, |i: int| (headers[i], lower(trim(headers[i])), row[i]))
}

/// The record of a CSV row; where no message cell gives a non-empty message,
/// the message is all cells of the row joined by spaces.
pub open spec fn csv_row_record(headers: Seq<Seq<char>>, row: Seq<Seq<char>>, source: Seq<char>) -> RecordView {
    let a = assemble(csv_items(headers, row));
    RecordView {
        timestamp: a.timestamp,
        level: a.level,
        source,
        message: match a.message {
            Some(m) => if m.len() > 0 {
                m
            } else {
                join(row, " "@)
            },
            None => join(row, " "@),
        },
        fields: a.fields,
    }
}

/// The records of the rows that were read, in order.
pub open spec fn csv_records(
    headers: Seq<Seq<char>>,
    rows: Seq<Result<Vec<String>, CsvRowError>>,
    source: Seq<char>,
) -> Seq<RecordView>
    decreases rows.len(),
{
    if rows.len() == 0 {
        Seq::empty()
    } else {
        let prev = csv_records(headers, rows.drop_last(), source);
        match rows.last() {
            Ok(row) => prev.push(csv_row_record(headers, views(row@), source)),
            Err(_) => prev,
        }
    }
}

/// An issue for each row the reader rejected, with the line the reader gives
/// (0 where it gives none) and no raw text.
pub open spec fn csv_issues(rows: Seq<Result<Vec<String>, CsvRowError>>, source: Seq<char>) -> Seq<IssueView>
    decreases rows.len(),
{
    if rows.len() == 0 {
        Seq::empty()
    } else {
        let prev = csv_issues(rows.drop_last(), source);
        match rows.last() {
            Ok(_) => prev,
            Err(e) => prev.push(
                IssueView {
                    source,
                    line: (match e.line {
                        Some(l) => l,
                        None => 0,
                    }) as usize,
                    reason: "invalid CSV row: "@ + e.message@,
                    raw: Seq::empty(),
                },
            ),
        }
    }
}

/// What the CSV parser gives for an input: an error where the header row
/// cannot be read, else the records of the good rows and issues for the bad.
pub open spec fn csv_outcome(input: Seq<char>, source: Seq<char>) -> Result<DatasetView, ErrorView> {
    let t = csv_table(input);
    match t.headers {
        Err(m) => Err(ErrorView::Csv(m@)),
        Ok(h) => Ok(
            DatasetView {
                records: csv_records(views(h@), t.rows@, source),
                issues: csv_issues(t.rows@, source),
            },
        ),
    }
}

/// The record of one CSV row (see `csv_row_record`).
pub fn csv_row_to_record(headers: &Vec<String>, row: &Vec<String>, source: &str) -> (r: LogRecord)
    ensures
        r@ == csv_row_record(views(headers@), views(row@), source@),
{
    let ghost items = csv_items(views(headers@), views(row@));
    let n = if headers.len() < row.len() {
        headers.len()
    } else {
        row.len()
    };
    let mut a = Assembly::new();
    for i in 0..n
        invariant
            n <= headers.len(),
            n <= row.len(),
            items == csv_items(views(headers@), views(row@)),
            items.len() == n,
            a@ == assemble(items.take(i as int)),
    {
        let header = &headers[i];
        let hv = chars_of(header.as_str());
        let (lo, hi) = trim_bounds(&hv);
        let norm = lower_chars(&slice_chars(&hv, lo, hi));
        proof {
            assert(items.take(i + 1).drop_last() =~= items.take(i as int));
            assert(items[i as int] == (header@, lower(trim(header@)), row@[i as int]@));
        }
        a.absorb(header.clone(), &norm, row[i].clone());
    }
    assert(items.take(n as int) =~= items);
    let message = match a.message {
        Some(m) => if m.as_str().is_empty() {
            join_texts(row, " ")
        } else {
            m
        },
        None => join_texts(row, " "),
    };
    LogRecord { timestamp: a.timestamp, level: a.level, source: source.to_owned(), message, fields: a.fields }
}

/// Reads CSV with a header row (see `csv_outcome`).
pub fn parse_csv_text(input: &str, source: &str) -> (r: Result<LogDataset, LoglensError>)
    ensures
        result_view(r) == csv_outcome(input@, source@),
{
    let table = read_csv(input);
    let headers = match &table.headers {
        Ok(h) => h,
        Err(m) => return Err(LoglensError::Csv(m.clone())),
    };
    let ghost rows = table.rows@;
    let mut records: Vec<LogRecord> = Vec::new();
    let mut issues: Vec<ParseIssue> = Vec::new();
    for i in 0..table.rows.len()
        invariant
            rows == table.rows@,
            table == csv_table(input@),
            table.headers == Ok::<Vec<String>, String>(*headers),
            record_views(records@) == csv_records(views(headers@), rows.take(i as int), source@),
            issue_views(issues@) == csv_issues(rows.take(i as int), source@),
    {
        proof {
            assert(rows.take(i + 1).drop_last() =~= rows.take(i as int));
            assert(rows.take(i + 1).last() == rows[i as int]);
        }
        match &table.rows[i] {
            Ok(row) => {
                let record = csv_row_to_record(headers, row, source);
                let ghost prev = records@;
                records.push(record);
                assert(record_views(records@) =~= record_views(prev).push(record@));
            },
            Err(e) => {
                let line: u64 = match e.line {
                    Some(l) => l,
                    None => 0,
                };
                let mut reason = String::new();
                push_str(&mut reason, "invalid CSV row: ");
                push_str(&mut reason, e.message.as_str());
                let empty = String::new();
                let issue = ParseIssue::new(source, line as usize, reason.as_str(), empty.as_str());
                let ghost prev = issues@;
                issues.push(issue);
                assert(issue_views(issues@) =~= issue_views(prev).push(issue@));
            },
        }
    }
    assert(rows.take(table.rows.len() as int) =~= rows);
    Ok(LogDataset::new(records, issues))
}

// ---------------------------------------------------------------------------
// What the readers keep
// ---------------------------------------------------------------------------

/// The number of lines that are not blank.
pub open spec fn nonblank_count(ls: Seq<Seq<char>>) -> nat
    decreases ls.len(),
{
    if ls.len() == 0 {
        0
    } else {
        nonblank_count(ls.drop_last()) + if is_blank(ls.last()) {
            0nat
        } else {
            1nat
        }
    }
}

/// Plain lines: one record for each line that is not blank, each from the
/// input's source.
pub proof fn lemma_plain_one_record_per_line(ls: Seq<Seq<char>>, source: Seq<char>)
    ensures
        plain_records(ls, source).len() == nonblank_count(ls),
        forall|i: int| 0 <= i < plain_records(ls, source).len() ==> #[trigger] plain_records(ls, source)[i].source == source,
    decreases ls.len(),
{
    if ls.len() > 0 {
        lemma_plain_one_record_per_line(ls.drop_last(), source);
    }
}

/// JSON lines: each line that is not blank gives a record or an issue, never
/// both; every record comes from the input's source.
pub proof fn lemma_jsonl_every_line_counted(ls: Seq<Seq<char>>, source: Seq<char>)
    ensures
        jsonl_records(ls, source).len() + jsonl_issues(ls, source).len() == nonblank_count(ls),
        forall|i: int| 0 <= i < jsonl_records(ls, source).len() ==> #[trigger] jsonl_records(ls, source)[i].source == source,
    decreases ls.len(),
{
    if ls.len() > 0 {
        lemma_jsonl_every_line_counted(ls.drop_last(), source);
    }
}

/// JSON lines: an issue names the line it came from (counting from 1), holds
/// that line, and that line is not blank and is no JSON.
pub proof fn lemma_jsonl_issue_lines(ls: Seq<Seq<char>>, source: Seq<char>)
    requires
        ls.len() <= usize::MAX,
    ensures
        forall|i: int| 0 <= i < jsonl_issues(ls, source).len() ==> {
            let issue = #[trigger] jsonl_issues(ls, source)[i];
            &&& 1 <= issue.line <= ls.len()
            &&& ls[issue.line - 1] == issue.raw
            &&& !is_blank(issue.raw)
            &&& json_parse(issue.raw) is Err
            &&& issue.source == source
        },
    decreases ls.len(),
{
    if ls.len() > 0 {
        let prev = ls.drop_last();
        lemma_jsonl_issue_lines(prev, source);
        assert forall|i: int| 0 <= i < jsonl_issues(ls, source).len() implies {
            let issue = #[trigger] jsonl_issues(ls, source)[i];
            &&& 1 <= issue.line <= ls.len()
            &&& ls[issue.line - 1] == issue.raw
            &&& !is_blank(issue.raw)
            &&& json_parse(issue.raw) is Err
            &&& issue.source == source
        } by {
            if i < jsonl_issues(prev, source).len() {
                let issue = jsonl_issues(prev, source)[i];
                assert(jsonl_issues(ls, source)[i] == issue);
                assert(ls[issue.line - 1] == prev[issue.line - 1]);
            }
        }
    }
}

/// JSON lines: there is no issue exactly when every line is blank or JSON,
/// and the first issue is the first line that is neither.
pub proof fn lemma_jsonl_first_issue(ls: Seq<Seq<char>>, source: Seq<char>)
    requires
        ls.len() <= usize::MAX,
    ensures
        jsonl_issues(ls, source).len() == 0 <==> forall|k: int| 0 <= k < ls.len() ==> (is_blank(#[trigger] ls[k])
            || json_parse(ls[k]) is Ok),
        jsonl_issues(ls, source).len() > 0 ==> forall|k: int| 0 <= k < jsonl_issues(ls, source)[0].line - 1 ==> (
        is_blank(#[trigger] ls[k]) || json_parse(ls[k]) is Ok),
    decreases ls.len(),
{
    if ls.len() > 0 {
        let prev = ls.drop_last();
        lemma_jsonl_first_issue(prev, source);
        lemma_jsonl_issue_lines(prev, source);
        assert forall|k: int| 0 <= k < prev.len() implies prev[k] == ls[k] by {}
        if jsonl_issues(prev, source).len() > 0 {
            assert(jsonl_issues(ls, source)[0] == jsonl_issues(prev, source)[0]);
            let bad = jsonl_issues(prev, source)[0].line - 1;
            assert(!(is_blank(prev[bad]) || json_parse(prev[bad]) is Ok));
        }
    }
}

/// CSV: each row the reader yields gives a record or an issue, never both.
pub proof fn lemma_csv_every_row_counted(
    headers: Seq<Seq<char>>,
    rows: Seq<Result<Vec<String>, CsvRowError>>,
    source: Seq<char>,
)
    ensures
        csv_records(headers, rows, source).len() + csv_issues(rows, source).len() == rows.len(),
    decreases rows.len(),
{
    if rows.len() > 0 {
        lemma_csv_every_row_counted(headers, rows.drop_last(), source);
    }
}

// ---------------------------------------------------------------------------
// Parsers and formats
// ---------------------------------------------------------------------------

/// Reads plain log lines.
pub struct PlainLogParser;

/// Reads one JSON value per line.
pub struct JsonlParser;

/// Reads CSV with a header row.
pub struct CsvLogParser;

/// A reader of one input format.
pub trait RecordParser {
    /// What the parser gives for the whole text of an input read from `source`.
    spec fn outcome(&self, input: Seq<char>, source: Seq<char>) -> Result<DatasetView, ErrorView>;

    /// Reads the whole text of an input; `source` names the input in records
    /// and issues.
    fn parse_reader(&self, input: &str, source: &str) -> (r: Result<LogDataset, LoglensError>)
        ensures
            result_view(r) == self.outcome(input@, source@),
    ;
}

impl RecordParser for PlainLogParser {
    open spec fn outcome(&self, input: Seq<char>, source: Seq<char>) -> Result<DatasetView, ErrorView> {
        plain_outcome(input, source)
    }

    fn parse_reader(&self, input: &str, source: &str) -> (r: Result<LogDataset, LoglensError>) {
        parse_plain_text(input, source)
    }
}

impl RecordParser for JsonlParser {
    open spec fn outcome(&self, input: Seq<char>, source: Seq<char>) -> Result<DatasetView, ErrorView> {
        Ok(jsonl_outcome(input, source))
    }

    fn parse_reader(&self, input: &str, source: &str) -> (r: Result<LogDataset, LoglensError>) {
        Ok(parse_jsonl_text(input, source))
    }
}

impl RecordParser for CsvLogParser {
    open spec fn outcome(&self, input: Seq<char>, source: Seq<char>) -> Result<DatasetView, ErrorView> {
        csv_outcome(input, source)
    }

    fn parse_reader(&self, input: &str, source: &str) -> (r: Result<LogDataset, LoglensError>) {
        parse_csv_text(input, source)
    }
}

/// What reading an input in a format gives; `Auto` reads plain log lines.
pub open spec fn format_outcome(input: Seq<char>, source: Seq<char>, format: InputFormat) -> Result<DatasetView, ErrorView> {
    match format {
        InputFormat::Auto => plain_outcome(input, source),
        InputFormat::PlainLog => plain_outcome(input, source),
        InputFormat::Jsonl => Ok(jsonl_outcome(input, source)),
        InputFormat::Csv => csv_outcome(input, source),
    }
}

/// Reads the whole text of an input in the given format.
pub fn parse_records(input: &str, source: &str, format: InputFormat) -> (r: Result<LogDataset, LoglensError>)
    ensures
        result_view(r) == format_outcome(input@, source@, format),
{
    match format {
        InputFormat::Auto => PlainLogParser.parse_reader(input, source),
        InputFormat::PlainLog => PlainLogParser.parse_reader(input, source),
        InputFormat::Jsonl => JsonlParser.parse_reader(input, source),
        InputFormat::Csv => CsvLogParser.parse_reader(input, source),
    }
}

/// The format an input is read in: the requested one unless it is `Auto`;
/// else by the extension of the file name, in any case: `jsonl` and `ndjson`
/// JSON lines, `csv` CSV, `log`, `txt` or none plain lines; none for any
/// other extension.
pub open spec fn detected_format(path: Seq<char>, requested: InputFormat) -> Option<InputFormat> {
    if requested != InputFormat::Auto {
        Some(requested)
    } else {
        match path_extension(path) {
            None => Some(InputFormat::PlainLog),
            Some(e) => {
                let l = lower(e);
                if l == "jsonl"@ || l == "ndjson"@ {
                    Some(InputFormat::Jsonl)
                } else if l == "csv"@ {
                    Some(InputFormat::Csv)
                } else if l == "log"@ || l == "txt"@ {
                    Some(InputFormat::PlainLog)
                } else {
                    None
                }
            },
        }
    }
}

/// The format to read a path in (see `detected_format`); an extension that
/// names no format gives `UnsupportedFormat`.
pub fn detect_format(path: &str, requested: InputFormat) -> (r: Result<InputFormat, LoglensError>)
    ensures
        match r {
            Ok(f) => detected_format(path@, requested) == Some(f),
            Err(e) => detected_format(path@, requested) is None && e@ == (ErrorView::UnsupportedFormat {
                path: path@,
            }),
        },
{
    if requested != InputFormat::Auto {
        return Ok(requested);
    }
    match path_extension_of(path) {
        None => Ok(InputFormat::PlainLog),
        Some(e) => {
            let l = lower_chars(&e);
            if chars_are(&l, "jsonl") || chars_are(&l, "ndjson") {
                Ok(InputFormat::Jsonl)
            } else if chars_are(&l, "csv") {
                Ok(InputFormat::Csv)
            } else if chars_are(&l, "log") || chars_are(&l, "txt") {
                Ok(InputFormat::PlainLog)
            } else {
                Err(LoglensError::UnsupportedFormat { path: path.to_owned() })
            }
        },
    }
}

// ---------------------------------------------------------------------------
// Laws of record building and format detection
// ---------------------------------------------------------------------------

/// The key names the records read are distinct texts.
proof fn lemma_key_names_distinct()
    ensures
        "message"@ != "timestamp"@ && "message"@ != "time"@ && "message"@ != "ts"@,
        "message"@ != "level"@ && "message"@ != "severity"@,
        "msg"@ != "timestamp"@ && "msg"@ != "time"@ && "msg"@ != "ts"@,
        "msg"@ != "level"@ && "msg"@ != "severity"@,
        "event"@ != "timestamp"@ && "event"@ != "time"@ && "event"@ != "ts"@,
        "event"@ != "level"@ && "event"@ != "severity"@,
{
    reveal_strlit("message");
    reveal_strlit("msg");
    reveal_strlit("event");
    reveal_strlit("timestamp");
    reveal_strlit("time");
    reveal_strlit("ts");
    reveal_strlit("level");
    reveal_strlit("severity");
    assert("message"@.len() != "timestamp"@.len());
    assert("message"@[0] != "time"@[0] && "message"@[0] != "ts"@[0] && "message"@[0] != "level"@[0]);
    assert("message"@[0] != "severity"@[0]);
    assert("msg"@[0] != "timestamp"@[0] && "msg"@[0] != "time"@[0] && "msg"@[0] != "ts"@[0]);
    assert("msg"@[0] != "level"@[0] && "msg"@[0] != "severity"@[0]);
    assert("event"@[0] != "timestamp"@[0] && "event"@[0] != "time"@[0] && "event"@[0] != "ts"@[0]);
    assert("event"@[0] != "level"@[0] && "event"@[0] != "severity"@[0]);
}

/// The fields gathered stay sorted by key, and every field comes from a
/// named value whose key gives no time, level or message.
proof fn lemma_assemble_fields(items: Seq<(Seq<char>, Seq<char>, Seq<char>)>)
    ensures
        keys_sorted(assemble(items).fields),
        forall|k: Seq<char>| #[trigger] lookup(assemble(items).fields, k) is Some ==> exists|j: int|
            0 <= j < items.len() && (#[trigger] items[j]).0 == k && !is_time_key(items[j].1) && !is_level_key(items[j].1)
                && !is_message_key(items[j].1),
    decreases items.len(),
{
    if items.len() > 0 {
        let prev = items.drop_last();
        lemma_assemble_fields(prev);
        let it = items.last();
        let a = assemble(prev);
        lemma_map_insert(a.fields, it.0, it.2);
        assert forall|k: Seq<char>| #[trigger] lookup(assemble(items).fields, k) is Some implies exists|j: int|
            0 <= j < items.len() && (#[trigger] items[j]).0 == k && !is_time_key(items[j].1) && !is_level_key(items[j].1)
                && !is_message_key(items[j].1) by {
            if lookup(a.fields, k) is Some && !(!is_time_key(it.1) && !is_level_key(it.1) && !is_message_key(it.1) && k == it.0) {
                let j = choose|j: int| 0 <= j < prev.len() && (#[trigger] prev[j]).0 == k && !is_time_key(prev[j].1)
                    && !is_level_key(prev[j].1) && !is_message_key(prev[j].1);
                assert(items[j] == prev[j]);
            } else {
                assert(items[items.len() - 1] == it);
            }
        }
    }
}

/// The message of the values gathered is the text of the last value whose
/// key names the message.
proof fn lemma_assemble_message(items: Seq<(Seq<char>, Seq<char>, Seq<char>)>, i: int)
    requires
        0 <= i < items.len(),
        (items[i].1 == "message"@ || items[i].1 == "msg"@ || items[i].1 == "event"@),
        forall|j: int| #![trigger items[j]] i < j < items.len() ==> !(items[j].1 == "message"@ || items[j].1 == "msg"@
            || items[j].1 == "event"@),
    ensures
        assemble(items).message == Some(items[i].2),
    decreases items.len(),
{
    lemma_key_names_distinct();
    let prev = items.drop_last();
    if i < items.len() - 1 {
        assert forall|j: int| #![trigger prev[j]] i < j < prev.len() implies !(prev[j].1 == "message"@ || prev[j].1
            == "msg"@ || prev[j].1 == "event"@) by {
            assert(prev[j] == items[j]);
        }
        lemma_assemble_message(prev, i);
        assert(!(items.last().1 == "message"@ || items.last().1 == "msg"@ || items.last().1 == "event"@));
    }
}

/// JSON lines: the members named `message`, `msg` or `event` (in any case)
/// give the record its message, the last such member winning, and none of
/// them is kept as a field.
pub proof fn lemma_json_message_member(entries: Vec<(String, JsonField)>, text: String, source: Seq<char>, i: int)
    requires
        0 <= i < entries@.len(),
        (lower(entries@[i].0@) == "message"@ || lower(entries@[i].0@) == "msg"@ || lower(entries@[i].0@) == "event"@),
        forall|j: int| #![trigger entries@[j]] i < j < entries@.len() ==> !(lower(entries@[j].0@) == "message"@ || lower(
            entries@[j].0@,
        ) == "msg"@ || lower(entries@[j].0@) == "event"@),
    ensures
        json_record(JsonValue::Object { entries, text }, source).message == field_text(entries@[i].1),
        lookup(json_record(JsonValue::Object { entries, text }, source).fields, entries@[i].0@) is None,
{
    let items = json_items(entries@);
    assert forall|j: int| #![trigger items[j]] i < j < items.len() implies !(items[j].1 == "message"@ || items[j].1
        == "msg"@ || items[j].1 == "event"@) by {
        assert(items[j].1 == lower(entries@[j].0@));
    }
    lemma_assemble_message(items, i);
    lemma_assemble_fields(items);
    let k = entries@[i].0@;
    if lookup(assemble(items).fields, k) is Some {
        let j = choose|j: int| 0 <= j < items.len() && (#[trigger] items[j]).0 == k && !is_time_key(items[j].1)
            && !is_level_key(items[j].1) && !is_message_key(items[j].1);
        assert(items[j].1 == lower(entries@[j].0@));
        assert(items[j].1 == lower(k));
        assert(false);
    }
}

/// Plain lines: a line the simple pattern matches, or failing that the
/// bracketed one, takes its time from the captured time group (read as a
/// time), its level from the level group and its message, trimmed, from the
/// message group; a line neither matches is its own trimmed message. Either
/// way the record comes from the input's source and has no fields.
pub proof fn lemma_plain_line_groups(line: Seq<char>, source: Seq<char>)
    ensures
        ({
            let r = plain_record(line, source);
            let chosen = match regex_captures(SIMPLE_PATTERN@, line) {
                Some(g) => Some(g),
                None => regex_captures(BRACKETED_PATTERN@, line),
            };
            &&& r.source == source
            &&& r.fields.len() == 0
            &&& match chosen {
                Some(g) => {
                    &&& r.timestamp == match group(g, 1) {
                        Some(t) => timestamp_value(t),
                        None => None,
                    }
                    &&& r.level == match group(g, 2) {
                        Some(l) => parse_level(l),
                        None => None,
                    }
                    &&& r.message == trim(group(g, 3).unwrap_or(Seq::empty()))
                },
                None => r.timestamp is None && r.level is None && r.message == trim(line),
            }
        }),
{
}

/// Format detection: a requested format is kept; under `Auto` the extension
/// decides, in any case: `jsonl` and `ndjson` are JSON lines, `csv` is CSV,
/// and `log`, `txt` or no extension at all are plain log lines.
pub proof fn lemma_detect_by_extension(path: Seq<char>, requested: InputFormat)
    ensures
        requested != InputFormat::Auto ==> detected_format(path, requested) == Some(requested),
        path_extension(path) is None ==> detected_format(path, InputFormat::Auto) == Some(InputFormat::PlainLog),
        path_extension(path) matches Some(e) ==> {
            &&& (lower(e) == "log"@ || lower(e) == "txt"@) ==> detected_format(path, InputFormat::Auto) == Some(
                InputFormat::PlainLog,
            )
            &&& (lower(e) == "jsonl"@ || lower(e) == "ndjson"@) ==> detected_format(path, InputFormat::Auto) == Some(
                InputFormat::Jsonl,
            )
            &&& lower(e) == "csv"@ ==> detected_format(path, InputFormat::Auto) == Some(InputFormat::Csv)
        },
{
    reveal_strlit("log");
    reveal_strlit("txt");
    reveal_strlit("jsonl");
    reveal_strlit("ndjson");
    reveal_strlit("csv");
    assert("log"@.len() != "jsonl"@.len() && "log"@.len() != "ndjson"@.len() && "txt"@.len() != "jsonl"@.len());
    assert("txt"@.len() != "ndjson"@.len() && "log"@[0] != "csv"@[0] && "txt"@[0] != "csv"@[0]);
    assert("csv"@.len() != "jsonl"@.len() && "csv"@.len() != "ndjson"@.len());
}

} // verus!
