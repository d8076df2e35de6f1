//! The data that the analysis works on: levels, records, parse issues,
//! datasets and field filters.
use crate::strmap::{insert_pos, map_insert, StrMap};
use crate::text::{
    chars_are, chars_of, is_ws, lower_char, find_char, find_char_exec, lower, lower_chars, string_from, trim,
    trim_bounds, trim_end, trim_start, slice_chars,
};
use crate::time::Timestamp;
use vstd::prelude::*;

verus! {

/// How the lines of an input are to be read.
#[derive(Clone, Copy, Debug, PartialEq, Eq, Structural)]
pub enum InputFormat {
    Auto,
    PlainLog,
    Jsonl,
    Csv,
}

/// The key by which records are grouped in statistics.
#[derive(Clone, Copy, Debug, PartialEq, Eq, Structural)]
pub enum GroupBy {
    Level,
    Source,
    Hour,
    Field,
}

/// Severity of a log record, from the least to the most severe.
#[derive(Clone, Copy, Debug, PartialEq, Eq, Structural, PartialOrd, Ord)]
pub enum LogLevel {
    Trace,
    Debug,
    Info,
    Warn,
    Error,
    Fatal,
}

/// The level that a (trimmed, lower-cased) name stands for.
pub open spec fn level_named(s: Seq<char>) -> Option<LogLevel> {
    if s == "trace"@ {
        Some(LogLevel::Trace)
    } else if s == "debug"@ {
        Some(LogLevel::Debug)
    } else if s == "info"@ || s == "information"@ {
        Some(LogLevel::Info)
    } else if s == "warn"@ || s == "warning"@ {
        Some(LogLevel::Warn)
    } else if s == "error"@ {
        Some(LogLevel::Error)
    } else if s == "fatal"@ || s == "critical"@ {
        Some(LogLevel::Fatal)
    } else {
        None
    }
}

/// What `LogLevel::parse` gives for a text.
pub open spec fn parse_level(s: Seq<char>) -> Option<LogLevel> {
    level_named(lower(trim(s)))
}

/// Position of a level in the order of severity.
pub open spec fn level_rank(l: LogLevel) -> nat {
    match l {
        LogLevel::Trace => 0,
        LogLevel::Debug => 1,
        LogLevel::Info => 2,
        LogLevel::Warn => 3,
        LogLevel::Error => 4,
        LogLevel::Fatal => 5,
    }
}

/// The upper-case name a level is shown by.
pub open spec fn level_label(l: LogLevel) -> Seq<char> {
    match l {
        LogLevel::Trace => "TRACE"@,
        LogLevel::Debug => "DEBUG"@,
        LogLevel::Info => "INFO"@,
        LogLevel::Warn => "WARN"@,
        LogLevel::Error => "ERROR"@,
        LogLevel::Fatal => "FATAL"@,
    }
}

impl LogLevel {
    /// Reads a level name, ignoring surrounding white space and ASCII case;
    /// `information`, `warning` and `critical` are accepted as aliases.
    pub fn parse(value: &str) -> (r: Option<LogLevel>)
        ensures
            r == parse_level(value@),
    {
        let v = chars_of(value);
        let (lo, hi) = trim_bounds(&v);
        let t = slice_chars(&v, lo, hi);
        let l = lower_chars(&t);
        if chars_are(&l, "trace") {
            Some(LogLevel::Trace)
        } else if chars_are(&l, "debug") {
            Some(LogLevel::Debug)
        } else if chars_are(&l, "info") || chars_are(&l, "information") {
            Some(LogLevel::Info)
        } else if chars_are(&l, "warn") || chars_are(&l, "warning") {
            Some(LogLevel::Warn)
        } else if chars_are(&l, "error") {
            Some(LogLevel::Error)
        } else if chars_are(&l, "fatal") || chars_are(&l, "critical") {
            Some(LogLevel::Fatal)
        } else {
            None
        }
    }

    /// Position in the order of severity, `Trace` being 0.
    pub fn rank(self) -> (r: u8)
        ensures
            r == level_rank(self),
    {
        match self {
            LogLevel::Trace => 0,
            LogLevel::Debug => 1,
            LogLevel::Info => 2,
            LogLevel::Warn => 3,
            LogLevel::Error => 4,
            LogLevel::Fatal => 5,
        }
    }

    /// The upper-case name of the level (`INFO`, `ERROR`, ...).
    pub fn label(self) -> (r: &'static str)
        ensures
            r@ == level_label(self),
    {
        match self {
            LogLevel::Trace => "TRACE",
            LogLevel::Debug => "DEBUG",
            LogLevel::Info => "INFO",
            LogLevel::Warn => "WARN",
            LogLevel::Error => "ERROR",
            LogLevel::Fatal => "FATAL",
        }
    }
}

/// Reading a level's own name gives the level back.
pub proof fn lemma_parse_label(l: LogLevel)
    ensures
        parse_level(level_label(l)) == Some(l),
{
    reveal_strlit("TRACE");
    reveal_strlit("DEBUG");
    reveal_strlit("INFO");
    reveal_strlit("WARN");
    reveal_strlit("ERROR");
    reveal_strlit("FATAL");
    reveal_strlit("trace");
    reveal_strlit("debug");
    reveal_strlit("info");
    reveal_strlit("information");
    reveal_strlit("warn");
    reveal_strlit("warning");
    reveal_strlit("error");
    reveal_strlit("fatal");
    reveal_strlit("critical");
    let s = level_label(l);
    assert(trim_start(s) == s);
    assert(trim_end(s) == s);
    assert(lower(s) =~= match l {
        LogLevel::Trace => "trace"@,
        LogLevel::Debug => "debug"@,
        LogLevel::Info => "info"@,
        LogLevel::Warn => "warn"@,
        LogLevel::Error => "error"@,
        LogLevel::Fatal => "fatal"@,
    });
    let t = lower(s);
    // Distinct names differ in length or in their first or second character.
    assert(t.len() != "information"@.len() && t.len() != "warning"@.len() && t.len() != "critical"@.len());
    match l {
        LogLevel::Trace => {},
        LogLevel::Debug => {
            assert(t[0] != "trace"@[0]);
        },
        LogLevel::Info => {
            assert(t[0] != "trace"@[0] && t[0] != "debug"@[0]);
        },
        LogLevel::Warn => {
            assert(t[0] != "trace"@[0] && t[0] != "debug"@[0] && t[0] != "info"@[0]);
        },
        LogLevel::Error => {
            assert(t[0] != "trace"@[0] && t[0] != "debug"@[0] && t[0] != "warn"@[0]);
            assert(t.len() != "info"@.len());
        },
        LogLevel::Fatal => {
            assert(t[0] != "trace"@[0] && t[0] != "debug"@[0] && t[0] != "warn"@[0] && t[0] != "error"@[0]);
            assert(t.len() != "info"@.len());
        },
    }
}

/// The first and last characters of a trimmed text are no white space.
proof fn lemma_trim_ends(s: Seq<char>)
    ensures
        trim(s).len() > 0 ==> !is_ws(trim(s)[0]) && !is_ws(trim(s).last()),
{
    lemma_trim_start_head(s);
    lemma_trim_end_prefix(trim_start(s));
}

/// Trimming the start leaves a text that starts with no white space.
proof fn lemma_trim_start_head(s: Seq<char>)
    ensures
        trim_start(s).len() > 0 ==> !is_ws(trim_start(s)[0]),
    decreases s.len(),
{
    if s.len() > 0 && is_ws(s[0]) {
        lemma_trim_start_head(s.drop_first());
    }
}

/// Trimming the end leaves a prefix that ends with no white space.
proof fn lemma_trim_end_prefix(u: Seq<char>)
    ensures
        trim_end(u).len() <= u.len(),
        trim_end(u) == u.take(trim_end(u).len() as int),
        trim_end(u).len() > 0 ==> !is_ws(trim_end(u).last()),
    decreases u.len(),
{
    if u.len() > 0 && is_ws(u.last()) {
        lemma_trim_end_prefix(u.drop_last());
        assert(u.drop_last().take(trim_end(u).len() as int) =~= u.take(trim_end(u).len() as int));
    } else {
        assert(u.take(u.len() as int) =~= u);
    }
}

/// Lower-casing keeps white space white space and other characters not.
proof fn lemma_lower_char_ws(c: char)
    ensures
        is_ws(lower_char(c)) == is_ws(c),
        lower_char(lower_char(c)) == lower_char(c),
{
}

/// A text with no white space at either end keeps none after lower-casing,
/// so trimming it again changes nothing.
proof fn lemma_trim_lower(x: Seq<char>)
    requires
        x.len() > 0 ==> !is_ws(x[0]) && !is_ws(x.last()),
    ensures
        trim(lower(x)) == lower(x),
        lower(lower(x)) == lower(x),
{
    let y = lower(x);
    if y.len() > 0 {
        lemma_lower_char_ws(x[0]);
        lemma_lower_char_ws(x.last());
        assert(y[0] == lower_char(x[0]));
        assert(y.last() == lower_char(x.last()));
    }
    assert(trim_start(y) == y);
    assert(trim_end(y) == y);
    assert forall|i: int| 0 <= i < y.len() implies #[trigger] lower(y)[i] == y[i] by {
        lemma_lower_char_ws(x[i]);
    }
    assert(lower(y) =~= y);
}

/// Reading a level ignores white space around the name and ASCII case: a
/// text reads as the trimmed, lower-cased text does, and it names a level
/// exactly when that form is one of the nine accepted names.
pub proof fn lemma_parse_level_normal(s: Seq<char>)
    ensures
        parse_level(s) == parse_level(lower(trim(s))),
        parse_level(s) is Some <==> {
            let t = lower(trim(s));
            ||| t == "trace"@
            ||| t == "debug"@
            ||| t == "info"@
            ||| t == "information"@
            ||| t == "warn"@
            ||| t == "warning"@
            ||| t == "error"@
            ||| t == "fatal"@
            ||| t == "critical"@
        },
{
    lemma_trim_ends(s);
    lemma_trim_lower(trim(s));
}

/// The ranks follow the order of severity and tell the levels apart.
pub proof fn lemma_rank_order(a: LogLevel, b: LogLevel)
    ensures
        (level_rank(a) == level_rank(b)) == (a == b),
        level_rank(a) <= 5,
{
}

/// One log entry.
#[derive(Debug)]
pub struct LogRecord {
    pub timestamp: Option<Timestamp>,
    pub level: Option<LogLevel>,
    pub source: String,
    pub message: String,
    pub fields: StrMap<String>,
}

impl LogRecord {
    /// A record with the given source and message, no time, no level and no fields.
    pub fn new(source: &str, message: &str) -> (r: LogRecord)
        ensures
            r.timestamp is None,
            r.level is None,
            r.source@ == source@,
            r.message@ == message@,
            r.fields@.len() == 0,
    {
        LogRecord {
            timestamp: None,
            level: None,
            source: source.to_owned(),
            message: message.to_owned(),
            fields: StrMap::new(),
        }
    }
}

/// A record with its texts taken by their views.
pub struct RecordView {
    pub timestamp: Option<Timestamp>,
    pub level: Option<LogLevel>,
    pub source: Seq<char>,
    pub message: Seq<char>,
    pub fields: Seq<(Seq<char>, Seq<char>)>,
}

/// Field entries with their values taken by their views.
pub open spec fn text_fields(s: Seq<(Seq<char>, String)>) -> Seq<(Seq<char>, Seq<char>)> {
    s.map_values(|e: (Seq<char>, String)| (e.0, e.1@))
}

impl View for LogRecord {
    type V = RecordView;

    open spec fn view(&self) -> RecordView {
        RecordView {
            timestamp: self.timestamp,
            level: self.level,
            source: self.source@,
            message: self.message@,
            fields: text_fields(self.fields@),
        }
    }
}

/// Views of a sequence of records.
pub open spec fn record_views(s: Seq<LogRecord>) -> Seq<RecordView> {
    s.map_values(|r: LogRecord| r@)
}

/// Looking up a key after taking value views is taking the view of what the
/// lookup finds.
pub proof fn lemma_text_fields_lookup(s: Seq<(Seq<char>, String)>, k: Seq<char>)
    ensures
        crate::strmap::lookup(text_fields(s), k) == match crate::strmap::lookup(s, k) {
            Some(v) => Some(v@),
            None => None::<Seq<char>>,
        },
    decreases s.len(),
{
    if s.len() > 0 {
        assert(text_fields(s).drop_first() =~= text_fields(s.drop_first()));
        lemma_text_fields_lookup(s.drop_first(), k);
    }
}

/// Taking value views keeps the insertion position.
proof fn lemma_text_fields_insert_pos(s: Seq<(Seq<char>, String)>, k: Seq<char>)
    ensures
        insert_pos(text_fields(s), k) == insert_pos(s, k),
    decreases s.len(),
{
    if s.len() > 0 {
        assert(text_fields(s).drop_first() =~= text_fields(s.drop_first()));
        lemma_text_fields_insert_pos(s.drop_first(), k);
    }
}

/// Storing a value and then taking value views is taking views and then
/// storing the value's view.
pub proof fn lemma_text_fields_insert(s: Seq<(Seq<char>, String)>, k: Seq<char>, v: String)
    ensures
        text_fields(map_insert(s, k, v)) == map_insert(text_fields(s), k, v@),
{
    lemma_text_fields_insert_pos(s, k);
    let i = insert_pos(s, k);
    if 0 <= i < s.len() && s[i].0 == k {
        assert(text_fields(map_insert(s, k, v)) =~= map_insert(text_fields(s), k, v@));
    } else {
        crate::strmap::lemma_insert_pos_bounds(s, k);
        s.insert_ensures(i, (k, v));
        text_fields(s).insert_ensures(i, (k, v@));
        assert(text_fields(map_insert(s, k, v)) =~= map_insert(text_fields(s), k, v@));
    }
}

/// A line of input that could not be read as a record.
#[derive(Debug)]
pub struct ParseIssue {
    pub source: String,
    pub line: usize,
    pub reason: String,
    pub raw: String,
}

impl ParseIssue {
    /// An issue with the given parts.
    pub fn new(source: &str, line: usize, reason: &str, raw: &str) -> (r: ParseIssue)
        ensures
            r.source@ == source@,
            r.line == line,
            r.reason@ == reason@,
            r.raw@ == raw@,
    {
        ParseIssue { source: source.to_owned(), line, reason: reason.to_owned(), raw: raw.to_owned() }
    }
}

/// A parse issue with its texts taken by their views.
pub struct IssueView {
    pub source: Seq<char>,
    pub line: usize,
    pub reason: Seq<char>,
    pub raw: Seq<char>,
}

impl View for ParseIssue {
    type V = IssueView;

    open spec fn view(&self) -> IssueView {
        IssueView { source: self.source@, line: self.line, reason: self.reason@, raw: self.raw@ }
    }
}

/// Views of a sequence of issues.
pub open spec fn issue_views(s: Seq<ParseIssue>) -> Seq<IssueView> {
    s.map_values(|i: ParseIssue| i@)
}

/// A dataset with its records and issues taken by their views.
pub struct DatasetView {
    pub records: Seq<RecordView>,
    pub issues: Seq<IssueView>,
}

impl View for LogDataset {
    type V = DatasetView;

    open spec fn view(&self) -> DatasetView {
        DatasetView { records: record_views(self.records@), issues: issue_views(self.issues@) }
    }
}

/// Records read from one or more inputs, with the issues met on the way.
#[derive(Debug)]
pub struct LogDataset {
    pub records: Vec<LogRecord>,
    pub issues: Vec<ParseIssue>,
}

impl LogDataset {
    /// A dataset of the given records and issues.
    pub fn new(records: Vec<LogRecord>, issues: Vec<ParseIssue>) -> (r: LogDataset)
        ensures
            r.records@ == records@,
            r.issues@ == issues@,
    {
        LogDataset { records, issues }
    }

    /// A dataset without records or issues.
    pub fn empty() -> (r: LogDataset)
        ensures
            r.records@.len() == 0,
            r.issues@.len() == 0,
    {
        LogDataset { records: Vec::new(), issues: Vec::new() }
    }

    /// Appends the records and the issues of `other` to those of `self`.
    pub fn extend(&mut self, other: LogDataset)
        ensures
            final(self).records@ == old(self).records@ + other.records@,
            final(self).issues@ == old(self).issues@ + other.issues@,
    {
        let mut other = other;
        self.records.append(&mut other.records);
        self.issues.append(&mut other.issues);
    }

    /// Number of parse issues.
    pub fn issue_count(&self) -> (r: usize)
        ensures
            r == self.issues@.len(),
    {
        self.issues.len()
    }
}

/// A `key=value` condition on a structured field.
#[derive(Debug)]
pub struct FieldFilter {
    pub key: String,
    pub value: String,
}

/// What `FieldFilter::parse` reads from a text: the trimmed parts before and
/// after the first `=`, when the first is not empty.
pub open spec fn parse_field_filter(v: Seq<char>) -> Option<(Seq<char>, Seq<char>)> {
    match find_char(v, '=') {
        None => None,
        Some(i) => {
            let key = trim(v.take(i));
            if key.len() == 0 {
                None
            } else {
                Some((key, trim(v.skip(i + 1))))
            }
        },
    }
}

/// A `key=value` text with no `=` in the key is read as the trimmed key and
/// the trimmed value (which may hold further `=`), unless the key is blank.
pub proof fn lemma_field_filter_split(key: Seq<char>, value: Seq<char>)
    requires
        forall|i: int| 0 <= i < key.len() ==> key[i] != '=',
    ensures
        parse_field_filter(key + seq!['='] + value) == if trim(key).len() == 0 {
            None
        } else {
            Some((trim(key), trim(value)))
        },
{
    let t = key + seq!['='] + value;
    crate::text::lemma_find_char_at(t, '=', key.len() as int);
    assert(t.take(key.len() as int) =~= key);
    assert(t.skip(key.len() as int + 1) =~= value);
}

impl FieldFilter {
    /// Reads `key=value`; the key must not be empty after trimming.
    pub fn parse(value: &str) -> (r: Option<FieldFilter>)
        ensures
            match r {
                Some(f) => parse_field_filter(value@) == Some((f.key@, f.value@)),
                None => parse_field_filter(value@) is None,
            },
    {
        let v = chars_of(value);
        match find_char_exec(&v, '=') {
            None => None,
            Some(i) => {
                proof {
                    crate::text::lemma_find_char(v@, '=');
                }
                let before = slice_chars(&v, 0, i);
                let after = slice_chars(&v, i + 1, v.len());
                assert(before@ == v@.take(i as int));
                assert(after@ == v@.skip(i + 1));
                let (klo, khi) = trim_bounds(&before);
                if klo == khi {
                    return None;
                }
                let (vlo, vhi) = trim_bounds(&after);
                Some(FieldFilter {
                    key: string_from(&before, klo, khi),
                    value: string_from(&after, vlo, vhi),
                })
            },
        }
    }
}

} // verus!
