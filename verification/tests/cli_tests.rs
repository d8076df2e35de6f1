use loglens::cli::{group_field_name, FilterArgs};
use loglens::console::{
    filter_lines_text, issue_lines_text, pad_right_text, record_lines_text, report_written_line, scan_lines_text,
    stats_lines_text, summary_lines_text,
};
use loglens::model::{GroupBy, LogDataset, LogLevel, LogRecord, ParseIssue};
use loglens::stats::summarize;

fn no_filters() -> FilterArgs {
    FilterArgs { level: None, min_level: None, keyword: None, regex: None, from: None, to: None, field: Vec::new() }
}

#[test]
fn grouping_by_field_needs_a_name() {
    let err = group_field_name(GroupBy::Field, None).expect_err("a name is needed");
    assert_eq!(err.message(), "--field-name is required when --group-by field is used");
    assert_eq!(group_field_name(GroupBy::Field, Some("user")).ok(), Some(Some("user")));
    assert_eq!(group_field_name(GroupBy::Level, None).ok(), Some(None));
}

#[test]
fn filter_arguments_build_the_filter() {
    let mut args = no_filters();
    args.min_level = Some(LogLevel::Warn);
    args.field = vec!["user=bob".to_owned()];
    let filter = args.build().expect("filter should build");
    let mut record = LogRecord::new("a.log", "m");
    record.level = Some(LogLevel::Error);
    record.fields.insert("user".to_owned(), "bob".to_owned());

    assert!(filter.matches(&record));
    assert!(no_filters().build().expect("empty filter").is_empty());
    let mut bad = no_filters();
    bad.field = vec!["bob".to_owned()];
    assert!(bad.build().is_err());
}

#[test]
fn record_lines_show_limit_then_rest() {
    let mut first = LogRecord::new("a.log", "hello");
    first.level = Some(LogLevel::Info);
    let records = vec![first, LogRecord::new("b.log", "bye"), LogRecord::new("c.log", "x")];

    let lines = record_lines_text(&records, 2);

    assert_eq!(lines, vec!["- INFO    a.log hello", "- UNKNOWN b.log bye", "... 1 more records"]);
    assert_eq!(record_lines_text(&records, 5).len(), 3);
}

#[test]
fn issue_lines_are_empty_without_issues() {
    assert!(issue_lines_text(&[], 5).is_empty());
    let issues = vec![ParseIssue::new("a.jsonl", 2, "invalid JSON: x", "{"), ParseIssue::new("a.jsonl", 4, "r", "y")];

    let lines = issue_lines_text(&issues, 1);

    assert_eq!(lines, vec!["Parse issues: 2", "a.jsonl:2 invalid JSON: x {", "... 1 more parse issues"]);
}

#[test]
fn summary_lines_show_tables() {
    let mut record = LogRecord::new("a.log", "m");
    record.level = Some(LogLevel::Error);
    let summary = summarize(&[record], GroupBy::Source, None, 5, Some("user"));

    let lines = summary_lines_text(&summary);

    assert_eq!(lines[0], "Total records: 1");
    assert_eq!(lines[1], "");
    assert_eq!(lines[2], "Level counts");
    assert_eq!(lines[3], format!("{:<32} Count", "Key"));
    assert_eq!(lines[4], "-".repeat(44));
    assert_eq!(lines[5], format!("{:<32} 1", "ERROR"));
    assert_eq!(lines[lines.len() - 4], "Top field values: user");
    assert_eq!(lines[lines.len() - 1], format!("{:<32} 1", "MISSING"));
    assert_eq!(pad_right_text("toolongvalue", 4), "toolongvalue");
    assert_eq!(pad_right_text("ab", 4), "ab  ");
}

#[test]
fn scan_filter_and_stats_show_counts_first() {
    let dataset = LogDataset::new(
        vec![LogRecord::new("a.log", "one")],
        vec![ParseIssue::new("a.log", 2, "bad line", "???")],
    );

    let scan = scan_lines_text(&dataset);
    assert_eq!(scan, vec!["Loaded 1 records", "Parse issues: 1", "- UNKNOWN a.log one", "Parse issues: 1", "a.log:2 bad line ???"]);

    let filtered = filter_lines_text(&[], &dataset.issues, 50);
    assert_eq!(filtered, vec!["Matched 0 records", "Parse issues: 1", "a.log:2 bad line ???"]);

    let summary = summarize(&dataset.records, GroupBy::Level, None, 5, None);
    let stats = stats_lines_text(&summary, &[]);
    assert_eq!(stats, summary_lines_text(&summary));
    assert_eq!(report_written_line(3, "out.md"), "Wrote report for 3 records to out.md");
}
