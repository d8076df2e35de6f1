use loglens::diagnostics::{analyze_dataset, count_issue_reasons, count_issue_sources, field_catalog, Diagnostics};

fn score(d: &Diagnostics) -> f64 {
    if d.total_checks == 0 {
        100.0
    } else {
        (d.passed_checks as f64 / d.total_checks as f64 * 100.0 * 100.0).round() / 100.0
    }
}
use loglens::model::{LogLevel, LogRecord, ParseIssue};

#[test]
fn builds_field_catalog_with_missing_counts() {
    let mut first = LogRecord::new("a.log", "one");
    first.fields.insert("user".to_owned(), "alice".to_owned());
    let mut second = LogRecord::new("b.log", "two");
    second.fields.insert("user".to_owned(), "bob".to_owned());
    second.fields.insert("service".to_owned(), "api".to_owned());

    let catalog = field_catalog(&[first, second], 10);

    let user = catalog
        .iter()
        .find(|field| field.name == "user")
        .expect("user field should be summarized");
    assert_eq!(user.present_count, 2);
    assert_eq!(user.missing_count, 0);
    assert_eq!(user.unique_value_count, 2);
}

#[test]
fn summarizes_issue_reasons_by_prefix() {
    let issues = vec![
        ParseIssue::new("a.jsonl", 1, "invalid JSON: first", "{bad}"),
        ParseIssue::new("a.jsonl", 2, "invalid JSON: second", "{bad}"),
    ];

    let reasons = count_issue_reasons(&issues);

    assert_eq!(reasons.get("invalid JSON"), Some(&2));
}

#[test]
fn computes_quality_score_from_records_and_issues() {
    let mut first = LogRecord::new("a.log", "one");
    first.level = Some(LogLevel::Info);
    let second = LogRecord::new("a.log", "two");
    let issues = vec![ParseIssue::new("a.log", 3, "bad line", "???")];

    let diagnostics = analyze_dataset(&[first, second], &issues, 10);

    assert_eq!(diagnostics.missing_level_count, 1);
    assert_eq!(diagnostics.parse_issue_count, 1);
    assert!(score(&diagnostics) < 100.0);
}

#[test]
fn quality_score_is_rounded_share_of_passed_checks() {
    let mut first = LogRecord::new("a.log", "one");
    first.level = Some(LogLevel::Info);
    let second = LogRecord::new("a.log", "two");
    let issues = vec![ParseIssue::new("a.log", 3, "bad line", "???")];

    let diagnostics = analyze_dataset(&[first, second], &issues, 10);

    // one check of five passed: 20.00%
    assert_eq!(diagnostics.missing_timestamp_count, 2);
    assert_eq!(diagnostics.passed_checks, 1);
    assert_eq!(diagnostics.total_checks, 5);
    assert_eq!(score(&diagnostics), 20.0);
}

#[test]
fn quality_score_rounds_thirds() {
    let mut first = LogRecord::new("a.log", "one");
    first.level = Some(LogLevel::Info);
    let issues = vec![ParseIssue::new("a.log", 3, "bad line", "???")];

    let diagnostics = analyze_dataset(&[first], &issues, 10);

    // one check of three passed: 33.33%
    assert_eq!((diagnostics.passed_checks, diagnostics.total_checks), (1, 3));
    assert_eq!(score(&diagnostics), 33.33);
}

#[test]
fn quality_score_is_full_without_records_or_issues() {
    let diagnostics = analyze_dataset(&[], &[], 10);

    assert_eq!(diagnostics.total_checks, 0);
    assert_eq!(score(&diagnostics), 100.0);
    assert!(diagnostics.field_catalog.is_empty());
    assert_eq!(diagnostics.parse_issue_count, 0);
}

#[test]
fn more_issues_never_raise_quality() {
    let mut first = LogRecord::new("a.log", "one");
    first.level = Some(LogLevel::Info);
    let records = vec![first];
    let one = vec![ParseIssue::new("a.log", 2, "bad line", "???")];
    let two = vec![
        ParseIssue::new("a.log", 2, "bad line", "???"),
        ParseIssue::new("a.log", 3, "bad line", "!!!"),
    ];

    let with_one = analyze_dataset(&records, &one, 10);
    let with_two = analyze_dataset(&records, &two, 10);

    assert_eq!(with_two.total_checks, with_one.total_checks + 1);
    assert_eq!(with_two.passed_checks, with_one.passed_checks);
    assert!(score(&with_two) <= score(&with_one));
    assert!(score(&with_one) <= 100.0);
}

#[test]
fn issue_counts_add_up_to_issues() {
    let issues = vec![
        ParseIssue::new("a.jsonl", 1, "invalid JSON: first", "{bad}"),
        ParseIssue::new("b.jsonl", 2, "no colon here", "x"),
        ParseIssue::new("a.jsonl", 3, "  : nothing before", "y"),
    ];

    let sources = count_issue_sources(&issues);
    let reasons = count_issue_reasons(&issues);

    assert_eq!(sources.get("a.jsonl"), Some(&2));
    assert_eq!(sources.get("b.jsonl"), Some(&1));
    assert_eq!(reasons.get("invalid JSON"), Some(&1));
    assert_eq!(reasons.get("no colon here"), Some(&1));
    assert_eq!(reasons.get("unknown issue"), Some(&1));
    let mut sum = 0;
    for i in 0..reasons.len() {
        sum += *reasons.value_at(i);
    }
    assert_eq!(sum, issues.len());
}

#[test]
fn catalog_orders_by_presence_then_name_and_truncates() {
    let mut first = LogRecord::new("a.log", "one");
    first.fields.insert("user".to_owned(), "alice".to_owned());
    first.fields.insert("zone".to_owned(), "".to_owned());
    let mut second = LogRecord::new("b.log", "two");
    second.fields.insert("user".to_owned(), "alice".to_owned());
    second.fields.insert("app".to_owned(), "api".to_owned());

    let catalog = field_catalog(&[first, second], 2);

    assert_eq!(catalog.len(), 2);
    assert_eq!(catalog[0].name, "user");
    assert_eq!(catalog[0].present_count, 2);
    assert_eq!(catalog[0].unique_value_count, 1);
    assert_eq!(catalog[0].sample_values, vec!["alice".to_owned()]);
    assert_eq!(catalog[1].name, "app");
    assert_eq!(catalog[1].present_count, 1);
    assert_eq!(catalog[1].missing_count, 1);
    for field in &catalog {
        assert_eq!(field.present_count + field.missing_count, 2);
    }
}

#[test]
fn catalog_ignores_empty_values_in_samples() {
    let mut first = LogRecord::new("a.log", "one");
    first.fields.insert("zone".to_owned(), "".to_owned());

    let catalog = field_catalog(&[first], 10);

    assert_eq!(catalog.len(), 1);
    assert_eq!(catalog[0].present_count, 1);
    assert_eq!(catalog[0].unique_value_count, 0);
    assert!(catalog[0].sample_values.is_empty());
}

#[test]
fn quality_checks_count_each_time_and_level() {
    let mut records = Vec::new();
    for i in 0..80 {
        let mut r = LogRecord::new("a.log", "m");
        if i < 23 {
            r.level = Some(LogLevel::Info);
        }
        records.push(r);
    }

    let diagnostics = analyze_dataset(&records, &[], 10);

    assert_eq!(diagnostics.passed_checks, 23);
    assert_eq!(diagnostics.total_checks, 160);
    assert_eq!(score(&diagnostics), 14.37);
}
