use loglens::filter::{apply_filters, FilterOptions};
use loglens::model::{LogLevel, LogRecord};
use loglens::time::parse_timestamp;

#[test]
fn filters_by_level_and_keyword() {
    let mut record = LogRecord::new("app.log", "database timeout");
    record.level = Some(LogLevel::Error);
    let options = FilterOptions::new(
        Some(LogLevel::Error),
        None,
        Some("timeout".to_owned()),
        None,
        None,
        None,
        Vec::new(),
    )
    .expect("filter should build");

    assert!(options.matches(&record));
}

#[test]
fn filters_by_regex() {
    let record = LogRecord::new("app.log", "request took 340ms");
    let options = FilterOptions::new(
        None,
        None,
        None,
        Some(r"\d+ms".to_owned()),
        None,
        None,
        Vec::new(),
    )
    .expect("filter should build");

    assert!(options.matches(&record));
}

#[test]
fn filters_by_min_level() {
    let mut info = LogRecord::new("app.log", "ok");
    info.level = Some(LogLevel::Info);
    let mut error = LogRecord::new("app.log", "failed");
    error.level = Some(LogLevel::Error);
    let options = FilterOptions::new(
        None,
        Some(LogLevel::Warn),
        None,
        None,
        None,
        None,
        Vec::new(),
    )
    .expect("filter should build");

    assert!(!options.matches(&info));
    assert!(options.matches(&error));
}

#[test]
fn filters_by_field_key_value() {
    let mut record = LogRecord::new("app.log", "request complete");
    record.fields.insert("user".to_owned(), "alice".to_owned());
    record.fields.insert("service".to_owned(), "api".to_owned());
    let options = FilterOptions::new(
        None,
        None,
        None,
        None,
        None,
        None,
        vec!["user=alice".to_owned(), "service=api".to_owned()],
    )
    .expect("filter should build");

    assert!(options.matches(&record));
}

#[test]
fn rejects_invalid_field_filter() {
    let err = FilterOptions::new(None, None, None, None, None, None, vec!["user".to_owned()])
        .expect_err("field filter should require key=value");

    assert!(err.message().contains("key=value"));
}

#[test]
fn rejects_invalid_regex() {
    let err = FilterOptions::new(None, None, None, Some("(".to_owned()), None, None, Vec::new())
        .expect_err("unbalanced group should not compile");

    assert!(err.message().starts_with("regex error: "));
}

#[test]
fn rejects_invalid_time_bound() {
    let err = FilterOptions::new(None, None, None, None, Some("yesterday".to_owned()), None, Vec::new())
        .expect_err("a bound must be a time");

    assert_eq!(err.message(), "invalid timestamp 'yesterday'");
}

#[test]
fn keyword_matches_any_case_in_source_message_and_fields() {
    // the search text is "Request OK Gateway.log user=Alice"
    let mut record = LogRecord::new("Gateway.log", "Request OK");
    record.fields.insert("user".to_owned(), "Alice".to_owned());
    let by_field = FilterOptions::new(None, None, Some("ALICE".to_owned()), None, None, None, Vec::new())
        .expect("filter should build");
    let by_source = FilterOptions::new(None, None, Some("gateway".to_owned()), None, None, None, Vec::new())
        .expect("filter should build");
    let missing = FilterOptions::new(None, None, Some("bob".to_owned()), None, None, None, Vec::new())
        .expect("filter should build");

    assert!(by_field.matches(&record));
    assert!(by_source.matches(&record));
    assert!(!missing.matches(&record));
}

#[test]
fn level_filter_drops_records_without_level() {
    let record = LogRecord::new("app.log", "no level");
    let exact = FilterOptions::new(Some(LogLevel::Info), None, None, None, None, None, Vec::new())
        .expect("filter should build");
    let min = FilterOptions::new(None, Some(LogLevel::Trace), None, None, None, None, Vec::new())
        .expect("filter should build");

    assert!(!exact.matches(&record));
    assert!(!min.matches(&record));
}

#[test]
fn time_range_is_inclusive_and_needs_a_time() {
    let mut record = LogRecord::new("app.log", "tick");
    record.timestamp = Some(parse_timestamp("2026-06-20 10:00:00").expect("time should parse"));
    let untimed = LogRecord::new("app.log", "tock");
    let inside = FilterOptions::new(
        None,
        None,
        None,
        None,
        Some("2026-06-20T02:00:00Z".to_owned()),
        Some("2026-06-20 10:00:00".to_owned()),
        Vec::new(),
    )
    .expect("filter should build");
    let after = FilterOptions::new(None, None, None, None, Some("2026-06-20 10:00:01".to_owned()), None, Vec::new())
        .expect("filter should build");

    assert!(inside.matches(&record));
    assert!(!inside.matches(&untimed));
    assert!(!after.matches(&record));
}

#[test]
fn field_filter_needs_the_exact_value() {
    let mut record = LogRecord::new("app.log", "request complete");
    record.fields.insert("user".to_owned(), "alice".to_owned());

    let exact = FilterOptions::new(None, None, None, None, None, None, vec!["user=alice".to_owned()])
        .expect("filter should build");
    let other_case = FilterOptions::new(None, None, None, None, None, None, vec!["user=Alice".to_owned()])
        .expect("filter should build");
    let other_key = FilterOptions::new(None, None, None, None, None, None, vec!["service=alice".to_owned()])
        .expect("filter should build");

    assert!(exact.matches(&record));
    assert!(!other_case.matches(&record));
    assert!(!other_key.matches(&record));
}

#[test]
fn apply_filters_keeps_matching_records_in_order() {
    let mut a = LogRecord::new("app.log", "first error");
    a.level = Some(LogLevel::Error);
    let mut b = LogRecord::new("app.log", "fine");
    b.level = Some(LogLevel::Info);
    let mut c = LogRecord::new("app.log", "second error");
    c.level = Some(LogLevel::Fatal);
    let options = FilterOptions::new(None, Some(LogLevel::Error), None, None, None, None, Vec::new())
        .expect("filter should build");

    let kept = apply_filters(vec![a, b, c], &options);

    assert_eq!(kept.len(), 2);
    assert_eq!(kept[0].message, "first error");
    assert_eq!(kept[1].message, "second error");
    let again = apply_filters(kept, &options);
    assert_eq!(again.len(), 2);
}

#[test]
fn empty_filter_keeps_everything() {
    let options = FilterOptions::new(None, None, None, None, None, None, Vec::new())
        .expect("filter should build");
    let records = vec![LogRecord::new("a.log", "x"), LogRecord::new("b.log", "y")];

    assert!(options.is_empty());
    assert_eq!(apply_filters(records, &options).len(), 2);
}
