use loglens::model::{GroupBy, LogLevel, LogRecord};
use loglens::stats::{
    group_records, summarize, top_field_values, top_field_values_including_missing, Aggregator, CountByLevel,
};
use loglens::time::parse_timestamp;

#[test]
fn summarizes_level_counts() {
    let mut first = LogRecord::new("a.log", "ok");
    first.level = Some(LogLevel::Info);
    let mut second = LogRecord::new("a.log", "bad");
    second.level = Some(LogLevel::Error);
    let records = vec![first, second];

    let summary = summarize(&records, GroupBy::Level, None, 3, None);

    assert_eq!(summary.total, 2);
    assert_eq!(summary.level_counts.get("INFO"), Some(&1));
    assert_eq!(summary.level_counts.get("ERROR"), Some(&1));
}

#[test]
fn returns_top_field_values() {
    let mut first = LogRecord::new("a.log", "one");
    first.fields.insert("user".to_owned(), "alice".to_owned());
    let mut second = LogRecord::new("b.log", "two");
    second.fields.insert("user".to_owned(), "alice".to_owned());

    assert_eq!(top_field_values(&[first, second], "user", 1), vec![("alice".to_owned(), 2)]);
}

#[test]
fn groups_by_requested_field_with_missing_bucket() {
    let mut first = LogRecord::new("a.log", "one");
    first.fields.insert("user".to_owned(), "alice".to_owned());
    let second = LogRecord::new("b.log", "two");

    let counts = group_records(&[first, second], GroupBy::Field, Some("user"));

    assert_eq!(counts.get("alice"), Some(&1));
    assert_eq!(counts.get("MISSING"), Some(&1));
}

#[test]
fn top_field_values_include_missing_and_sort_by_name_on_tie() {
    let mut first = LogRecord::new("a.log", "one");
    first.fields.insert("user".to_owned(), "bob".to_owned());
    let mut second = LogRecord::new("b.log", "two");
    second.fields.insert("user".to_owned(), "alice".to_owned());
    let third = LogRecord::new("c.log", "three");

    assert_eq!(
        top_field_values_including_missing(&[first, second, third], "user", 3),
        vec![("MISSING".to_owned(), 1), ("alice".to_owned(), 1), ("bob".to_owned(), 1)]
    );
}

#[test]
fn groups_by_hour_and_source() {
    let mut first = LogRecord::new("a.log", "one");
    first.timestamp = Some(parse_timestamp("2026-06-20 10:15:00").expect("time"));
    let mut second = LogRecord::new("b.log", "two");
    second.timestamp = Some(parse_timestamp("2026-06-20T10:59:59+08:00").expect("time"));
    let third = LogRecord::new("a.log", "three");
    let records = [first, second, third];

    let hours = group_records(&records, GroupBy::Hour, None);
    let sources = group_records(&records, GroupBy::Source, None);
    let unnamed = group_records(&records, GroupBy::Field, None);

    assert_eq!(hours.get("2026-06-20 10:00"), Some(&2));
    assert_eq!(hours.get("UNKNOWN_TIME"), Some(&1));
    assert_eq!(sources.get("a.log"), Some(&2));
    assert_eq!(sources.get("b.log"), Some(&1));
    assert_eq!(unnamed.get("MISSING_FIELD_NAME"), Some(&3));
}

#[test]
fn grouped_counts_add_up_to_total() {
    let mut records = Vec::new();
    for (i, level) in [Some(LogLevel::Info), None, Some(LogLevel::Info), Some(LogLevel::Fatal)].into_iter().enumerate() {
        let mut r = LogRecord::new(if i % 2 == 0 { "a.log" } else { "b.log" }, "m");
        r.level = level;
        records.push(r);
    }

    let summary = summarize(&records, GroupBy::Level, None, 10, None);

    let mut sum = 0;
    for i in 0..summary.level_counts.len() {
        sum += *summary.level_counts.value_at(i);
    }
    assert_eq!(sum, summary.total);
    assert_eq!(summary.level_counts.get("UNKNOWN"), Some(&1));
    assert_eq!(summary.level_counts.key_at(0), "FATAL");
}

#[test]
fn top_values_rank_by_count_then_name() {
    let mut records = Vec::new();
    for source in ["c.log", "b.log", "a.log", "b.log", "c.log", "c.log"] {
        records.push(LogRecord::new(source, "m"));
    }

    let summary = summarize(&records, GroupBy::Source, None, 2, Some("user"));

    assert_eq!(summary.top_sources, vec![("c.log".to_owned(), 3), ("b.log".to_owned(), 2)]);
    assert_eq!(summary.top_field_name.as_deref(), Some("user"));
    assert_eq!(summary.top_field_values, vec![("MISSING".to_owned(), 6)]);
}

#[test]
fn top_values_with_zero_limit_are_empty() {
    let mut first = LogRecord::new("a.log", "one");
    first.fields.insert("user".to_owned(), "alice".to_owned());

    assert!(top_field_values(&[first], "user", 0).is_empty());
}

#[test]
fn count_by_level_aggregates() {
    let mut counter = CountByLevel::default();
    let mut warn = LogRecord::new("a.log", "w");
    warn.level = Some(LogLevel::Warn);
    counter.add(&warn);
    counter.add(&warn);
    counter.add(&LogRecord::new("a.log", "u"));

    let counts = counter.finish();

    assert_eq!(counts.get("WARN"), Some(&2));
    assert_eq!(counts.get("UNKNOWN"), Some(&1));
    assert_eq!(counts.len(), 2);
}

#[test]
fn count_by_level_run_equals_grouping_by_level() {
    let mut records = Vec::new();
    for level in [Some(LogLevel::Warn), None, Some(LogLevel::Debug), Some(LogLevel::Warn)] {
        let mut r = LogRecord::new("a.log", "m");
        r.level = level;
        records.push(r);
    }
    let mut counter = CountByLevel::default();
    for r in &records {
        counter.add(r);
    }

    let counted = counter.finish();
    let grouped = group_records(&records, GroupBy::Level, None);

    assert_eq!(counted.len(), grouped.len());
    for i in 0..counted.len() {
        assert_eq!(counted.key_at(i), grouped.key_at(i));
        assert_eq!(counted.value_at(i), grouped.value_at(i));
    }
    assert!(CountByLevel::default().finish().is_empty());
}
