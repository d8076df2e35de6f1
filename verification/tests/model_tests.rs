use loglens::error::LoglensError;
use loglens::model::{FieldFilter, LogDataset, LogLevel, LogRecord, ParseIssue};
use loglens::time::parse_timestamp;

#[test]
fn parses_level_names_in_any_case() {
    assert_eq!(LogLevel::parse(" Warning "), Some(LogLevel::Warn));
    assert_eq!(LogLevel::parse("INFORMATION"), Some(LogLevel::Info));
    assert_eq!(LogLevel::parse("critical"), Some(LogLevel::Fatal));
    assert_eq!(LogLevel::parse("trace"), Some(LogLevel::Trace));
    assert_eq!(LogLevel::parse("debug"), Some(LogLevel::Debug));
    assert_eq!(LogLevel::parse("error"), Some(LogLevel::Error));
    assert_eq!(LogLevel::parse("loud"), None);
}

#[test]
fn level_label_reads_back_and_ranks_follow_severity() {
    let all = [LogLevel::Trace, LogLevel::Debug, LogLevel::Info, LogLevel::Warn, LogLevel::Error, LogLevel::Fatal];
    for (i, level) in all.iter().enumerate() {
        assert_eq!(LogLevel::parse(level.label()), Some(*level));
        assert_eq!(level.rank() as usize, i);
    }
    assert_eq!(LogLevel::Error.label(), "ERROR");
}

#[test]
fn field_filter_splits_at_first_equals_and_trims() {
    let f = FieldFilter::parse(" user = a=b ").expect("has key and value");
    assert_eq!(f.key, "user");
    assert_eq!(f.value, "a=b");
    let empty_value = FieldFilter::parse("user=").expect("empty value is allowed");
    assert_eq!(empty_value.value, "");
    assert!(FieldFilter::parse("=alice").is_none());
    assert!(FieldFilter::parse("user").is_none());
}

#[test]
fn dataset_extends_in_order() {
    let mut dataset = LogDataset::new(vec![LogRecord::new("a", "1")], Vec::new());
    dataset.extend(LogDataset::new(
        vec![LogRecord::new("b", "2")],
        vec![ParseIssue::new("b", 3, "bad", "x")],
    ));

    assert_eq!(dataset.records.len(), 2);
    assert_eq!(dataset.records[1].source, "b");
    assert_eq!(dataset.issue_count(), 1);
    assert_eq!(LogDataset::empty().issue_count(), 0);
}

#[test]
fn new_record_has_no_time_level_or_fields() {
    let record = LogRecord::new("a.log", "hi");
    assert!(record.timestamp.is_none());
    assert!(record.level.is_none());
    assert!(record.fields.is_empty());
    assert_eq!(record.message, "hi");
}

#[test]
fn reads_times_in_both_forms() {
    let rfc = parse_timestamp(" [2026-06-20T10:00:00Z] ").expect("rfc 3339");
    assert_eq!(rfc.offset_seconds, 0);
    assert_eq!(rfc.epoch_seconds, 1_781_949_600);
    let local = parse_timestamp("2026-06-20T18:00:00").expect("local time");
    assert_eq!(local.epoch_seconds, rfc.epoch_seconds);
    assert_eq!(local.local.hour, 18);
    assert_eq!(local.rfc3339, "2026-06-20T18:00:00+08:00");
    let err = parse_timestamp("2026-13-01 00:00:00").expect_err("no such month");
    assert_eq!(err.message(), "invalid timestamp '2026-13-01 00:00:00'");
}

#[test]
fn error_messages_name_what_went_wrong() {
    assert_eq!(LoglensError::Io("gone".to_owned()).message(), "I/O error: gone");
    assert_eq!(LoglensError::Csv("short".to_owned()).message(), "CSV error: short");
    assert_eq!(
        LoglensError::JsonLine { line: 12, message: "eof".to_owned() }.message(),
        "JSON error at line 12: eof"
    );
    assert_eq!(LoglensError::Regex("bad".to_owned()).message(), "regex error: bad");
    assert_eq!(
        LoglensError::InvalidFieldFilter { value: "u".to_owned() }.message(),
        "invalid field filter 'u', expected key=value"
    );
    assert_eq!(
        LoglensError::MissingFieldName.message(),
        "--field-name is required when --group-by field is used"
    );
    assert_eq!(
        LoglensError::StrictParseIssue { file: "f".to_owned(), line: 0, reason: "r".to_owned() }.message(),
        "strict parsing failed in 'f' at line 0: r"
    );
    assert_eq!(
        LoglensError::UnsupportedFormat { path: "p.x".to_owned() }.message(),
        "unsupported input format for path 'p.x'"
    );
    assert_eq!(
        LoglensError::ReportWrite { path: "out.md".to_owned(), message: "denied".to_owned() }.message(),
        "failed to write report to 'out.md': denied"
    );
}

#[test]
fn level_reading_ignores_surrounding_space_and_case() {
    for s in ["  WaRn\t", "warning", "\u{2003}Critical ", "info", "INFORMATION"] {
        let normal = s.trim().to_ascii_lowercase();
        assert_eq!(LogLevel::parse(s), LogLevel::parse(&normal));
        assert!(LogLevel::parse(s).is_some());
    }
    assert_eq!(LogLevel::parse("war n"), None);
    assert_eq!(LogLevel::parse(""), None);
}
