use loglens::json::{JsonField, JsonValue};
use loglens::parser::{csv_row_to_record, json_value_to_record, record_from_groups};
use loglens::model::LogLevel;
use loglens::parser::{parse_records, CsvLogParser, JsonlParser, PlainLogParser, RecordParser};
use loglens::model::InputFormat;

#[test]
fn parses_plain_log_lines() {
    let input = "2026-06-20 10:00:00 INFO service started\n[2026-06-20 10:01:00] [ERROR] timeout\n";
    let records = PlainLogParser
        .parse_reader(input, "app.log")
        .expect("plain log should parse")
        .records;

    assert_eq!(records.len(), 2);
    assert_eq!(records[0].level, Some(LogLevel::Info));
    assert_eq!(records[1].level, Some(LogLevel::Error));
    assert_eq!(records[1].message, "timeout");
}

#[test]
fn parses_jsonl_records() {
    let input = r#"{"timestamp":"2026-06-20T10:00:00+08:00","level":"warn","message":"slow","service":"api"}"#;
    let records = JsonlParser
        .parse_reader(input, "app.jsonl")
        .expect("jsonl should parse")
        .records;

    assert_eq!(records.len(), 1);
    assert_eq!(records[0].level, Some(LogLevel::Warn));
    assert_eq!(records[0].fields.get("service").map(|v| v.as_str()), Some("api"));
}

#[test]
fn parses_csv_records() {
    let input = "timestamp,level,message,user\n2026-06-20 10:00:00,error,failed login,alice\n";
    let records = CsvLogParser
        .parse_reader(input, "app.csv")
        .expect("csv should parse")
        .records;

    assert_eq!(records[0].level, Some(LogLevel::Error));
    assert_eq!(records[0].fields.get("user").map(|v| v.as_str()), Some("alice"));
}

#[test]
fn invalid_jsonl_collects_issue() {
    let dataset = JsonlParser
        .parse_reader("{bad json}", "app.jsonl")
        .expect("invalid json should become issue");

    assert!(dataset.records.is_empty());
    assert_eq!(dataset.issues[0].line, 1);
    assert!(dataset.issues[0].reason.contains("invalid JSON"));
}

#[test]
fn jsonl_keeps_valid_records_around_bad_lines() {
    let input = "{\"level\":\"info\",\"message\":\"ok\"}\n{bad json}\n{\"level\":\"error\",\"message\":\"bad\"}";
    let dataset = JsonlParser
        .parse_reader(input, "app.jsonl")
        .expect("jsonl should parse partially");

    assert_eq!(dataset.records.len(), 2);
    assert_eq!(dataset.issues.len(), 1);
    assert_eq!(dataset.records[1].level, Some(LogLevel::Error));
}

#[test]
fn plain_lines_keep_unmatched_text_as_message() {
    let input = "just some text\n\n   \nWARNING disk almost full\r\n";
    let records = PlainLogParser.parse_reader(input, "x.log").expect("plain log should parse").records;

    assert_eq!(records.len(), 2);
    assert_eq!(records[0].level, None);
    assert_eq!(records[0].message, "just some text");
    assert_eq!(records[0].source, "x.log");
    assert_eq!(records[1].level, Some(LogLevel::Warn));
    assert_eq!(records[1].message, "disk almost full");
}

#[test]
fn plain_line_time_is_taken_at_eight_hours_east() {
    let records = PlainLogParser
        .parse_reader("2026-06-20 10:00:00 INFO service started\n", "app.log")
        .expect("plain log should parse")
        .records;

    let time = records[0].timestamp.as_ref().expect("time should be read");
    assert_eq!(time.rfc3339, "2026-06-20T10:00:00+08:00");
    assert_eq!(time.offset_seconds, 28800);
    assert_eq!(records[0].message, "service started");
}

#[test]
fn jsonl_fields_are_texts_and_known_keys_are_taken_out() {
    let input = r#"{"ts":"2026-06-20T10:00:00Z","severity":"ERROR","msg":"boom","code":500,"ok":false,"extra":null,"tags":["a","b"]}"#;
    let dataset = JsonlParser.parse_reader(input, "app.jsonl").expect("jsonl should parse");
    let record = &dataset.records[0];

    assert_eq!(record.level, Some(LogLevel::Error));
    assert_eq!(record.message, "boom");
    assert!(record.timestamp.is_some());
    assert_eq!(record.fields.get("code").map(|v| v.as_str()), Some("500"));
    assert_eq!(record.fields.get("ok").map(|v| v.as_str()), Some("false"));
    assert_eq!(record.fields.get("extra").map(|v| v.as_str()), Some(""));
    assert_eq!(record.fields.get("tags").map(|v| v.as_str()), Some("[\"a\",\"b\"]"));
    assert_eq!(record.fields.get("msg"), None);
}

#[test]
fn jsonl_line_that_is_not_an_object_still_gives_a_record() {
    let dataset = JsonlParser.parse_reader("[1,2]\n", "app.jsonl").expect("jsonl should parse");

    assert_eq!(dataset.records.len(), 1);
    assert_eq!(dataset.records[0].message, "[1,2]");
    assert!(dataset.issues.is_empty());
}

#[test]
fn jsonl_counts_every_non_blank_line_once() {
    let input = "{\"message\":\"a\"}\n\n{oops\n{\"message\":\"b\"}\n[\n";
    let dataset = JsonlParser.parse_reader(input, "app.jsonl").expect("jsonl should parse");

    assert_eq!(dataset.records.len() + dataset.issues.len(), 4);
    assert_eq!(dataset.issues[0].line, 3);
    assert_eq!(dataset.issues[0].raw, "{oops");
    assert_eq!(dataset.issues[1].line, 5);
}

#[test]
fn csv_short_rows_become_issues() {
    let input = "level,message\ninfo,ok\nerror\nwarn,late,extra\n";
    let result = CsvLogParser.parse_reader(input, "app.csv");
    let dataset = result.expect("csv should parse");

    assert_eq!(dataset.records.len() + dataset.issues.len(), 3);
    assert_eq!(dataset.records[0].message, "ok");
}

#[test]
fn parse_records_reads_by_format() {
    let jsonl = parse_records("{\"message\":\"m\"}\n", "a", InputFormat::Jsonl).expect("parses");
    let plain = parse_records("{\"message\":\"m\"}\n", "a", InputFormat::Auto).expect("parses");

    assert_eq!(jsonl.records[0].message, "m");
    assert_eq!(plain.records[0].message, "{\"message\":\"m\"}");
}

#[test]
fn record_builders_follow_their_inputs() {
    let value = JsonValue::Object {
        entries: vec![
            ("Level".to_owned(), JsonField::Text("warn".to_owned())),
            ("count".to_owned(), JsonField::Number("3".to_owned())),
            ("flag".to_owned(), JsonField::Bool(true)),
        ],
        text: "{\"Level\":\"warn\",\"count\":3,\"flag\":true}".to_owned(),
    };
    let record = json_value_to_record(&value, "j.jsonl");
    assert_eq!(record.level, Some(LogLevel::Warn));
    assert_eq!(record.message, "{\"Level\":\"warn\",\"count\":3,\"flag\":true}");
    assert_eq!(record.fields.get("count").map(|v| v.as_str()), Some("3"));
    assert_eq!(record.fields.get("flag").map(|v| v.as_str()), Some("true"));
    assert_eq!(record.fields.get("Level"), None);

    let other = json_value_to_record(&JsonValue::Other { text: "42".to_owned() }, "j.jsonl");
    assert_eq!(other.message, "42");

    let groups = vec![Some("[x] oops".to_owned()), None, Some("ERROR".to_owned()), Some("  oops  ".to_owned())];
    let plain = record_from_groups(&groups, "p.log");
    assert_eq!(plain.level, Some(LogLevel::Error));
    assert_eq!(plain.message, "oops");
    assert!(plain.timestamp.is_none());

    let headers = vec!["Time".to_owned(), " Severity ".to_owned(), "user".to_owned()];
    let row = vec!["2026-06-20 10:00:00".to_owned(), "fatal".to_owned(), "bob".to_owned()];
    let csv = csv_row_to_record(&headers, &row, "c.csv");
    assert_eq!(csv.level, Some(LogLevel::Fatal));
    assert_eq!(csv.message, "2026-06-20 10:00:00 fatal bob");
    assert_eq!(csv.fields.get("user").map(|v| v.as_str()), Some("bob"));
    assert!(csv.timestamp.is_some());
}
