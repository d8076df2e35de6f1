use loglens::model::{GroupBy, LogLevel, LogRecord, ParseIssue};
use loglens::report::{escape_markdown, report_format, to_csv, to_markdown, ReportFormat};
use loglens::stats::summarize;
use loglens::time::parse_timestamp;

#[test]
fn renders_markdown_report() {
    let records = vec![LogRecord::new("app.log", "hello")];
    let issues = vec![ParseIssue::new("app.log", 2, "bad line", "???")];
    let summary = summarize(&records, GroupBy::Level, None, 3, None);

    let report = to_markdown(&summary, &records, &issues, 20, 0);

    assert!(report.contains("# LogLens Report"));
    assert!(report.contains("Data Quality"));
    assert!(report.contains("Field Catalog"));
    assert!(report.contains("Parse Diagnostics"));
    assert!(report.contains("hello"));
}

#[test]
fn renders_csv_report() {
    let records = vec![LogRecord::new("app.log", "hello")];

    let report = to_csv(&records).expect("csv report should render");

    assert!(report.contains("timestamp,level,source,message,fields"));
    assert!(report.contains("app.log"));
}

#[test]
fn markdown_report_starts_with_counts_and_score() {
    let mut record = LogRecord::new("app.log", "a|b\nc");
    record.level = Some(LogLevel::Info);
    let records = vec![record];
    let summary = summarize(&records, GroupBy::Level, None, 3, None);

    let report = to_markdown(&summary, &records, &[], 20, 5000);

    assert!(report.starts_with(
        "# LogLens Report\n\n- Total records: 1\n- Parse issues: 0\n- Data quality score: 50.00%\n\n## Level Counts\n\n| Key | Count |\n| --- | ---: |\n| INFO | 1 |\n"
    ));
    assert!(report.contains("| - | INFO | app.log | a\\|b c |\n"));
    assert!(report.contains("No structured fields found.\n"));
    assert!(report.contains("No parse issue categories.\n"));
    assert!(report.contains("No parse issues.\n"));
}

#[test]
fn markdown_report_lists_top_field_values() {
    let mut record = LogRecord::new("app.log", "x");
    record.fields.insert("user".to_owned(), "bob".to_owned());
    let records = vec![record];
    let summary = summarize(&records, GroupBy::Field, Some("user"), 3, Some("user"));

    let report = to_markdown(&summary, &records, &[], 0, 0);

    assert!(report.contains("\n## Top Field Values: user\n\n| Value | Count |\n| --- | ---: |\n| bob | 1 |\n"));
    assert!(report.contains("| user | 1 | 0 | 1 | bob |\n"));
    assert!(report.ends_with("| Time | Level | Source | Message |\n| --- | --- | --- | --- |\n"));
}

#[test]
fn csv_report_quotes_and_serializes_fields() {
    let mut record = LogRecord::new("app.log", "hello, world");
    record.level = Some(LogLevel::Warn);
    record.timestamp = Some(parse_timestamp("2026-06-20 10:00:00").expect("time"));
    record.fields.insert("user".to_owned(), "alice".to_owned());

    let report = to_csv(&[record]).expect("csv report should render");

    assert_eq!(
        report,
        "timestamp,level,source,message,fields\n2026-06-20T10:00:00+08:00,WARN,app.log,\"hello, world\",\"{\"\"user\"\":\"\"alice\"\"}\"\n"
    );
}

#[test]
fn csv_report_of_no_records_is_the_header() {
    assert_eq!(to_csv(&[]).expect("renders"), "timestamp,level,source,message,fields\n");
}

#[test]
fn escapes_markdown_cells() {
    assert_eq!(escape_markdown("a|b\nc"), "a\\|b c");
    assert_eq!(escape_markdown("plain"), "plain");
    assert!(!escape_markdown("x\n\ny").contains('\n'));
}

#[test]
fn report_kind_follows_extension() {
    assert!(report_format("out/report.JSON") == ReportFormat::Json);
    assert!(report_format("report.csv") == ReportFormat::Csv);
    assert!(report_format("report.md") == ReportFormat::Markdown);
    assert!(report_format("report") == ReportFormat::Markdown);
}

#[test]
fn csv_report_doubles_quotes_and_quotes_line_breaks() {
    let record = LogRecord::new("a\"b.log", "two\nlines");

    let report = to_csv(&[record]).expect("csv report should render");

    assert_eq!(report, "timestamp,level,source,message,fields\n,,\"a\"\"b.log\",\"two\nlines\",{}\n");
}

#[test]
fn markdown_report_writes_the_given_score_with_two_decimals() {
    let records = vec![LogRecord::new("app.log", "x")];
    let summary = summarize(&records, GroupBy::Level, None, 3, None);

    let report = to_markdown(&summary, &records, &[], 5, 1437);

    assert!(report.contains("- Data quality score: 14.37%\n"));
    assert!(report.contains("| Quality score | 14.37% |\n"));
    assert!(to_markdown(&summary, &records, &[], 5, 10000).contains("| Quality score | 100.00% |\n"));
}

#[test]
fn csv_report_reads_back_with_the_csv_reader() {
    let mut record = LogRecord::new("a,\"b\".log", "two\nlines, \"quoted\"");
    record.level = Some(LogLevel::Error);
    record.fields.insert("user".to_owned(), "al,ice".to_owned());
    let plain = LogRecord::new("c.log", "");

    let report = to_csv(&[record, plain]).expect("csv report should render");
    let mut reader = csv::Reader::from_reader(report.as_bytes());
    let headers: Vec<String> = reader.headers().expect("headers").iter().map(str::to_owned).collect();
    let rows: Vec<Vec<String>> =
        reader.records().map(|r| r.expect("row").iter().map(str::to_owned).collect()).collect();

    assert_eq!(headers, vec!["timestamp", "level", "source", "message", "fields"]);
    assert_eq!(rows.len(), 2);
    assert_eq!(rows[0], vec!["", "ERROR", "a,\"b\".log", "two\nlines, \"quoted\"", "{\"user\":\"al,ice\"}"]);
    assert_eq!(rows[1], vec!["", "", "c.log", "", "{}"]);
}
