use loglens::input::{collect_files, load_text, PathKind};
use loglens::model::{InputFormat, LogDataset};
use loglens::parser::detect_format;

#[test]
fn non_strict_mode_keeps_good_jsonl_records_and_issues() {
    let text = "{\"level\":\"info\",\"message\":\"ok\"}\n{bad json}\n{\"level\":\"error\",\"message\":\"bad\"}";
    let mut dataset = LogDataset::empty();

    load_text(&mut dataset, text, "mixed.jsonl", InputFormat::Jsonl, false).expect("non-strict load should work");

    assert_eq!(dataset.records.len(), 2);
    assert_eq!(dataset.issues.len(), 1);
}

#[test]
fn strict_mode_fails_on_first_parse_issue() {
    let text = "{\"level\":\"info\",\"message\":\"ok\"}\n{bad json}";
    let mut dataset = LogDataset::empty();

    let err = load_text(&mut dataset, text, "strict.jsonl", InputFormat::Jsonl, true)
        .expect_err("strict mode should reject bad lines");

    assert!(err.message().contains("strict parsing failed"));
}

#[test]
fn directory_input_collects_files_recursively() {
    let found = vec!["loglens-dir/nested/two.log".to_owned(), "loglens-dir/one.log".to_owned()];
    let files = collect_files("loglens-dir", PathKind::Directory, found).expect("directory should load");
    let contents = ["INFO root\n", "ERROR nested\n"];
    let mut dataset = LogDataset::empty();
    for file in &files {
        let format = detect_format(file, InputFormat::PlainLog).expect("format should be known");
        let text = if file.ends_with("one.log") { contents[0] } else { contents[1] };
        load_text(&mut dataset, text, file, format, false).expect("file should load");
    }

    assert_eq!(dataset.records.len(), 2);
    assert!(dataset.records.iter().any(|record| record.source.contains("one.log")));
    assert!(dataset.records.iter().any(|record| record.source.contains("two.log")));
}

#[test]
fn directory_files_come_in_path_order() {
    let found = vec![
        "logs/b.log".to_owned(),
        "logs/a/z.log".to_owned(),
        "logs/a.log".to_owned(),
        "logs/a/b.log".to_owned(),
    ];

    let files = collect_files("logs", PathKind::Directory, found).expect("directory should load");

    assert_eq!(files, vec!["logs/a/b.log", "logs/a/z.log", "logs/a.log", "logs/b.log"]);
}

#[test]
fn single_file_is_its_own_input() {
    let files = collect_files("app.log", PathKind::File, Vec::new()).expect("file should load");

    assert_eq!(files, vec!["app.log".to_owned()]);
}

#[test]
fn empty_directory_or_missing_path_has_no_input_files() {
    let empty = collect_files("empty", PathKind::Directory, Vec::new()).expect_err("nothing to read");
    let missing = collect_files("nowhere", PathKind::Other, Vec::new()).expect_err("nothing to read");

    assert_eq!(empty.message(), "path does not contain readable files: 'empty'");
    assert_eq!(missing.message(), "path does not contain readable files: 'nowhere'");
}

#[test]
fn strict_mode_names_the_first_bad_line() {
    let text = "\n{\"level\":\"info\",\"message\":\"ok\"}\nnot json\n{also bad}";
    let mut dataset = LogDataset::empty();

    let err = load_text(&mut dataset, text, "s.jsonl", InputFormat::Jsonl, true).expect_err("bad lines");

    assert!(err.message().starts_with("strict parsing failed in 's.jsonl' at line 3: invalid JSON: "));
    assert!(dataset.records.is_empty());
}

#[test]
fn strict_and_lenient_agree_on_clean_input() {
    let text = "{\"level\":\"info\",\"message\":\"ok\"}\n\n{\"level\":\"warn\",\"message\":\"slow\"}\n";
    let mut strict = LogDataset::empty();
    let mut lenient = LogDataset::empty();

    load_text(&mut strict, text, "c.jsonl", InputFormat::Jsonl, true).expect("clean input loads");
    load_text(&mut lenient, text, "c.jsonl", InputFormat::Jsonl, false).expect("clean input loads");

    assert_eq!(strict.records.len(), 2);
    assert_eq!(lenient.records.len(), 2);
    assert_eq!(strict.issue_count(), 0);
}

#[test]
fn loads_accumulate_in_order() {
    let mut dataset = LogDataset::empty();

    load_text(&mut dataset, "INFO first\n", "a.log", InputFormat::PlainLog, false).expect("loads");
    load_text(&mut dataset, "ERROR second\n", "b.log", InputFormat::Auto, false).expect("loads");

    assert_eq!(dataset.records.len(), 2);
    assert_eq!(dataset.records[0].source, "a.log");
    assert_eq!(dataset.records[1].source, "b.log");
}

#[test]
fn detects_format_by_extension() {
    assert_eq!(detect_format("a/b.JSONL", InputFormat::Auto).ok(), Some(InputFormat::Jsonl));
    assert_eq!(detect_format("b.ndjson", InputFormat::Auto).ok(), Some(InputFormat::Jsonl));
    assert_eq!(detect_format("c.Csv", InputFormat::Auto).ok(), Some(InputFormat::Csv));
    assert_eq!(detect_format("d.txt", InputFormat::Auto).ok(), Some(InputFormat::PlainLog));
    assert_eq!(detect_format("README", InputFormat::Auto).ok(), Some(InputFormat::PlainLog));
    assert_eq!(detect_format("e.xml", InputFormat::Csv).ok(), Some(InputFormat::Csv));
    let err = detect_format("e.xml", InputFormat::Auto).expect_err("unknown extension");
    assert_eq!(err.message(), "unsupported input format for path 'e.xml'");
}

#[test]
fn strict_whole_load_fails_on_first_issue_of_any_file() {
    let inputs = [
        ("{\"message\":\"a\"}\n", "one.jsonl"),
        ("{\"message\":\"b\"}\nbroken\n{also broken}\n", "two.jsonl"),
        ("not json either\n", "three.jsonl"),
    ];
    let mut lenient = LogDataset::empty();
    for (text, source) in inputs {
        load_text(&mut lenient, text, source, InputFormat::Jsonl, false).expect("lenient load works");
    }
    let mut strict = LogDataset::empty();
    let mut failure = None;
    for (text, source) in inputs {
        if let Err(e) = load_text(&mut strict, text, source, InputFormat::Jsonl, true) {
            failure = Some(e);
            break;
        }
    }

    assert_eq!(lenient.issues.len(), 3);
    let err = failure.expect("strict load fails");
    let first = &lenient.issues[0];
    assert_eq!(
        err.message(),
        format!("strict parsing failed in '{}' at line {}: {}", first.source, first.line, first.reason)
    );
    assert_eq!(first.source, "two.jsonl");
    assert_eq!(first.line, 2);
}
