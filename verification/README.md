# loglens

A log analysis library and command-line tool for plain log lines, JSON lines
and CSV files: it reads records, filters them, counts them, judges the data
quality and writes Markdown, JSON or CSV reports.

The library in `src/` is verified with Verus; every public function states
its result over the views of its arguments (`Seq<char>` for texts, sequences
of record views for datasets).

- `text`, `strmap`, `paths`: characters, sorted string maps, path order.
- `model`, `error`, `time`: levels, records, issues, datasets; errors and
  their messages; times read with chrono.
- `pattern`, `json`, `csvio`: the calls into regex, serde_json and csv, with
  the results they give named.
- `parser`, `input`: the three input formats, format detection, strict and
  lenient loading, the files of a directory.
- `filter`, `stats`, `diagnostics`: filters, counts and rankings, data quality.
- `report`, `console`, `cli`: Markdown and CSV reports, terminal lines, command
  values.

`app/` holds the program: clap parsing, file system access, printing, and the
JSON report (serde). `tests/` exercises the library.
