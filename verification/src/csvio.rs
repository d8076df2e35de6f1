//! CSV, read and written by the `csv` crate, held as plain values.
use crate::text::{join, views};
use vstd::prelude::*;

verus! {

/// A row the CSV reader rejected: its line, where the reader knows it, and
/// the text of the error.
pub struct CsvRowError {
    pub line: Option<u64>,
    pub message: String,
}

/// What the CSV reader yields for a text: the header row (or the text of the
/// error reading it) and each following row (or the error for it).
pub struct CsvTable {
    pub headers: Result<Vec<String>, String>,
    pub rows: Vec<Result<Vec<String>, CsvRowError>>,
}

/// Why writing a CSV record failed: in `write_record`, or when the writer
/// handed its buffer back.
pub enum CsvWriteError {
    Write(String),
    Flush(String),
}

/// What `csv::Reader::from_reader` (headers on, not flexible) yields for a text.
pub uninterp spec fn csv_table(text: Seq<char>) -> CsvTable;

/// What a `csv::Writer` with default settings writes for one record, or the
/// error it reports.
pub uninterp spec fn csv_record(fields: Seq<Seq<char>>) -> Result<Seq<char>, CsvWriteError>;

/// Reads a whole CSV text with `csv::Reader` (`headers`, then `records`).
#[verifier::external_body]
pub(crate) fn read_csv(text: &str) -> (r: CsvTable)
    ensures
        r == csv_table(text@),
{
    let mut reader = csv::Reader::from_reader(text.as_bytes());
    let headers = reader.headers().map(|h| h.iter().map(str::to_owned).collect()).map_err(|e| e.to_string());
    let rows = reader.records().map(|row| row.map(|r| r.iter().map(str::to_owned).collect()).map_err(|e| CsvRowError { line: e.position().map(|p| p.line()), message: e.to_string() })).collect();
    CsvTable { headers, rows }
}

/// Whether the default writer quotes a field holding this character: the
/// delimiter, the quote, a carriage return or a line feed.
pub open spec fn csv_special(c: char) -> bool {
    c == ',' || c == '"' || c == '\r' || c == '\n'
}

/// A field's text with every quote doubled.
pub open spec fn csv_doubled(f: Seq<char>) -> Seq<char>
    decreases f.len(),
{
    if f.len() == 0 {
        Seq::empty()
    } else {
        csv_doubled(f.drop_last()) + if f.last() == '"' {
            seq!['"', '"']
        } else {
            seq![f.last()]
        }
    }
}

/// A field as the default writer writes it: in quotes, inner quotes
/// doubled, when it holds a special character; else as it is.
pub open spec fn csv_cell(f: Seq<char>) -> Seq<char> {
    if exists|i: int| 0 <= i < f.len() && csv_special(#[trigger] f[i]) {
        seq!['"'] + csv_doubled(f) + seq!['"']
    } else {
        f
    }
}

/// A record as the default writer writes it: the fields apart by commas,
/// then a line feed; a record of no field or of one empty field is written
/// as an empty quoted field.
pub open spec fn csv_line_text(fields: Seq<Seq<char>>) -> Seq<char> {
    if fields.len() == 0 || (fields.len() == 1 && fields[0].len() == 0) {
        seq!['"', '"', '\n']
    } else {
        join(fields.map_values(|f: Seq<char>| csv_cell(f)), seq![',']) + seq!['\n']
    }
}

/// Writes one record with a fresh `csv::Writer` over a byte buffer and returns
/// the text written. As the csv and csv-core sources show, the default writer
/// quotes a field holding a comma, a quote, CR or LF, doubles inner quotes,
/// ends the record with a line feed and writes a lone empty field as `""`;
/// when the failure of the call comes (it writes into memory) is only named.
#[verifier::external_body]
pub(crate) fn write_csv_record(fields: &Vec<String>) -> (r: Result<String, CsvWriteError>)
    ensures
        match r {
            Ok(t) => csv_record(views(fields@)) == Ok::<Seq<char>, CsvWriteError>(t@) && t@ == csv_line_text(
                views(fields@),
            ),
            Err(e) => csv_record(views(fields@)) == Err::<Seq<char>, CsvWriteError>(e),
        },
{
    let mut writer = csv::Writer::from_writer(Vec::new());
    writer.write_record(fields).map_err(|e| CsvWriteError::Write(e.to_string()))?;
    let bytes = writer.into_inner().map_err(|e| CsvWriteError::Flush(e.into_error().to_string()))?;
    Ok(String::from_utf8_lossy(&bytes).into_owned())
}

} // verus!
