//! The errors of the library, and the messages they are shown by.
use crate::text::{decimal, decimal_text, push_str};
use vstd::prelude::*;

verus! {

/// Everything that can go wrong while loading, filtering or reporting.
#[derive(Debug)]
pub enum LoglensError {
    /// Reading an input failed; the text describes the failure.
    Io(String),
    /// The CSV reader or writer failed; the text describes the failure.
    Csv(String),
    /// JSON handling failed at a line (0 where no line applies).
    JsonLine { line: usize, message: String },
    /// A regular expression did not compile.
    Regex(String),
    InvalidTimestamp { value: String },
    InvalidFieldFilter { value: String },
    MissingFieldName,
    StrictParseIssue { file: String, line: usize, reason: String },
    UnsupportedFormat { path: String },
    NoInputFiles { path: String },
    ReportWrite { path: String, message: String },
}

/// An error with its texts taken by their views.
pub enum ErrorView {
    Io(Seq<char>),
    Csv(Seq<char>),
    JsonLine { line: usize, message: Seq<char> },
    Regex(Seq<char>),
    InvalidTimestamp { value: Seq<char> },
    InvalidFieldFilter { value: Seq<char> },
    MissingFieldName,
    StrictParseIssue { file: Seq<char>, line: usize, reason: Seq<char> },
    UnsupportedFormat { path: Seq<char> },
    NoInputFiles { path: Seq<char> },
    ReportWrite { path: Seq<char>, message: Seq<char> },
}

impl View for LoglensError {
    type V = ErrorView;

    open spec fn view(&self) -> ErrorView {
        match self {
            LoglensError::Io(m) => ErrorView::Io(m@),
            LoglensError::Csv(m) => ErrorView::Csv(m@),
            LoglensError::JsonLine { line, message } => ErrorView::JsonLine { line: *line, message: message@ },
            LoglensError::Regex(m) => ErrorView::Regex(m@),
            LoglensError::InvalidTimestamp { value } => ErrorView::InvalidTimestamp { value: value@ },
            LoglensError::InvalidFieldFilter { value } => ErrorView::InvalidFieldFilter { value: value@ },
            LoglensError::MissingFieldName => ErrorView::MissingFieldName,
            LoglensError::StrictParseIssue { file, line, reason } => ErrorView::StrictParseIssue {
                file: file@,
                line: *line,
                reason: reason@,
            },
            LoglensError::UnsupportedFormat { path } => ErrorView::UnsupportedFormat { path: path@ },
            LoglensError::NoInputFiles { path } => ErrorView::NoInputFiles { path: path@ },
            LoglensError::ReportWrite { path, message } => ErrorView::ReportWrite {
                path: path@,
                message: message@,
            },
        }
    }
}

/// A result with its value and error taken by their views.
pub open spec fn result_view<T: View>(r: Result<T, LoglensError>) -> Result<T::V, ErrorView> {
    match r {
        Ok(v) => Ok(v@),
        Err(e) => Err(e@),
    }
}

/// The message an error is shown by.
pub open spec fn error_text(e: LoglensError) -> Seq<char> {
    match e {
        LoglensError::Io(m) => "I/O error: "@ + m@,
        LoglensError::Csv(m) => "CSV error: "@ + m@,
        LoglensError::JsonLine { line, message } => "JSON error at line "@ + decimal(line as nat)
            + ": "@ + message@,
        LoglensError::Regex(m) => "regex error: "@ + m@,
        LoglensError::InvalidTimestamp { value } => "invalid timestamp '"@ + value@ + "'"@,
        LoglensError::InvalidFieldFilter { value } => "invalid field filter '"@ + value@
            + "', expected key=value"@,
        LoglensError::MissingFieldName => "--field-name is required when --group-by field is used"@,
        LoglensError::StrictParseIssue { file, line, reason } => "strict parsing failed in '"@
            + file@ + "' at line "@ + decimal(line as nat) + ": "@ + reason@,
        LoglensError::UnsupportedFormat { path } => "unsupported input format for path '"@ + path@
            + "'"@,
        LoglensError::NoInputFiles { path } => "path does not contain readable files: '"@ + path@
            + "'"@,
        LoglensError::ReportWrite { path, message } => "failed to write report to '"@ + path@
            + "': "@ + message@,
    }
}

impl LoglensError {
    /// The message the error is shown by.
    pub fn message(&self) -> (r: String)
        ensures
            r@ == error_text(*self),
    {
        let mut out = String::new();
        match self {
            LoglensError::Io(m) => {
                push_str(&mut out, "I/O error: ");
                push_str(&mut out, m.as_str());
            },
            LoglensError::Csv(m) => {
                push_str(&mut out, "CSV error: ");
                push_str(&mut out, m.as_str());
            },
            LoglensError::JsonLine { line, message } => {
                push_str(&mut out, "JSON error at line ");
                let n = decimal_text(*line as u64);
                push_str(&mut out, n.as_str());
                push_str(&mut out, ": ");
                push_str(&mut out, message.as_str());
            },
            LoglensError::Regex(m) => {
                push_str(&mut out, "regex error: ");
                push_str(&mut out, m.as_str());
            },
            LoglensError::InvalidTimestamp { value } => {
                push_str(&mut out, "invalid timestamp '");
                push_str(&mut out, value.as_str());
                push_str(&mut out, "'");
            },
            LoglensError::InvalidFieldFilter { value } => {
                push_str(&mut out, "invalid field filter '");
                push_str(&mut out, value.as_str());
                push_str(&mut out, "', expected key=value");
            },
            LoglensError::MissingFieldName => {
                push_str(&mut out, "--field-name is required when --group-by field is used");
            },
            LoglensError::StrictParseIssue { file, line, reason } => {
                push_str(&mut out, "strict parsing failed in '");
                push_str(&mut out, file.as_str());
                push_str(&mut out, "' at line ");
                let n = decimal_text(*line as u64);
                push_str(&mut out, n.as_str());
                push_str(&mut out, ": ");
                push_str(&mut out, reason.as_str());
            },
            LoglensError::UnsupportedFormat { path } => {
                push_str(&mut out, "unsupported input format for path '");
                push_str(&mut out, path.as_str());
                push_str(&mut out, "'");
            },
            LoglensError::NoInputFiles { path } => {
                push_str(&mut out, "path does not contain readable files: '");
                push_str(&mut out, path.as_str());
                push_str(&mut out, "'");
            },
            LoglensError::ReportWrite { path, message } => {
                push_str(&mut out, "failed to write report to '");
                push_str(&mut out, path.as_str());
                push_str(&mut out, "': ");
                push_str(&mut out, message.as_str());
            },
        }
        out
    }
}

} // verus!
