//! The commands of the program, as plain values, and the checks made on them
//! before any input is read.
use crate::error::{ErrorView, LoglensError};
use crate::filter::{opt_view, options_outcome, FilterOptions};
use crate::model::{GroupBy, InputFormat, LogLevel};
use crate::text::views;
use vstd::prelude::*;

verus! {

/// A parsed command line.
pub struct Cli {
    pub command: Command,
}

/// What the program is asked to do.
pub enum Command {
    /// Load the input and show its first records and issues.
    Scan(InputArgs),
    /// Show the records that pass the filters.
    Filter(FilterCommand),
    /// Show counts and rankings.
    Stats(StatsCommand),
    /// Write a report file.
    Report(ReportCommand),
}

/// Where the input is and how to read it.
pub struct InputArgs {
    pub path: String,
    pub format: InputFormat,
    pub strict: bool,
}

/// The arguments of `filter`.
pub struct FilterCommand {
    pub input: InputArgs,
    pub filters: FilterArgs,
    pub limit: usize,
}

/// The arguments of `stats`.
pub struct StatsCommand {
    pub input: InputArgs,
    pub group_by: GroupBy,
    pub field_name: Option<String>,
    pub top_field: Option<String>,
    pub top: usize,
}

/// The arguments of `report`.
pub struct ReportCommand {
    pub input: InputArgs,
    pub filters: FilterArgs,
    pub group_by: GroupBy,
    pub field_name: Option<String>,
    pub top_field: Option<String>,
    pub top: usize,
    pub sample_limit: usize,
    pub output: String,
}

/// The filter conditions in the form they are given on the command line.
pub struct FilterArgs {
    pub level: Option<LogLevel>,
    pub min_level: Option<LogLevel>,
    pub keyword: Option<String>,
    pub regex: Option<String>,
    pub from: Option<String>,
    pub to: Option<String>,
    pub field: Vec<String>,
}

impl FilterArgs {
    /// Builds the filter that these arguments describe.
    pub fn build(self) -> (r: Result<FilterOptions, LoglensError>)
        ensures
            crate::error::result_view(r) == options_outcome(
                self.level,
                self.min_level,
                opt_view(self.keyword),
                opt_view(self.regex),
                opt_view(self.from),
                opt_view(self.to),
                views(self.field@),
            ),
    {
        FilterOptions::new(
            self.level,
            self.min_level,
            self.keyword,
            self.regex,
            self.from,
            self.to,
            self.field,
        )
    }
}

/// The field to group by: grouping by field needs a field name, which is
/// refused when missing; otherwise the name (if any) is passed on.
pub fn group_field_name(group_by: GroupBy, field_name: Option<&str>) -> (r: Result<Option<&str>, LoglensError>)
    ensures
        group_by == GroupBy::Field && field_name is None ==> (r matches Err(e) && e@ == ErrorView::MissingFieldName),
        !(group_by == GroupBy::Field && field_name is None) ==> r == Ok::<Option<&str>, LoglensError>(field_name),
{
    if group_by == GroupBy::Field && field_name.is_none() {
        return Err(LoglensError::MissingFieldName);
    }
    Ok(field_name)
}

} // verus!
