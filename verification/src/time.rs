//! Points in time, as read by chrono and held as plain values.
use crate::error::LoglensError;
use crate::text::{chars_of, replace_chars, string_of, strip_brackets, strip_brackets_text, trim, trim_bounds, slice_chars, replace_char};
use chrono::{Datelike, TimeZone, Timelike};
use vstd::prelude::*;

verus! {

/// A calendar date and wall-clock time without an offset.
#[derive(Clone, Copy, Debug, PartialEq, Eq, Structural)]
pub struct LocalDateTime {
    pub year: i32,
    pub month: u32,
    pub day: u32,
    pub hour: u32,
    pub minute: u32,
    pub second: u32,
    pub nanos: u32,
}

/// A point in time with the UTC offset it was written with.
///
/// `epoch_seconds` and `nanos` give the instant (nanos exceed 999,999,999
/// only in a leap second); `local` is the date and time at `offset_seconds`
/// east of UTC; `rfc3339` is the RFC 3339 rendering of the value.
#[derive(Debug)]
pub struct Timestamp {
    pub epoch_seconds: i64,
    pub nanos: u32,
    pub offset_seconds: i32,
    pub local: LocalDateTime,
    pub rfc3339: String,
}

/// Whether the instant of `a` comes before that of `b`.
pub open spec fn instant_before(a: Timestamp, b: Timestamp) -> bool {
    a.epoch_seconds < b.epoch_seconds || (a.epoch_seconds == b.epoch_seconds && a.nanos < b.nanos)
}

/// Whether the instant of `a` comes before that of `b`.
pub fn is_before(a: &Timestamp, b: &Timestamp) -> (r: bool)
    ensures
        r == instant_before(*a, *b),
{
    a.epoch_seconds < b.epoch_seconds || (a.epoch_seconds == b.epoch_seconds && a.nanos < b.nanos)
}

/// What chrono's `DateTime::parse_from_rfc3339` reads from a text.
pub uninterp spec fn rfc3339_value(text: Seq<char>) -> Option<Timestamp>;

/// What chrono's `NaiveDateTime::parse_from_str` reads from a text with a format.
pub uninterp spec fn naive_value(text: Seq<char>, format: Seq<char>) -> Option<LocalDateTime>;

/// What chrono's `TimeZone::from_local_datetime` gives for a local time at a
/// fixed offset (via `FixedOffset::east_opt`).
pub uninterp spec fn local_at_offset(local: LocalDateTime, offset_seconds: i32) -> Option<Timestamp>;

/// Reads an RFC 3339 date and time with chrono's
/// `DateTime::parse_from_rfc3339`; the contract only names the result.
#[verifier::external_body]
fn chrono_parse_rfc3339(text: &str) -> (r: Option<Timestamp>)
    ensures
        r == rfc3339_value(text@),
{
    let dt = chrono::DateTime::parse_from_rfc3339(text).ok()?;
    let n = dt.naive_local();
    Some(Timestamp {
        epoch_seconds: dt.timestamp(),
        nanos: dt.timestamp_subsec_nanos(),
        offset_seconds: dt.offset().local_minus_utc(),
        local: LocalDateTime { year: n.year(), month: n.month(), day: n.day(), hour: n.hour(), minute: n.minute(), second: n.second(), nanos: n.nanosecond() },
        rfc3339: dt.to_rfc3339(),
    })
}

/// Reads a date and time without offset with chrono's
/// `NaiveDateTime::parse_from_str`; the contract only names the result.
#[verifier::external_body]
fn chrono_parse_naive(text: &str, format: &str) -> (r: Option<LocalDateTime>)
    ensures
        r == naive_value(text@, format@),
{
    let n = chrono::NaiveDateTime::parse_from_str(text, format).ok()?;
    Some(LocalDateTime { year: n.year(), month: n.month(), day: n.day(), hour: n.hour(), minute: n.minute(), second: n.second(), nanos: n.nanosecond() })
}

/// Places a local date and time at a fixed offset east of UTC, with chrono's
/// `FixedOffset::east_opt` and `TimeZone::from_local_datetime`. As chrono's
/// source shows, a result keeps the local time and the offset, and there is
/// none for an offset of a day or more; what else decides success (a valid
/// date, the range of chrono's dates) is only named.
#[verifier::external_body]
fn chrono_at_offset(local: &LocalDateTime, offset_seconds: i32) -> (r: Option<Timestamp>)
    ensures
        r == local_at_offset(*local, offset_seconds),
        r is Some ==> -86400 < offset_seconds < 86400,
        r matches Some(t) ==> t.local == *local && t.offset_seconds == offset_seconds,
{
    let naive = chrono::NaiveDate::from_ymd_opt(local.year, local.month, local.day)?.and_hms_nano_opt(local.hour, local.minute, local.second, local.nanos)?;
    let dt = chrono::FixedOffset::east_opt(offset_seconds)?.from_local_datetime(&naive).single()?;
    Some(Timestamp {
        epoch_seconds: dt.timestamp(),
        nanos: dt.timestamp_subsec_nanos(),
        offset_seconds: dt.offset().local_minus_utc(),
        local: *local,
        rfc3339: dt.to_rfc3339(),
    })
}

/// The offset assumed for times written without one: eight hours east of UTC.
pub const DEFAULT_OFFSET_SECONDS: i32 = 28800;

/// The format of times written without offset.
pub open spec fn naive_format() -> Seq<char> {
    "%Y-%m-%d %H:%M:%S"@
}

/// What `parse_timestamp` reads from a text: after trimming white space and
/// then brackets, an RFC 3339 time; failing that, with every `T` made a
/// space, a `%Y-%m-%d %H:%M:%S` time taken at eight hours east of UTC.
pub open spec fn timestamp_value(value: Seq<char>) -> Option<Timestamp> {
    let trimmed = strip_brackets(trim(value));
    match rfc3339_value(trimmed) {
        Some(t) => Some(t),
        None => match naive_value(replace_char(trimmed, 'T', ' '), naive_format()) {
            Some(local) => local_at_offset(local, DEFAULT_OFFSET_SECONDS),
            None => None,
        },
    }
}

/// Reads a time as the inputs write it (see `timestamp_value`); a text that
/// is no time gives `InvalidTimestamp` with the text as it was given.
pub fn parse_timestamp(value: &str) -> (r: Result<Timestamp, LoglensError>)
    ensures
        match r {
            Ok(t) => timestamp_value(value@) == Some(t),
            Err(e) => timestamp_value(value@) is None && (e matches LoglensError::InvalidTimestamp {
                value: v,
            } && v@ == value@),
        },
{
    let v = chars_of(value);
    let (lo, hi) = trim_bounds(&v);
    let t = slice_chars(&v, lo, hi);
    let stripped = strip_brackets_text(&t);
    let trimmed = string_of(&stripped);
    if let Some(ts) = chrono_parse_rfc3339(trimmed.as_str()) {
        return Ok(ts);
    }
    let normalized = string_of(&replace_chars(&stripped, 'T', ' '));
    let parsed = chrono_parse_naive(normalized.as_str(), "%Y-%m-%d %H:%M:%S");
    match parsed {
        Some(local) => match chrono_at_offset(&local, DEFAULT_OFFSET_SECONDS) {
            Some(ts) => Ok(ts),
            None => Err(LoglensError::InvalidTimestamp { value: value.to_owned() }),
        },
        None => Err(LoglensError::InvalidTimestamp { value: value.to_owned() }),
    }
}

} // verus!
