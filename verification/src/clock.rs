//! Calendar text for timestamps, taken from the `chrono` crate.

use vstd::prelude::*;
use chrono::DateTime;

verus! {

/// The earliest timestamp that has a calendar date: the first second of
/// the year -262143.
pub const MIN_TIMESTAMP: i64 = -8_334_601_228_800;

/// The latest timestamp that has a calendar date: the last second of the
/// year 262142.
pub const MAX_TIMESTAMP: i64 = 8_210_266_876_799;

/// What `chrono` writes for the UTC date and time `secs` seconds after the
/// start of 1970 under a `strftime` pattern.
pub uninterp spec fn utc_text(secs: int, pattern: Seq<char>) -> Seq<char>;

/// Whether a timestamp has a calendar date.
pub open spec fn timestamp_in_range(secs: int) -> bool {
    MIN_TIMESTAMP <= secs <= MAX_TIMESTAMP
}

/// Whether a pattern is one of those that this library writes: hour and
/// minute, the date, or the date with hour and minute.
pub open spec fn known_pattern(pattern: Seq<char>) -> bool {
    pattern == "%H:%M"@ || pattern == "%Y-%m-%d"@ || pattern == "%Y-%m-%d %H:%M"@
}

/// Calls `DateTime::from_timestamp` and `DateTime::format` of `chrono`.
/// The first gives a date exactly for the timestamps from
/// [`MIN_TIMESTAMP`] to [`MAX_TIMESTAMP`]; the text that the second
/// writes for it is [`utc_text`]. The patterns admitted are valid, so that
/// writing the text does not fail.
#[verifier::external_body]
pub(crate) fn format_utc(secs: i64, pattern: &str) -> (res: Option<String>)
    requires
        known_pattern(pattern@),
    ensures
        res is Some <==> timestamp_in_range(secs as int),
        res matches Some(text) ==> text@ == utc_text(secs as int, pattern@),
{
    match DateTime::from_timestamp(secs, 0) {
        Some(moment) => Some(moment.format(pattern).to_string()),
        None => None,
    }
}

/// Whether a timestamp has a calendar date.
pub fn has_date(secs: i64) -> (res: bool)
    ensures
        res == timestamp_in_range(secs as int),
{
    MIN_TIMESTAMP <= secs && secs <= MAX_TIMESTAMP
}

/// The hour and minute of a timestamp, as in `09:05`.
pub fn hour_minute(secs: i64) -> (res: Option<String>)
    ensures
        res is Some <==> timestamp_in_range(secs as int),
        res matches Some(text) ==> text@ == utc_text(secs as int, "%H:%M"@),
{
    format_utc(secs, "%H:%M")
}

/// The date of a timestamp, as in `2021-09-05`.
pub fn date(secs: i64) -> (res: Option<String>)
    ensures
        res is Some <==> timestamp_in_range(secs as int),
        res matches Some(text) ==> text@ == utc_text(secs as int, "%Y-%m-%d"@),
{
    format_utc(secs, "%Y-%m-%d")
}

/// The date, hour and minute of a timestamp, as in `2021-09-05 09:05`.
pub fn date_hour_minute(secs: i64) -> (res: Option<String>)
    ensures
        res is Some <==> timestamp_in_range(secs as int),
        res matches Some(text) ==> text@ == utc_text(secs as int, "%Y-%m-%d %H:%M"@),
{
    format_utc(secs, "%Y-%m-%d %H:%M")
}

} // verus!
