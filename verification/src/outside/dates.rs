//! Dates, from the `chrono` crate.
use vstd::prelude::*;

use crate::text::view_opt;

verus! {

/// How the date of a feed item is shown.
pub const PUBLISHED_FORMAT: &'static str = "%Y-%m-%d %H:%M UTC";

/// The Unix time that `DateTime::parse_from_rfc3339` reads in a text.
pub uninterp spec fn rfc3339_time(text: Seq<char>) -> Option<i64>;

/// The Unix time that `DateTime::parse_from_rfc2822` reads in a text.
pub uninterp spec fn rfc2822_time(text: Seq<char>) -> Option<i64>;

/// The Unix time of the date and time that `NaiveDateTime::parse_from_str` reads in a
/// text by a format, taken as UTC.
pub uninterp spec fn naive_time(text: Seq<char>, format: Seq<char>) -> Option<i64>;

/// The Unix time of the first second of the day that `NaiveDate::parse_from_str` reads
/// in a text by a format, taken as UTC.
pub uninterp spec fn naive_day(text: Seq<char>, format: Seq<char>) -> Option<i64>;

/// The text that `DateTime::format` makes of a Unix time by a format; `None` where
/// `DateTime::from_timestamp` knows no such time.
pub uninterp spec fn utc_text(seconds: int, format: Seq<char>) -> Option<Seq<char>>;

/// The text that `DateTime::to_rfc3339` makes of a Unix time and its nanoseconds in UTC;
/// `None` where `DateTime::from_timestamp` knows no such time.
pub uninterp spec fn rfc3339_text(seconds: int, nanos: int) -> Option<Seq<char>>;

/// `DateTime::parse_from_rfc3339`, as a Unix time: a function of the text.
#[verifier::external_body]
pub(crate) fn parse_rfc3339(text: &str) -> (r: Option<i64>)
    ensures
        r == rfc3339_time(text@),
{
    chrono::DateTime::parse_from_rfc3339(text).ok().map(|d| d.timestamp())
}

/// `DateTime::parse_from_rfc2822`, as a Unix time: a function of the text.
#[verifier::external_body]
pub(crate) fn parse_rfc2822(text: &str) -> (r: Option<i64>)
    ensures
        r == rfc2822_time(text@),
{
    chrono::DateTime::parse_from_rfc2822(text).ok().map(|d| d.timestamp())
}

/// `NaiveDateTime::parse_from_str`, as a Unix time in UTC: a function of the text and
/// the format.
#[verifier::external_body]
pub(crate) fn parse_naive_time(text: &str, format: &str) -> (r: Option<i64>)
    ensures
        r == naive_time(text@, format@),
{
    chrono::NaiveDateTime::parse_from_str(text, format).ok().map(|d| d.and_utc().timestamp())
}

/// `NaiveDate::parse_from_str` and `NaiveDate::and_hms_opt` at midnight, as a Unix time
/// in UTC: a function of the text and the format.
#[verifier::external_body]
pub(crate) fn parse_naive_day(text: &str, format: &str) -> (r: Option<i64>)
    ensures
        r == naive_day(text@, format@),
{
    let day = chrono::NaiveDate::parse_from_str(text, format).ok()?;
    day.and_hms_opt(0, 0, 0).map(|d| d.and_utc().timestamp())
}

/// `DateTime::from_timestamp` and `DateTime::format` with the format of feed items,
/// which is valid: a function of the time and the format.
#[verifier::external_body]
pub(crate) fn format_utc(seconds: i64, format: &str) -> (r: Option<String>)
    requires
        format@ == PUBLISHED_FORMAT@,
    ensures
        view_opt(r) == utc_text(seconds as int, format@),
{
    let time = chrono::DateTime::<chrono::Utc>::from_timestamp(seconds, 0)?;
    Some(time.format(format).to_string())
}

/// `DateTime::from_timestamp` and `DateTime::to_rfc3339`: a function of the time.
#[verifier::external_body]
pub(crate) fn format_rfc3339(seconds: i64, nanos: u32) -> (r: Option<String>)
    ensures
        view_opt(r) == rfc3339_text(seconds as int, nanos as int),
{
    chrono::DateTime::<chrono::Utc>::from_timestamp(seconds, nanos).map(|t| t.to_rfc3339())
}

} // verus!
