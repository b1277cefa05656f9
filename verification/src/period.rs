//! The period of a report: its first and last day.

use vstd::prelude::*;
use vstd::string::StringExecFns;

verus! {

/// The seconds of a minute.
pub const MINUTE: u64 = 60;

/// The seconds of an hour.
pub const HOUR: u64 = 60 * MINUTE;

/// The seconds of a day.
pub const DAYS: u64 = 24 * HOUR;

/// How long before now a period begins where no first day is given, in
/// seconds.
pub const DEFAULT_PERIOD: u64 = 30 * DAYS;

/// The instant at which the day `day`, written as year, month and day with
/// hyphens between them, begins in UTC, in seconds since the Unix epoch; none
/// where jiff does not read `day` as such a day.
pub uninterp spec fn day_start(day: Seq<char>) -> Option<i64>;

/// The day in UTC of the instant `second` seconds after the Unix epoch, written
/// as year, month and day with hyphens between them; none where jiff has no
/// timestamp for that instant.
pub uninterp spec fn day_of(second: i64) -> Option<Seq<char>>;

/// The characters of an optional string slice.
pub open spec fn given_text(given: Option<&str>) -> Option<Seq<char>> {
    match given {
        Some(day) => Some(day@),
        None => None,
    }
}

/// The characters of an optional string.
pub open spec fn day_text(day: Option<String>) -> Option<Seq<char>> {
    match day {
        Some(day) => Some(day@),
        None => None,
    }
}

/// The instant that a day given on the command line names, if one is given
/// and it is a day.
pub open spec fn given_second(given: Option<Seq<char>>) -> Option<i64> {
    match given {
        Some(day) => day_start(day),
        None => None,
    }
}

/// The instant that was read, or the fallback where none was.
pub open spec fn chosen_second(parsed: Option<i64>, fallback: i64) -> i64 {
    match parsed {
        Some(second) => second,
        None => fallback,
    }
}

/// Calls jiff's `Timestamp::strptime` with the format `%Y-%m-%d%z` on `day`
/// followed by `+0000`, and hands on the whole seconds of the timestamp that it
/// returns (`Timestamp::as_second`). The contract only names the answer, which
/// depends on `day` alone.
#[verifier::external_body]
fn parse_day(day: &str) -> (r: Option<i64>)
    ensures
        r == day_start(day@),
{
    jiff::Timestamp::strptime("%Y-%m-%d%z", format!("{day}+0000")).ok().map(|t| t.as_second())
}

/// Makes a timestamp of `second` (`Timestamp::from_second`) and calls jiff's
/// `Timestamp::strftime` with the format `%Y-%m-%d` on it. The contract only
/// names the answer, which depends on `second` alone.
#[verifier::external_body]
fn format_day(second: i64) -> (r: Option<String>)
    ensures
        day_text(r) == day_of(second),
{
    jiff::Timestamp::from_second(second).ok().map(|t| t.strftime("%Y-%m-%d").to_string())
}

/// The instant that was read from the command line, or the fallback where
/// none was read.
pub fn choose_second(parsed: Option<i64>, fallback: i64) -> (r: i64)
    ensures
        r == chosen_second(parsed, fallback),
{
    match parsed {
        Some(second) => second,
        None => fallback,
    }
}

/// One end of the period, as a day: the day that is given, where one is given
/// and it is a day; else the day of the fallback instant.
pub fn period_day(given: Option<&str>, fallback: i64) -> (r: Option<String>)
    ensures
        day_text(r) == day_of(chosen_second(given_second(given_text(given)), fallback)),
{
    let parsed = match given {
        Some(day) => parse_day(day),
        None => None,
    };
    format_day(choose_second(parsed, fallback))
}

/// The period as the API takes it: the first day, two dots, the last day.
pub fn range(start: &str, end: &str) -> (r: String)
    ensures
        r@ == start@ + ".."@ + end@,
{
    start.to_owned().concat("..").concat(end)
}

} // verus!
