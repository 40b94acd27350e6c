//! Clock and calendar capability: the few places where the library
//! consults chrono for the current moment or for calendar arithmetic.

use vstd::prelude::*;

verus! {

/// Day number of the calendar day written in `s` (`YYYY-MM-DD` form),
/// counted in the proleptic Gregorian calendar with January 1 of year 1 as
/// day 1, or `None` where `s` is not a valid date in that form. The result
/// depends on the characters of `s` alone.
pub uninterp spec fn date_day_number(s: Seq<char>) -> Option<i64>;

/// Relies on chrono's `NaiveDate::parse_from_str` with the `%Y-%m-%d`
/// format and on `Datelike::num_days_from_ce`: both are pure functions of
/// their input, and the day count is an `i32`.
#[verifier::external_body]
pub(crate) fn parse_date_day_number(s: &str) -> (r: Option<i64>)
    ensures
        r == date_day_number(s@),
        r matches Some(d) ==> -2147483648 <= d <= 2147483647,
{
    match chrono::NaiveDate::parse_from_str(s, "%Y-%m-%d") {
        Ok(d) => Some(chrono::Datelike::num_days_from_ce(&d) as i64),
        Err(_) => None,
    }
}

/// Relies on chrono's `Local::now`: the current local calendar day,
/// formatted as a `YYYY-MM-DD` string. The result depends on the clock, so
/// nothing is assumed of it.
#[verifier::external_body]
pub(crate) fn today_string() -> (r: String) {
    chrono::Local::now().date_naive().format("%Y-%m-%d").to_string()
}

/// Relies on chrono's `Local::now` and `Datelike::num_days_from_ce`: the
/// current local calendar day as a day count, which chrono returns as an
/// `i32`. The value itself depends on the clock.
#[verifier::external_body]
pub(crate) fn today_day_number() -> (r: i64)
    ensures
        -2147483648 <= r <= 2147483647,
{
    chrono::Datelike::num_days_from_ce(&chrono::Local::now().date_naive()) as i64
}

/// Relies on chrono's `Local::now`: the current local time formatted as a
/// `YYYY-MM-DD HH:MM:SS` string. The result depends on the clock, so
/// nothing is assumed of it.
#[verifier::external_body]
pub(crate) fn now_timestamp() -> (r: String) {
    chrono::Local::now().format("%Y-%m-%d %H:%M:%S").to_string()
}

} // verus!
