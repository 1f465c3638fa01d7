//! Calendar dates, read by the `chrono` crate and handed on as day numbers.

use vstd::prelude::*;

verus! {

/// The day number of the date that `chrono` reads from `text` under the
/// `strftime`-style `format`: days of the proleptic Gregorian calendar, with
/// 1 January of year 1 as day 1. `None` where `chrono` reads no date. A later
/// date has a greater number.
pub uninterp spec fn parsed_day_number(text: Seq<char>, format: Seq<char>) -> Option<i32>;

/// Reads `text` with `chrono::NaiveDate::parse_from_str` under `format` and
/// turns the date into its `Datelike::num_days_from_ce`. The answer depends on
/// the two texts alone, so it is named by [`parsed_day_number`]; text that
/// `chrono` rejects gives `None`.
#[verifier::external_body]
pub(crate) fn parse_day_number(text: &str, format: &str) -> (r: Option<i32>)
    ensures
        r == parsed_day_number(text@, format@),
{
    match chrono::NaiveDate::parse_from_str(text, format) {
        Ok(date) => Some(chrono::Datelike::num_days_from_ce(&date)),
        Err(_) => None,
    }
}

} // verus!
