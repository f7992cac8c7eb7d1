//! The calendar: the validity of dates, from `chrono`. The local time
//! itself is read by the program around the library, which hands the day
//! (or stamp) to the functions that need it.
use vstd::prelude::*;

verus! {

/// Whether `chrono::NaiveDate::parse_from_str(s, "%Y-%m-%d")` accepts `s`.
pub uninterp spec fn ymd_date_accepted(s: Seq<char>) -> bool;

/// Calls `chrono::NaiveDate::parse_from_str(s, "%Y-%m-%d")` and tells whether
/// it succeeded. The claim is only that the answer is a function of `s`;
/// chrono's date grammar and calendar rules are not restated.
#[verifier::external_body]
pub(crate) fn parse_ymd_date(s: &str) -> (ok: bool)
    ensures
        ok == ymd_date_accepted(s@),
{
    chrono::NaiveDate::parse_from_str(s, "%Y-%m-%d").is_ok()
}

} // verus!
