//! Calendar dates of Unix timestamps, through chrono.

use vstd::prelude::*;

verus! {

/// The UTC calendar date of the instant `secs` seconds after the Unix
/// epoch, as chrono prints a `NaiveDate` (`YYYY-MM-DD` for years 0 to
/// 9999, with a sign and more year digits outside them); `None` where
/// chrono's calendar ends.
pub uninterp spec fn utc_date_of(secs: int) -> Option<Seq<char>>;

/// The view of an optional text.
pub open spec fn opt_text(o: Option<String>) -> Option<Seq<char>> {
    match o {
        Some(s) => Some(s@),
        None => None,
    }
}

/// Relies on chrono's `DateTime::from_timestamp(secs, 0)`, which is `None`
/// only outside its calendar (years -262143 to 262142, well beyond
/// 8 * 10^12 seconds either side of the epoch), and on the `Display` of the
/// `NaiveDate` it holds.
#[verifier::external_body]
pub(crate) fn utc_date(secs: i64) -> (r: Option<String>)
    ensures
        opt_text(r) == utc_date_of(secs as int),
        -8_000_000_000_000 <= secs <= 8_000_000_000_000 ==> r is Some,
{
    match chrono::DateTime::from_timestamp(secs, 0) {
        Some(t) => Some(t.date_naive().to_string()),
        None => None,
    }
}

} // verus!
