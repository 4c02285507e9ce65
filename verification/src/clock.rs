//! The one reading of the system clock that the tag rules need.

use vstd::prelude::*;

verus! {

/// The civil year that the system clock shows in the system time zone, or
/// `None` where the clock stands outside the range of dates that `jiff`
/// represents.
///
/// Trusted: calls `jiff::Zoned::try_from(std::time::SystemTime)` and
/// `jiff::Zoned::year`. The contract claims only the range that `year`
/// documents for every zoned datetime, -9999 to 9999.
#[verifier::external_body]
pub(crate) fn current_year() -> (y: Option<i16>)
    ensures
        y matches Some(v) ==> -9999 <= v <= 9999,
{
    match jiff::Zoned::try_from(std::time::SystemTime::now()) {
        Ok(now) => Some(now.year()),
        Err(_) => None,
    }
}

} // verus!
