//! Conversion of store-level time intervals, given as calendar parts and
//! microseconds, into a plain microsecond count.
use vstd::prelude::*;

verus! {

/// Converts an interval to a duration in microseconds.
///
/// The interval must carry no day or month component and must not be
/// longer than 6 hours.
pub fn convert_interval(days: i32, months: i32, microseconds: i64) -> (r: u64)
    requires
        days == 0,
        months == 0,
        0 <= microseconds <= 21_600_000_000i64,
    ensures
        r == microseconds,
{
    microseconds as u64
}

} // verus!
