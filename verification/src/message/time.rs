//! Arrival and measurement times in nanoseconds.

use vstd::prelude::*;

verus! {

/// Nanoseconds since the Unix epoch at which a message reached the recorder.
#[derive(Clone, Copy, Debug, PartialEq, Eq, PartialOrd, Ord, Hash, Structural)]
pub struct ArrivalTime(pub i64);

/// Nanoseconds since the Unix epoch at which a sensor took a measurement.
#[derive(Clone, Copy, Debug, PartialEq, Eq, PartialOrd, Ord, Hash, Structural)]
pub struct MeasurementTime(pub i64);

impl Default for ArrivalTime {
    fn default() -> (time: Self)
        ensures
            time == ArrivalTime(0),
    {
        ArrivalTime(0)
    }
}

impl Default for MeasurementTime {
    fn default() -> (time: Self)
        ensures
            time == MeasurementTime(0),
    {
        MeasurementTime(0)
    }
}

/// The time nearest to a number of nanoseconds that the time type can hold.
pub open spec fn saturated(nanos: int) -> i64 {
    if nanos < i64::MIN {
        i64::MIN
    } else if nanos > i64::MAX {
        i64::MAX
    } else {
        nanos as i64
    }
}

/// The sum of two times, or the nearest time that can be held.
pub fn saturating_sum(first: i64, second: i64) -> (sum: i64)
    ensures
        sum == saturated(first + second),
{
    match first.checked_add(second) {
        Some(sum) => sum,
        None => if second < 0 {
            i64::MIN
        } else {
            i64::MAX
        },
    }
}

/// The difference of two times, or the nearest time that can be held.
pub fn saturating_difference(first: i64, second: i64) -> (difference: i64)
    ensures
        difference == saturated(first - second),
{
    match first.checked_sub(second) {
        Some(difference) => difference,
        None => if second < 0 {
            i64::MAX
        } else {
            i64::MIN
        },
    }
}

/// Nanoseconds in one second.
pub const NANOS_PER_SECOND: i64 = 1_000_000_000;

/// Splits a time into whole seconds, rounded down, and the nanoseconds that remain.
pub fn split_seconds(nanos: i64) -> (parts: (i64, u32))
    ensures
        parts.0 == nanos as int / 1_000_000_000,
        parts.1 == nanos as int % 1_000_000_000,
{
    if nanos >= 0 {
        let whole: u64 = nanos as u64;
        ((whole / 1_000_000_000) as i64, (whole % 1_000_000_000) as u32)
    } else {
        let magnitude: u64 = (-(nanos as i128)) as u64;
        let seconds: u64 = (magnitude + 999_999_999) / 1_000_000_000;
        let rest: u64 = seconds * 1_000_000_000 - magnitude;
        (-(seconds as i64), rest as u32)
    }
}

/// A number of nanoseconds that fits is kept, and one that does not becomes the nearest that does.
pub proof fn law_times_are_kept_where_they_fit(nanos: int)
    ensures
        i64::MIN <= nanos <= i64::MAX ==> saturated(nanos) == nanos,
        nanos > i64::MAX ==> saturated(nanos) == i64::MAX,
        nanos < i64::MIN ==> saturated(nanos) == i64::MIN,
{
}

} // verus!
