//! Spans of time as the display counts them: in ticks of 100 nanoseconds.

use std::time::Duration;
use vstd::prelude::*;

verus! {

/// The number of ticks in a millisecond.
pub const TICKS_PER_MILLISECOND: i64 = 10000;

/// A span of time in ticks of 100 nanoseconds.
#[derive(Copy, Clone, PartialEq, Eq, Debug, Structural)]
pub struct TimeSpan {
    pub duration: i64,
}

/// The number of whole milliseconds that a `Duration` holds: what
/// `Duration::as_millis` returns.
pub uninterp spec fn duration_millis(duration: Duration) -> nat;

/// `Duration::as_millis` returns the number of whole milliseconds of the
/// duration, which the contracts call `duration_millis`.
pub assume_specification[ Duration::as_millis ](duration: &Duration) -> (millis: u128)
    ensures
        millis == duration_millis(*duration),
;

/// `Duration::from_millis` makes the duration of the given number of
/// milliseconds, so that this number is again its whole milliseconds.
pub assume_specification[ Duration::from_millis ](millis: u64) -> (duration: Duration)
    ensures
        duration_millis(duration) == millis,
;

impl TimeSpan {
    /// The time span of `millis` milliseconds, where it can be counted in
    /// ticks.
    pub open spec fn of_millis(millis: int) -> Option<TimeSpan> {
        if 0 <= millis * TICKS_PER_MILLISECOND <= i64::MAX {
            Some(TimeSpan { duration: (millis * TICKS_PER_MILLISECOND) as i64 })
        } else {
            None
        }
    }

    /// The whole milliseconds of `duration` as a time span. The duration
    /// must not hold more ticks than a time span can count.
    pub fn from(duration: Duration) -> (span: TimeSpan)
        requires
            duration_millis(duration) * TICKS_PER_MILLISECOND <= i64::MAX,
        ensures
            Some(span) == TimeSpan::of_millis(duration_millis(duration) as int),
            span.duration == duration_millis(duration) * TICKS_PER_MILLISECOND,
    {
        let ticks: u128 = duration.as_millis() * 10000;
        TimeSpan { duration: ticks as i64 }
    }

    /// The whole milliseconds of `duration` as a time span, or `None` if it
    /// holds more ticks than a time span can count.
    pub fn checked_from(duration: Duration) -> (span: Option<TimeSpan>)
        ensures
            span == TimeSpan::of_millis(duration_millis(duration) as int),
    {
        let millis: u128 = duration.as_millis();
        if millis <= 922337203685477 {
            Some(TimeSpan::from(duration))
        } else {
            None
        }
    }
}

} // verus!
