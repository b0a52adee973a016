//! Points in time and spans of time, as plain numbers.

use vstd::prelude::*;

verus! {

/// A span of time.
#[derive(Clone, Copy, Debug, PartialEq, Eq, PartialOrd, Ord, Structural)]
pub struct Duration {
    /// The length of the span in nanoseconds.
    pub nanos: u128,
}

impl Duration {
    /// Creates a span of that many milliseconds.
    pub fn from_millis(millis: u64) -> (duration: Self)
        ensures
            duration.nanos == millis * 1_000_000,
    {
        Duration { nanos: millis as u128 * 1_000_000 }
    }

    /// Creates a span of that many seconds.
    pub fn from_secs(secs: u64) -> (duration: Self)
        ensures
            duration.nanos == secs * 1_000_000_000,
    {
        Duration { nanos: secs as u128 * 1_000_000_000 }
    }

    /// Returns the number of whole milliseconds in the span.
    pub fn as_millis(&self) -> (millis: u128)
        ensures
            millis == self.nanos / 1_000_000,
    {
        self.nanos / 1_000_000
    }

    /// Returns the number of whole seconds in the span.
    pub fn as_secs(&self) -> (secs: u128)
        ensures
            secs == self.nanos / 1_000_000_000,
    {
        self.nanos / 1_000_000_000
    }
}

/// A point in time.
#[derive(Clone, Copy, Debug, PartialEq, Eq, PartialOrd, Ord, Structural)]
pub struct Instant {
    /// The nanoseconds since the start of the clock.
    pub nanos: u128,
}

/// The time that passed from the earlier point to the later one, or none if they
/// are the other way round.
pub open spec fn nanos_between(earlier: Instant, later: Instant) -> int {
    if later.nanos >= earlier.nanos {
        later.nanos - earlier.nanos
    } else {
        0
    }
}

impl Instant {
    /// Returns the time that passed since the earlier point in time, or none if
    /// that point is later than this one.
    pub fn saturating_duration_since(&self, earlier: Instant) -> (duration: Duration)
        ensures
            duration.nanos == nanos_between(earlier, *self),
    {
        if self.nanos >= earlier.nanos {
            Duration { nanos: self.nanos - earlier.nanos }
        } else {
            Duration { nanos: 0 }
        }
    }
}

/// The time between two points in time is what has to be added to the earlier one to get
/// to the later one, and nothing if they are in the wrong order.
pub proof fn law_time_passes(earlier: Instant, later: Instant)
    ensures
        earlier.nanos <= later.nanos ==> earlier.nanos + nanos_between(earlier, later)
            == later.nanos,
        earlier.nanos > later.nanos ==> nanos_between(earlier, later) == 0,
{
}

} // verus!
