//! Virtual time: instants and durations counted in whole nanoseconds.
//!
//! The runtime never reads a wall clock. Whoever drives it supplies the current
//! [`Instant`], which makes every schedule reproducible.

use vstd::prelude::*;

verus! {

/// Nanoseconds in one second.
pub const NANOS_PER_SEC: u64 = 1_000_000_000;

/// Nanoseconds in one millisecond.
pub const NANOS_PER_MILLI: u64 = 1_000_000;

/// A span of time, in nanoseconds.
#[derive(Clone, Copy, Debug, PartialEq, Eq, Structural)]
pub struct Duration {
    pub nanos: u64,
}

/// A point on a clock's timeline, in nanoseconds since the clock's origin.
#[derive(Clone, Copy, Debug, PartialEq, Eq, Structural)]
pub struct Instant {
    pub nanos: u64,
}

impl Duration {
    /// The empty span.
    pub fn zero() -> (duration: Duration)
        ensures
            duration.nanos == 0,
    {
        Duration { nanos: 0 }
    }

    /// A span of `nanos` nanoseconds.
    pub fn from_nanos(nanos: u64) -> (duration: Duration)
        ensures
            duration.nanos == nanos,
    {
        Duration { nanos }
    }

    /// A span of `millis` milliseconds.
    pub fn from_millis(millis: u32) -> (duration: Duration)
        ensures
            duration.nanos == millis * NANOS_PER_MILLI,
    {
        let millis: u64 = millis as u64;
        assert(millis * NANOS_PER_MILLI <= u64::MAX) by (nonlinear_arith)
            requires
                millis <= u32::MAX,
                NANOS_PER_MILLI == 1_000_000,
        ;
        Duration { nanos: millis * NANOS_PER_MILLI }
    }

    /// A span of `secs` seconds.
    pub fn from_secs(secs: u32) -> (duration: Duration)
        ensures
            duration.nanos == secs * NANOS_PER_SEC,
    {
        let secs: u64 = secs as u64;
        assert(secs * NANOS_PER_SEC <= u64::MAX) by (nonlinear_arith)
            requires
                secs <= u32::MAX,
                NANOS_PER_SEC == 1_000_000_000,
        ;
        Duration { nanos: secs * NANOS_PER_SEC }
    }

    /// The span in nanoseconds.
    pub fn as_nanos(self) -> (nanos: u64)
        ensures
            nanos == self.nanos,
    {
        self.nanos
    }

    /// `self` repeated `n` times, unless the product cannot be represented.
    pub fn checked_mul(self, n: u32) -> (product: Option<Duration>)
        ensures
            product == (if self.nanos * n <= u64::MAX {
                Some(Duration { nanos: (self.nanos * n) as u64 })
            } else {
                None
            }),
    {
        let n: u64 = n as u64;
        if n == 0 {
            assert(self.nanos * 0 == 0) by (nonlinear_arith);
            Some(Duration { nanos: 0 })
        } else if self.nanos <= u64::MAX / n {
            assert(self.nanos * n <= u64::MAX) by (nonlinear_arith)
                requires
                    n > 0,
                    self.nanos <= u64::MAX / n,
            ;
            Some(Duration { nanos: self.nanos * n })
        } else {
            assert(self.nanos * n > u64::MAX) by (nonlinear_arith)
                requires
                    n > 0,
                    self.nanos > u64::MAX / n,
            ;
            None
        }
    }
}

impl Instant {
    /// The origin of a clock's timeline.
    pub fn origin() -> (instant: Instant)
        ensures
            instant.nanos == 0,
    {
        Instant { nanos: 0 }
    }

    /// The instant `nanos` nanoseconds after the origin.
    pub fn from_nanos(nanos: u64) -> (instant: Instant)
        ensures
            instant.nanos == nanos,
    {
        Instant { nanos }
    }

    /// Nanoseconds since the origin.
    pub fn as_nanos(self) -> (nanos: u64)
        ensures
            nanos == self.nanos,
    {
        self.nanos
    }

    /// Whether `self + duration` is still on the timeline.
    pub open spec fn reaches(self, duration: Duration) -> bool {
        self.nanos + duration.nanos <= u64::MAX
    }

    /// The instant `duration` after `self`, as a specification.
    pub open spec fn plus(self, duration: Duration) -> Instant {
        Instant { nanos: (self.nanos + duration.nanos) as u64 }
    }

    /// The instant `duration` after `self`, unless that lies past the end of the timeline.
    pub fn checked_add(self, duration: Duration) -> (sum: Option<Instant>)
        ensures
            sum == (if self.reaches(duration) {
                Some(self.plus(duration))
            } else {
                None::<Instant>
            }),
    {
        if duration.nanos <= u64::MAX - self.nanos {
            Some(Instant { nanos: self.nanos + duration.nanos })
        } else {
            None
        }
    }

    /// The instant `duration` after `self`.
    pub fn add(self, duration: Duration) -> (sum: Instant)
        requires
            self.reaches(duration),
        ensures
            sum == self.plus(duration),
    {
        Instant { nanos: self.nanos + duration.nanos }
    }

    /// The time from `earlier` to `self`, or nothing when `earlier` is the later one.
    pub fn saturating_duration_since(self, earlier: Instant) -> (elapsed: Duration)
        ensures
            elapsed.nanos == (if self.nanos >= earlier.nanos {
                self.nanos - earlier.nanos
            } else {
                0
            }),
    {
        if self.nanos >= earlier.nanos {
            Duration { nanos: self.nanos - earlier.nanos }
        } else {
            Duration { nanos: 0 }
        }
    }
}

} // verus!
