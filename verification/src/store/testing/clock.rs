//! A clock that moves only when it is told to.

use vstd::prelude::*;

use crate::time::{Duration, Instant};

verus! {

/// The instant `duration` after `now`, or the end of the timeline where that
/// would lie beyond it.
pub open spec fn target_of(now: Instant, duration: Duration) -> Instant {
    if now.reaches(duration) {
        now.plus(duration)
    } else {
        Instant { nanos: u64::MAX }
    }
}

/// By implementing the `TestClock` trait, a store can be used to test reducers
/// that schedule actions: time passes only when `advance` is called, so every
/// schedule is reproducible.
pub trait TestClock {
    /// Whether the clock is in a state in which it can be advanced.
    open spec fn ticking(&self) -> bool {
        true
    }

    /// The clock's time.
    open spec fn time(&self) -> Instant {
        vstd::pervasive::arbitrary()
    }

    /// Moves the clock on by `duration`, but no further than the end of the
    /// timeline.
    fn advance(&mut self, duration: Duration)
        requires
            old(self).ticking(),
        ensures
            final(self).ticking(),
            final(self).time() == target_of(old(self).time(), duration),
    ;
}

} // verus!
