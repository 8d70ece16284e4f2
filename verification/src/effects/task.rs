//! Handles to work that the runtime does on a reducer's behalf.

use vstd::prelude::*;

use crate::time::{Duration, Instant};

verus! {

/// Asynchronous work being performed by a store.
///
/// A task that is cancelled sends nothing more. The handle is a plain value: it
/// cannot tell the store that it was dropped, so a task whose handle is let go of
/// runs to its end, as one that is detached does. To stop the work, cancel it.
#[derive(Debug, PartialEq, Eq)]
#[must_use]
pub struct Task {
    /// The number under which the runtime knows the work. `None` when the runtime
    /// took on no work for it.
    pub handle: Option<u64>,
    /// The instant for which the task's action is scheduled, where it has one.
    pub when: Option<Instant>,
}

impl Task {
    /// Detaches the task, leaving its work running in the background. Nothing is
    /// asked of the store: work runs until it is cancelled, and with the handle
    /// goes the means to cancel it.
    pub fn detach(self) {
    }

    /// The instant for which the task's action is scheduled, where it has one.
    pub fn when(&self) -> (instant: Option<Instant>)
        ensures
            instant == self.when,
    {
        self.when
    }
}

/// The instants at which a scheduled action is sent.
#[derive(Clone, Copy, Debug, PartialEq, Eq, Structural)]
pub enum Delays {
    /// No instant is left.
    Done,
    /// Once, at this instant.
    Once(Instant),
    /// At `start + n * period`, then with the next `n`, for as long as the
    /// instant and the next `n` can be represented.
    Every { start: Instant, period: Duration, n: u32 },
}

impl Delays {
    /// The next instant, if there is one.
    pub open spec fn first(self) -> Option<Instant> {
        match self {
            Delays::Done => None,
            Delays::Once(instant) => Some(instant),
            Delays::Every { start, period, n } => if period.nanos * n <= u64::MAX && start.nanos
                + period.nanos * n <= u64::MAX && n < u32::MAX {
                Some(Instant { nanos: (start.nanos + period.nanos * n) as u64 })
            } else {
                None
            },
        }
    }

    /// The instants that follow the next one.
    pub open spec fn rest(self) -> Delays {
        match self {
            Delays::Done => Delays::Done,
            Delays::Once(_) => Delays::Done,
            Delays::Every { start, period, n } => if self.first() is Some {
                Delays::Every { start, period, n: (n + 1) as u32 }
            } else {
                Delays::Done
            },
        }
    }

    /// Takes the next instant off the sequence.
    pub fn next(&mut self) -> (instant: Option<Instant>)
        ensures
            instant == old(self).first(),
            *final(self) == old(self).rest(),
    {
        match *self {
            Delays::Done => None,
            Delays::Once(instant) => {
                *self = Delays::Done;
                Some(instant)
            },
            Delays::Every { start, period, n } => {
                let instant = match period.checked_mul(n) {
                    Some(offset) => start.checked_add(offset),
                    None => None,
                };
                match instant {
                    Some(instant) if n < u32::MAX => {
                        *self = Delays::Every { start, period, n: n + 1 };
                        Some(instant)
                    },
                    _ => {
                        *self = Delays::Done;
                        None
                    },
                }
            },
        }
    }
}

} // verus!
