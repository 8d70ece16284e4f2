//! The state of one delay.

use vstd::prelude::*;

verus! {

/// Where a delay stands between its first poll and its end.
pub enum State<W> {
    /// Not polled yet, and not known to a reactor.
    Fresh,
    /// Polled, and waiting for the reactor to fire it. Holds the waker of whoever
    /// polled last.
    Waiting(W),
    /// Fired by the reactor.
    Ready,
}

impl<W> State<W> {
    /// Polls the delay. Returns whether it is over, and whether the delay has to
    /// be added to the reactor, which it has on its first poll.
    pub fn poll(&mut self, waker: W) -> (polled: (bool, bool))
        ensures
            polled.0 == (*old(self) is Ready),
            polled.1 == (*old(self) is Fresh),
            *final(self) == (if *old(self) is Ready {
                State::Ready
            } else {
                State::Waiting(waker)
            }),
    {
        match self {
            State::Ready => (true, false),
            State::Fresh => {
                *self = State::Waiting(waker);
                (false, true)
            },
            State::Waiting(_) => {
                *self = State::Waiting(waker);
                (false, false)
            },
        }
    }

    /// The reactor fires the delay. Returns the waker to wake, which there is
    /// when the delay was waiting.
    pub fn fire(&mut self) -> (waker: Option<W>)
        ensures
            *final(self) == State::<W>::Ready,
            waker == (match *old(self) {
                State::Waiting(waker) => Some(waker),
                _ => None::<W>,
            }),
    {
        let mut state = State::Ready;
        std::mem::swap(self, &mut state);
        match state {
            State::Waiting(waker) => Some(waker),
            _ => None,
        }
    }
}

} // verus!
