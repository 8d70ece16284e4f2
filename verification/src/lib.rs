//! A composable architecture for state management: stores, reducers, effects.
//!
//! A [`Store`] owns one state value. Actions are sent to it; a [`Reducer`] changes
//! the state in response to each, and asks through its [`Effects`] for what is to
//! follow: more actions, streams of actions, actions at given instants. Parents
//! hand actions down to their children, to one child or to one among many by its
//! [`Keyed`] key, and get their children's effects back.
//!
//! Everything here is a plain value that changes in steps: a store, the channel
//! that actions reach it through, the queue of its timers. Time is virtual, counted
//! in nanoseconds from a clock's origin, and passes only when a clock is advanced.
//! Nothing blocks, nothing reads a wall clock, nothing shares state behind the
//! caller's back; a runtime that wants threads and real time holds these values
//! behind its own locks and tells them the time.
//!
//! What each operation does is stated with it and proved. The modules
//! [`store::progress`], [`effects::bursts`], [`effects::scheduler`] and
//! [`reducer`] also prove what follows for whole runs: that actions are reduced in
//! the order sent, each with all that it sets off before the next; that timers
//! fire in the order of their instants; what a burst of debounced or throttled
//! calls leaves behind; and that an action reaches the one child it is meant for.

pub mod dependencies;
pub mod derive;
pub mod effects;
pub mod keyed;
pub mod reducer;
pub mod store;
pub mod time;
pub mod views;

pub use effects::{Effects, Interval, Task};
pub use keyed::{Keyed, KeyedState};
pub use reducer::Reducer;
pub use store::{Store, TestClock, TestStore};
