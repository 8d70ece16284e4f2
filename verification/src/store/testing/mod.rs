//! A store for tests: it reduces one action at a time, and only when it is told to.
//!
//! A [`TestStore`] reduces the action that it is sent at once, and leaves whatever
//! the reducer asked for waiting. Each `recv` then takes the next action that
//! waits and reduces it. Time passes only by `advance`, which lets streams run and
//! timers fire, and leaves what they send waiting as well.

use vstd::prelude::*;

use crate::reducer::Reducer;
use crate::store::testing::clock::target_of;
use crate::effects::clones_exactly;
use crate::store::{later, lemma_queued, Step, Store, StoreView};
use crate::time::{Duration, Instant};

pub mod clock;

pub use clock::TestClock;

verus! {

/// The store and the action received, after the store has taken the next action
/// that waits and reduced it. Where none waits, work that is due is done first,
/// for as long as `budget` lasts, until it has sent one.
pub open spec fn received<R: Reducer>(store: StoreView<R>, budget: nat) -> (
    StoreView<R>,
    Option<R::Action>,
)
    decreases budget,
{
    match store.next_queued() {
        Some(action) => (store.dequeued().reduce(action), Some(action)),
        None => if budget == 0 || store.work_kind() is Idle {
            (store.dequeued(), None)
        } else {
            received(store.dequeued().work(), (budget - 1) as nat)
        },
    }
}

/// Whether a timer's action is cloned on the way to the next action that is
/// received.
pub open spec fn received_clones<R: Reducer>(store: StoreView<R>, budget: nat) -> bool
    decreases budget,
{
    match store.next_queued() {
        Some(_) => false,
        None => budget > 0 && !(store.work_kind() is Idle) && (store.dequeued().rearms()
            || received_clones(store.dequeued().work(), (budget - 1) as nat)),
    }
}

/// Whether a timer's action is cloned while the clock is moved on to `target`.
pub open spec fn elapsed_clones<R: Reducer>(store: StoreView<R>, target: Instant, budget: nat)
    -> bool
    decreases budget,
{
    if budget > 0 && !(store.work_kind() is Idle) {
        store.rearms() || elapsed_clones(store.work(), target, (budget - 1) as nat)
    } else if budget > 0 && store.timers.len() > 0 && store.timers[0].0.nanos <= target.nanos {
        elapsed_clones(
            StoreView { now: later(store.now, store.timers[0].0), ..store },
            target,
            (budget - 1) as nat,
        )
    } else {
        false
    }
}

/// The store after its clock was moved on to `target` without anything being
/// reduced: work that is due is done, then the clock jumps to the instant of the
/// next timer, if that is no later than `target`, and so on, for as long as
/// `budget` lasts.
pub open spec fn elapsed<R: Reducer>(store: StoreView<R>, target: Instant, budget: nat)
    -> StoreView<R>
    decreases budget,
{
    if budget > 0 && !(store.work_kind() is Idle) {
        elapsed(store.work(), target, (budget - 1) as nat)
    } else if budget > 0 && store.timers.len() > 0 && store.timers[0].0.nanos <= target.nanos {
        elapsed(
            StoreView { now: later(store.now, store.timers[0].0), ..store },
            target,
            (budget - 1) as nat,
        )
    } else {
        StoreView { now: later(store.now, target), ..store }
    }
}

/// A store that is driven by hand, one action at a time.
pub struct TestStore<R: Reducer> {
    store: Store<R>,
}

impl<R: Reducer> View for TestStore<R> {
    type V = StoreView<R>;

    closed spec fn view(&self) -> StoreView<R> {
        self.store@
    }
}

impl<R: Reducer> TestStore<R> where R::Action: Clone {
    /// The store holds together.
    pub closed spec fn wf(&self) -> bool {
        self.store.wf()
    }

    /// What follows from `wf` for the view.
    pub proof fn lemma_wf(&self)
        requires
            self.wf(),
        ensures
            crate::effects::scheduler::chronological(self@.timers),
    {
        self.store.lemma_wf();
    }

    /// Creates a new store with `state` as its initial state, at the origin of its
    /// clock.
    pub fn with_initial(state: R) -> (store: TestStore<R>)
        ensures
            store.wf(),
            store@ == (StoreView {
                state,
                inbox: Seq::empty(),
                buffer: Seq::empty(),
                now: Instant { nanos: 0 },
                next_task: 0,
                streams: Seq::empty(),
                timers: Seq::empty(),
                cancelled: Seq::empty(),
                tickets: 0,
                observed: Seq::empty(),
            }),
    {
        TestStore { store: Store::with_initial(state) }
    }

    /// The reducer's state.
    pub fn state(&self) -> (state: &R)
        ensures
            *state == self@.state,
    {
        self.store.state()
    }

    /// The store's time.
    pub fn now(&self) -> (now: Instant)
        ensures
            now == self@.now,
    {
        self.store.now()
    }

    /// Reduces `action` at once. What the reducer asks for is left waiting.
    pub fn send(&mut self, action: R::Action)
        requires
            old(self).wf(),
        ensures
            final(self).wf(),
            final(self)@ == old(self)@.reduce(action),
    {
        self.store.reduce(action);
    }

    /// Takes the next action that waits, reduces it, and returns a clone of it.
    /// Where none waits, streams run and timers that are due fire until one of
    /// them has sent an action. Returns `None` where nothing is left to wait for.
    ///
    /// What becomes of the store is known wherever no timer's action is cloned
    /// on the way, and wherever a clone of an action is known to be the action.
    pub fn recv(&mut self) -> (action: Option<R::Action>)
        requires
            old(self).wf(),
        ensures
            final(self).wf(),
            clones_exactly::<R::Action>() || !received_clones(old(self)@, usize::MAX as nat) ==> {
                &&& final(self)@ == received(old(self)@, usize::MAX as nat).0
                &&& match (received(old(self)@, usize::MAX as nat).1, action) {
                    (Some(reduced), Some(returned)) => vstd::pervasive::cloned(reduced, returned),
                    (None, None) => true,
                    _ => false,
                }
            },
            clones_exactly::<R::Action>() ==> (final(self)@, action) == received(
                old(self)@,
                usize::MAX as nat,
            ),
    {
        let ghost before = self@;
        let mut tries: usize = 0;
        loop
            invariant_except_break
                clones_exactly::<R::Action>() || !received_clones(before, usize::MAX as nat) ==> {
                    &&& received(before, usize::MAX as nat) == received(
                        self@,
                        (usize::MAX - tries) as nat,
                    )
                    &&& clones_exactly::<R::Action>() || !received_clones(
                        self@,
                        (usize::MAX - tries) as nat,
                    )
                },
            invariant
                self.wf(),
                before == old(self)@,
            ensures
                self.wf(),
                clones_exactly::<R::Action>() || !received_clones(before, usize::MAX as nat)
                    ==> received(before, usize::MAX as nat) == (self@, None::<R::Action>),
            decreases usize::MAX - tries,
        {
            let ghost head = self@;
            assert(received_clones(head, (usize::MAX - tries) as nat) == (match head.next_queued() {
                Some(_) => false,
                None => usize::MAX - tries > 0 && !(head.work_kind() is Idle) && (
                head.dequeued().rearms() || received_clones(
                    head.dequeued().work(),
                    (usize::MAX - tries - 1) as nat,
                )),
            }));
            let (_, next) = self.store.next_queued();
            match next {
                Some(action) => {
                    let copy = action.clone();
                    assert(vstd::pervasive::cloned(action, copy));
                    self.store.reduce(action);
                    return Some(copy);
                },
                None => {},
            }
            if tries == usize::MAX {
                break ;
            }
            match self.store.work() {
                Step::Idle => {
                    break ;
                },
                _ => {},
            }
            tries = tries + 1;
        }
        None
    }

    /// Shuts the store down and gives back what its state comes to. Actions that
    /// still wait to be received are an error, and are given back instead.
    pub fn into_inner(self) -> (output: Result<R::Output, Vec<R::Action>>) where
        R::Output: From<R>,

        requires
            self.wf(),
        ensures
            output is Ok <==> self@.queued().len() == 0,
            output matches Err(unmatched) ==> unmatched@ == self@.queued(),
            output matches Ok(inner) ==> (crate::reducer::wraps::<R::Output, R>() ==> inner
                == <R::Output as vstd::std_specs::convert::FromSpec<R>>::from_spec(self@.state)),
    {
        let mut this = self;
        let ghost before = this@;
        let mut unmatched: Vec<R::Action> = Vec::new();
        loop
            invariant_except_break
                this.wf(),
                this@.state == before.state,
                unmatched@ + this@.queued() == before.queued(),
            ensures
                this@.state == before.state,
                unmatched@ == before.queued(),
            decreases this@.buffer.len() + this@.inbox.len(),
        {
            proof {
                lemma_queued(this@);
            }
            let ghost so_far = unmatched@;
            let ghost waiting = this@.queued();
            let (_, next) = this.store.next_queued();
            match next {
                Some(action) => {
                    unmatched.push(action);
                    assert(unmatched@ + this@.queued() =~= so_far + waiting);
                },
                None => {
                    assert(waiting =~= Seq::<R::Action>::empty());
                    assert(so_far + waiting =~= so_far);
                    break ;
                },
            }
        }
        if unmatched.len() == 0 {
            Ok(R::Output::from(this.store.into_state()))
        } else {
            Err(unmatched)
        }
    }
}

impl<R: Reducer> TestClock for TestStore<R> where R::Action: Clone {
    open spec fn ticking(&self) -> bool {
        self.wf()
    }

    open spec fn time(&self) -> Instant {
        self@.now
    }

    /// Moves the clock on by `duration`. On the way streams run and every timer
    /// fires at its instant, earliest first; what they send is left waiting.
    /// Nothing is reduced.
    fn advance(&mut self, duration: Duration)
        ensures
            clones_exactly::<R::Action>() || !elapsed_clones(
                old(self)@,
                target_of(old(self)@.now, duration),
                usize::MAX as nat,
            ) ==> final(self)@ == elapsed(
                old(self)@,
                target_of(old(self)@.now, duration),
                usize::MAX as nat,
            ),
    {
        let target = match self.store.now().checked_add(duration) {
            Some(target) => target,
            None => Instant::from_nanos(u64::MAX),
        };
        let ghost before = self@;
        let mut rounds: usize = 0;
        loop
            invariant_except_break
                clones_exactly::<R::Action>() || !elapsed_clones(
                    before,
                    target,
                    usize::MAX as nat,
                ) ==> {
                    &&& elapsed(before, target, usize::MAX as nat) == elapsed(
                        self@,
                        target,
                        (usize::MAX - rounds) as nat,
                    )
                    &&& clones_exactly::<R::Action>() || !elapsed_clones(
                        self@,
                        target,
                        (usize::MAX - rounds) as nat,
                    )
                },
            invariant
                self.wf(),
                before == old(self)@,
                target == target_of(before.now, duration),
                self@.now.nanos <= target.nanos,
            ensures
                clones_exactly::<R::Action>() || !elapsed_clones(
                    before,
                    target,
                    usize::MAX as nat,
                ) ==> elapsed(before, target, usize::MAX as nat) == (StoreView {
                    now: later(self@.now, target),
                    ..self@
                }),
            decreases usize::MAX - rounds,
        {
            let ghost head = self@;
            assert(elapsed_clones(head, target, (usize::MAX - rounds) as nat) == (if usize::MAX
                - rounds > 0 && !(head.work_kind() is Idle) {
                head.rearms() || elapsed_clones(
                    head.work(),
                    target,
                    (usize::MAX - rounds - 1) as nat,
                )
            } else if usize::MAX - rounds > 0 && head.timers.len() > 0 && head.timers[0].0.nanos
                <= target.nanos {
                elapsed_clones(
                    StoreView { now: later(head.now, head.timers[0].0), ..head },
                    target,
                    (usize::MAX - rounds - 1) as nat,
                )
            } else {
                false
            }));
            if rounds == usize::MAX {
                break ;
            }
            match self.store.work() {
                Step::Idle => {
                    if !self.store.jump(target) {
                        break ;
                    }
                },
                _ => {},
            }
            rounds = rounds + 1;
        }
        self.store.settle_clock(target);
    }
}

} // verus!
