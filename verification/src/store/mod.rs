//! The store: the owner of one state value and the loop that reduces it.
//!
//! A [`Store`] runs on one thread and never blocks. Actions reach it through its
//! channel; each is reduced, and whatever the reducer asks to have reduced next is
//! reduced before the store looks at its channel again. Streams and timers that a
//! reducer asked for send their actions through the same channel, when the store
//! has nothing else to do.

use std::collections::VecDeque;
use vstd::prelude::*;

use crate::effects::scheduler::{chronological, scheduled, Queue};
use crate::effects::task::Delays;
use crate::effects::{clones_exactly, Effect, EffectView, Effects, EffectsView};
use crate::reducer::Reducer;
use crate::store::channel::{
    barriers, channel, leading_barriers, lemma_leading_barriers, lemma_payload_concat,
    lemma_payload_first, lemma_payload_of_barriers, payload, Msg, Poll, Receiver, Sender, Shared,
};
use crate::store::testing::clock::target_of;
use crate::time::Duration;
use crate::time::Instant;

pub mod channel;
pub mod progress;
pub mod testing;

pub use testing::{TestClock, TestStore};

verus! {

/// A stream that a reducer asked for and that has not run yet.
pub struct Stream<A> {
    pub task: u64,
    pub items: Vec<A>,
}

/// A send that a reducer scheduled: the action, and the instants that follow the
/// one it is queued for.
pub struct Timer<A> {
    pub task: u64,
    pub action: A,
    pub delays: Delays,
}

/// A store as a mathematical value.
pub struct StoreView<R: Reducer> {
    /// The reducer's state.
    pub state: R,
    /// What the channel holds, in the order in which the store will receive it.
    pub inbox: Seq<Msg<R::Action, u64>>,
    /// The actions that reducers asked for and that are still to be reduced.
    pub buffer: Seq<R::Action>,
    /// The store's time.
    pub now: Instant,
    /// The number for the next task.
    pub next_task: u64,
    /// The streams that are still to run: the task and its actions.
    pub streams: Seq<(u64, Seq<R::Action>)>,
    /// The scheduled sends, in firing order.
    pub timers: Seq<(Instant, Timer<R::Action>)>,
    /// The tasks that were cancelled.
    pub cancelled: Seq<u64>,
    /// The number for the next barrier.
    pub tickets: u64,
    /// Every action that was reduced, in order.
    pub observed: Seq<R::Action>,
}

impl<R: Reducer> StoreView<R> {
    /// The handle that the reducer gets for its next action.
    pub open spec fn handle(self) -> EffectsView<R::Action> {
        EffectsView { now: self.now, next: self.next_task, log: Seq::empty() }
    }

    /// The store after carrying out one request of a reducer.
    pub open spec fn apply(self, effect: EffectView<R::Action>) -> StoreView<R> {
        match effect {
            EffectView::Action(action) => StoreView { buffer: self.buffer.push(action), ..self },
            EffectView::Stream { task, items } => StoreView {
                streams: self.streams.push((task, items)),
                ..self
            },
            EffectView::Schedule { task, action, delays } => match delays.first() {
                Some(instant) => StoreView {
                    timers: scheduled(
                        self.timers,
                        (instant, Timer { task, action, delays: delays.rest() }),
                    ),
                    ..self
                },
                None => self,
            },
            EffectView::Cancel { task } => StoreView {
                cancelled: self.cancelled.push(task),
                ..self
            },
        }
    }

    /// The store after carrying out the requests of `log`, in order.
    pub open spec fn interpret(self, log: Seq<EffectView<R::Action>>) -> StoreView<R>
        decreases log.len(),
    {
        if log.len() == 0 {
            self
        } else {
            self.apply(log[0]).interpret(log.drop_first())
        }
    }

    /// The store after carrying out one request that was made from outside of a
    /// reduction. An action that is asked for from outside goes through the channel,
    /// like any action that is sent to the store; everything else is carried out as
    /// if a reducer had asked for it.
    pub open spec fn accept(self, effect: EffectView<R::Action>) -> StoreView<R> {
        match effect {
            EffectView::Action(action) => StoreView {
                inbox: self.inbox.push(Msg::Value(action)),
                ..self
            },
            _ => self.apply(effect),
        }
    }

    /// The store after carrying out the requests of `log`, in order, that were made
    /// from outside of a reduction.
    pub open spec fn accept_all(self, log: Seq<EffectView<R::Action>>) -> StoreView<R>
        decreases log.len(),
    {
        if log.len() == 0 {
            self
        } else {
            self.accept(log[0]).accept_all(log.drop_first())
        }
    }

    /// The store after reducing `action`: the reducer has changed the state, and
    /// the store has carried out what the reducer asked for.
    pub open spec fn reduce(self, action: R::Action) -> StoreView<R> {
        let (state, effects) = self.state.reduced(action, self.handle());
        (StoreView {
            state,
            next_task: effects.next,
            observed: self.observed.push(action),
            ..self
        }).interpret(effects.log)
    }

    /// The work that is due while the store has nothing to reduce.
    pub open spec fn work_kind(self) -> Step {
        if self.streams.len() > 0 {
            Step::Ran
        } else if self.timers.len() > 0 && self.timers[0].0.nanos <= self.now.nanos {
            Step::Fired
        } else {
            Step::Idle
        }
    }

    /// What the store's next step is.
    pub open spec fn kind(self) -> Step {
        if self.buffer.len() > 0 || leading_barriers(self.inbox) < self.inbox.len() {
            Step::Reduced
        } else {
            self.work_kind()
        }
    }

    /// The actions that wait to be reduced, in the order in which the store gets
    /// to them: those that reducers asked for, then those in the channel.
    pub open spec fn queued(self) -> Seq<R::Action> {
        self.buffer + crate::store::channel::payload(self.inbox)
    }

    /// The store after the action that it gets to next was taken out of it.
    pub open spec fn dequeued(self) -> StoreView<R> {
        if self.buffer.len() > 0 {
            StoreView { buffer: self.buffer.drop_first(), ..self }
        } else if leading_barriers(self.inbox) < self.inbox.len() {
            StoreView { inbox: self.inbox.skip(leading_barriers(self.inbox) as int + 1), ..self }
        } else {
            StoreView { inbox: Seq::empty(), ..self }
        }
    }

    /// The action that the store gets to next, if one waits.
    pub open spec fn next_queued(self) -> Option<R::Action> {
        if self.buffer.len() > 0 {
            Some(self.buffer[0])
        } else if leading_barriers(self.inbox) < self.inbox.len() {
            Some(self.inbox[leading_barriers(self.inbox) as int]->Value_0)
        } else {
            None
        }
    }

    /// The barriers that the store's next step passes: those at the head of the
    /// channel, and none while the buffer holds an action.
    pub open spec fn passed(self) -> Seq<u64> {
        if self.buffer.len() > 0 {
            Seq::empty()
        } else {
            barriers(self.inbox.take(leading_barriers(self.inbox) as int))
        }
    }

    /// Whether the store's next step sends the action of a timer that has more
    /// instants to come, and so has to clone the action.
    pub open spec fn rearms(self) -> bool {
        &&& self.work_kind() is Fired
        &&& !self.cancelled.contains(self.timers[0].1.task)
        &&& self.timers[0].1.delays.first() is Some
    }

    /// Whether the store's next step clones an action. The one step that does is
    /// the firing of a timer that has more instants to come.
    pub open spec fn step_clones(self) -> bool {
        self.kind() is Fired && self.rearms()
    }

    /// Whether one of the steps of a run of `budget` steps clones an action.
    pub open spec fn run_clones(self, budget: nat) -> bool
        decreases budget,
    {
        if budget == 0 {
            false
        } else if self.step_clones() {
            true
        } else if self.kind() is Idle {
            false
        } else {
            self.step().run_clones((budget - 1) as nat)
        }
    }

    /// Whether one of the steps of a run until the barrier `ticket` is passed
    /// clones an action.
    pub open spec fn run_until_clones(self, ticket: u64, budget: nat) -> bool
        decreases budget,
    {
        if budget == 0 {
            false
        } else if self.step_clones() {
            true
        } else if self.passed().contains(ticket) {
            false
        } else {
            self.step().run_until_clones(ticket, (budget - 1) as nat)
        }
    }

    /// Whether an action is cloned while the clock is moved on to `target`.
    pub open spec fn advance_clones(self, target: Instant, budget: nat) -> bool
        decreases budget,
    {
        if self.run_clones(usize::MAX as nat) {
            true
        } else {
            let store = self.run(usize::MAX as nat).0;
            budget > 0 && store.timers.len() > 0 && store.timers[0].0.nanos <= target.nanos && (
            StoreView { now: later(store.now, store.timers[0].0), ..store }).advance_clones(
                target,
                (budget - 1) as nat,
            )
        }
    }

    /// The store after it has done the work that is due while it has nothing to
    /// reduce: the stream that has waited longest runs, and sends its actions
    /// through the channel; or, where no stream waits, the timer that is due
    /// first fires, sends its action through the channel and is queued for its
    /// next instant. A cancelled task sends nothing.
    pub open spec fn work(self) -> StoreView<R> {
        if self.streams.len() > 0 {
            let (task, items) = self.streams[0];
            let rest = StoreView { streams: self.streams.drop_first(), ..self };
            if self.cancelled.contains(task) {
                rest
            } else {
                StoreView { inbox: rest.inbox + values_of(items), ..rest }
            }
        } else if self.timers.len() > 0 && self.timers[0].0.nanos <= self.now.nanos {
            let timer = self.timers[0].1;
            let rest = StoreView { timers: self.timers.drop_first(), ..self };
            if self.cancelled.contains(timer.task) {
                rest
            } else {
                let sent = StoreView { inbox: rest.inbox.push(Msg::Value(timer.action)), ..rest };
                match timer.delays.first() {
                    Some(next) => StoreView {
                        timers: scheduled(
                            sent.timers,
                            (
                                next,
                                Timer {
                                    task: timer.task,
                                    action: timer.action,
                                    delays: timer.delays.rest(),
                                },
                            ),
                        ),
                        ..sent
                    },
                    None => sent,
                }
            }
        } else {
            self
        }
    }

    /// The store after its next step.
    ///
    /// While the buffer holds actions, the step reduces the oldest of them. Only
    /// when the buffer is empty does the store turn to its channel: it passes the
    /// barriers at its head and reduces the value behind them. Where the channel
    /// holds no value, the store does the work that is due.
    pub open spec fn step(self) -> StoreView<R> {
        match self.next_queued() {
            Some(action) => self.dequeued().reduce(action),
            None => self.dequeued().work(),
        }
    }

    /// The store after `n` steps.
    pub open spec fn steps(self, n: nat) -> StoreView<R>
        decreases n,
    {
        if n == 0 {
            self
        } else {
            self.step().steps((n - 1) as nat)
        }
    }

    /// The store after it has run until a step found it idle, or for `budget`
    /// steps, and the number of steps that it made.
    pub open spec fn run(self, budget: nat) -> (StoreView<R>, nat)
        decreases budget,
    {
        if budget == 0 {
            (self, 0)
        } else if self.kind() is Idle {
            (self.step(), 1)
        } else {
            let (store, steps) = self.step().run((budget - 1) as nat);
            (store, steps + 1)
        }
    }

    /// The store after it has run until a step passed the barrier `ticket`, or for
    /// `budget` steps, with the number of steps that it made, and whether the
    /// barrier was passed.
    pub open spec fn run_until(self, ticket: u64, budget: nat) -> (StoreView<R>, nat, bool)
        decreases budget,
    {
        if budget == 0 {
            (self, 0, false)
        } else if self.passed().contains(ticket) {
            (self.step(), 1, true)
        } else {
            let (store, steps, passed) = self.step().run_until(ticket, (budget - 1) as nat);
            (store, steps + 1, passed)
        }
    }

    /// The store after `action` was sent to it with a barrier behind it.
    pub open spec fn sync_sent(self, action: R::Action) -> StoreView<R> {
        StoreView {
            inbox: self.inbox.push(Msg::Value(action)).push(Msg::Barrier(self.tickets)),
            tickets: if self.tickets < u64::MAX {
                (self.tickets + 1) as u64
            } else {
                self.tickets
            },
            ..self
        }
    }

    /// The store after its clock was moved on to `target`, at most `budget` timers'
    /// instants on the way. Before the clock moves, the store runs until it is
    /// idle. Then the clock jumps to the instant of the next timer, if that is no
    /// later than `target`, and the store runs again; and so on, until no timer is
    /// left before `target`.
    pub open spec fn advance(self, target: Instant, budget: nat) -> StoreView<R>
        decreases budget,
    {
        let store = self.run(usize::MAX as nat).0;
        if budget > 0 && store.timers.len() > 0 && store.timers[0].0.nanos <= target.nanos {
            (StoreView { now: later(store.now, store.timers[0].0), ..store }).advance(
                target,
                (budget - 1) as nat,
            )
        } else {
            StoreView { now: later(store.now, target), ..store }
        }
    }

    /// The actions that the reducer asks to have reduced next when it reduces
    /// `action` in this store.
    pub open spec fn follow_ups(self, action: R::Action) -> Seq<R::Action> {
        self.reduce(action).buffer.skip(self.buffer.len() as int)
    }
}

/// What a step of the store did.
#[derive(Clone, Copy, Debug, PartialEq, Eq, Structural)]
pub enum Step {
    /// An action was reduced.
    Reduced,
    /// A stream ran: its actions are in the channel.
    Ran,
    /// A timer fired: its action is in the channel.
    Fired,
    /// There was nothing to do.
    Idle,
}

/// What a step of the store did, and the barriers that it passed on the way.
pub struct Turn {
    pub step: Step,
    pub passed: Vec<u64>,
}

/// The later of two instants.
pub open spec fn later(a: Instant, b: Instant) -> Instant {
    if a.nanos >= b.nanos {
        a
    } else {
        b
    }
}

/// The actions as messages for the channel.
pub open spec fn values_of<A>(items: Seq<A>) -> Seq<Msg<A, u64>> {
    Seq::new(items.len(), |i: int| Msg::Value(items[i]))
}

/// The actions among the requests of `log`, in order.
pub open spec fn actions_of<A>(log: Seq<EffectView<A>>) -> Seq<A>
    decreases log.len(),
{
    if log.len() == 0 {
        Seq::empty()
    } else {
        match log[0] {
            EffectView::Action(action) => seq![action] + actions_of(log.drop_first()),
            _ => actions_of(log.drop_first()),
        }
    }
}

/// Carrying out requests changes neither the state nor the channel nor what was
/// reduced, keeps the timers in firing order, and adds to the buffer the actions
/// that were asked for, behind what it holds.
pub proof fn lemma_interpret<R: Reducer>(store: StoreView<R>, log: Seq<EffectView<R::Action>>)
    requires
        chronological(store.timers),
    ensures
        chronological(store.interpret(log).timers),
        store.interpret(log).state == store.state,
        store.interpret(log).inbox == store.inbox,
        store.interpret(log).now == store.now,
        store.interpret(log).next_task == store.next_task,
        store.interpret(log).tickets == store.tickets,
        store.interpret(log).observed == store.observed,
        store.interpret(log).buffer == store.buffer + actions_of(log),
    decreases log.len(),
{
    if log.len() == 0 {
        assert(store.buffer + actions_of(log) =~= store.buffer);
    } else {
        let next = store.apply(log[0]);
        match log[0] {
            EffectView::Schedule { task, action, delays } => {
                if let Some(instant) = delays.first() {
                    crate::effects::scheduler::lemma_scheduled(
                        store.timers,
                        (instant, Timer { task, action, delays: delays.rest() }),
                    );
                }
            },
            _ => {},
        }
        lemma_interpret(next, log.drop_first());
        assert(next.buffer + actions_of(log.drop_first()) =~= store.buffer + actions_of(log));
    }
}

/// The owner of a reducer's state and of all that is in flight for it.
pub struct Store<R: Reducer> {
    state: R,
    sender: Sender<R::Action>,
    receiver: Receiver<R::Action, u64>,
    shared: Shared<R::Action, u64, ()>,
    buffer: VecDeque<R::Action>,
    now: Instant,
    next_task: u64,
    streams: VecDeque<Stream<R::Action>>,
    timers: Queue<Timer<R::Action>>,
    cancelled: Vec<u64>,
    tickets: u64,
    observed: Ghost<Seq<R::Action>>,
}

impl<R: Reducer> View for Store<R> {
    type V = StoreView<R>;

    closed spec fn view(&self) -> StoreView<R> {
        StoreView {
            state: self.state,
            inbox: self.receiver.buffer() + self.shared.queue(),
            buffer: self.buffer@,
            now: self.now,
            next_task: self.next_task,
            streams: Seq::new(
                self.streams@.len(),
                |i: int| (self.streams@[i].task, self.streams@[i].items@),
            ),
            timers: self.timers@,
            cancelled: self.cancelled@,
            tickets: self.tickets,
            observed: self.observed@,
        }
    }
}

impl<R: Reducer> Store<R> {
    /// The store holds together: the timers are in firing order, and the channel
    /// has the store's sender and receiver and nobody else's.
    pub closed spec fn wf(&self) -> bool {
        &&& self.shared.wf()
        &&& self.shared.strong() == 2
        &&& self.timers.wf()
    }

    /// What follows from `wf` for the view.
    pub proof fn lemma_wf(&self)
        requires
            self.wf(),
        ensures
            chronological(self@.timers),
    {
    }

    /// Creates a new store with `state` as its initial state, at the origin of its
    /// clock.
    pub fn with_initial(state: R) -> (store: Store<R>)
        ensures
            store.wf(),
            store@ == (StoreView {
                state,
                inbox: Seq::empty(),
                buffer: Seq::empty(),
                now: Instant { nanos: 0 },
                next_task: 0,
                streams: Seq::empty(),
                timers: Seq::empty(),
                cancelled: Seq::empty(),
                tickets: 0,
                observed: Seq::empty(),
            }),
    {
        let (sender, weak, mut shared) = channel::<R::Action, u64, ()>();
        let receiver = match weak.upgrade(&mut shared) {
            Some(receiver) => receiver,
            None => vstd::pervasive::unreached(),
        };
        let store = Store {
            state,
            sender,
            receiver,
            shared,
            buffer: VecDeque::new(),
            now: Instant::origin(),
            next_task: 0,
            streams: VecDeque::new(),
            timers: Queue::new(),
            cancelled: Vec::new(),
            tickets: 0,
            observed: Ghost(Seq::empty()),
        };
        assert(store@.inbox =~= Seq::empty());
        assert(store@.streams =~= Seq::empty());
        store
    }

    /// Creates a new store whose initial state is what `with` makes.
    pub fn new<F: FnOnce() -> R>(with: F) -> (store: Store<R>)
        requires
            with.requires(()),
        ensures
            store.wf(),
            with.ensures((), store@.state),
            store@ == (StoreView {
                state: store@.state,
                inbox: Seq::empty(),
                buffer: Seq::empty(),
                now: Instant { nanos: 0 },
                next_task: 0,
                streams: Seq::empty(),
                timers: Seq::empty(),
                cancelled: Seq::empty(),
                tickets: 0,
                observed: Seq::empty(),
            }),
    {
        Store::with_initial(with())
    }

    /// The reducer's state.
    pub fn state(&self) -> (state: &R)
        ensures
            *state == self@.state,
    {
        &self.state
    }

    /// The store's time.
    pub fn now(&self) -> (now: Instant)
        ensures
            now == self@.now,
    {
        self.now
    }

    /// The instant of the timer that fires next, if any is scheduled.
    pub fn next_timer(&self) -> (next: Option<Instant>)
        ensures
            next == (if self@.timers.len() == 0 {
                None::<Instant>
            } else {
                Some(self@.timers[0].0)
            }),
    {
        self.timers.peek_next()
    }

    /// The reducer's state, out of the store.
    pub(crate) fn into_state(self) -> (state: R)
        ensures
            state == self@.state,
    {
        self.state
    }

    /// Moves the clock on to the instant of the next timer, if that is no later
    /// than `target`. Returns whether there is such a timer.
    pub(crate) fn jump(&mut self, target: Instant) -> (jumped: bool)
        requires
            old(self).wf(),
        ensures
            final(self).wf(),
            jumped == (old(self)@.timers.len() > 0 && old(self)@.timers[0].0.nanos
                <= target.nanos),
            final(self)@ == (if jumped {
                StoreView { now: later(old(self)@.now, old(self)@.timers[0].0), ..old(self)@ }
            } else {
                old(self)@
            }),
    {
        match self.timers.peek_next() {
            Some(instant) => {
                if instant.nanos <= target.nanos {
                    if instant.nanos > self.now.nanos {
                        self.now = instant;
                    }
                    true
                } else {
                    false
                }
            },
            None => false,
        }
    }

    /// Moves the clock on to `target`, if it is not there or beyond.
    pub(crate) fn settle_clock(&mut self, target: Instant)
        requires
            old(self).wf(),
        ensures
            final(self).wf(),
            final(self)@ == (StoreView { now: later(old(self)@.now, target), ..old(self)@ }),
    {
        if target.nanos > self.now.nanos {
            self.now = target;
        }
    }

    /// Sends `action` to the store. It is reduced when the store gets to it, after
    /// the actions that were sent before it.
    pub fn send(&mut self, action: R::Action)
        requires
            old(self).wf(),
        ensures
            final(self).wf(),
            final(self)@ == (StoreView {
                inbox: old(self)@.inbox.push(Msg::Value(action)),
                ..old(self)@
            }),
    {
        let _ = self.sender.send(&mut self.shared, action);
        assert(self@.inbox =~= old(self)@.inbox.push(Msg::Value(action)));
    }

    /// A handle to ask the store for effects from outside of a reduction. What is
    /// asked of it takes effect when it is handed to [`Store::submit`].
    pub fn effects(&self) -> (effects: Effects<R::Action>)
        ensures
            effects@ == self@.handle(),
    {
        Effects::new(self.now, self.next_task)
    }

    /// Carries out what was asked of `effects` from outside of a reduction, in
    /// order. Actions go through the channel, behind those that were sent before.
    pub fn submit(&mut self, effects: Effects<R::Action>)
        requires
            old(self).wf(),
        ensures
            final(self).wf(),
            final(self)@ == (StoreView {
                next_task: if effects@.next > old(self)@.next_task {
                    effects@.next
                } else {
                    old(self)@.next_task
                },
                ..old(self)@
            }).accept_all(effects@.log),
    {
        let ghost wanted = (StoreView {
            next_task: if effects@.next > old(self)@.next_task {
                effects@.next
            } else {
                old(self)@.next_task
            },
            ..old(self)@
        }).accept_all(effects@.log);
        let ghost asked = effects@.log;
        if effects.next_task() > self.next_task {
            self.next_task = effects.next_task();
        }
        let mut log = effects.into_log();
        assert(Seq::new(log@.len(), |i: int| log@[i]@) =~= asked);
        while log.len() > 0
            invariant
                self.wf(),
                self@.accept_all(Seq::new(log@.len(), |i: int| log@[i]@)) == wanted,
            decreases log.len(),
        {
            let ghost rest = Seq::new(log@.len(), |i: int| log@[i]@);
            let ghost before = self@;
            match log.pop_front() {
                Some(effect) => {
                    assert(effect@ == rest[0]);
                    assert(Seq::new(log@.len(), |i: int| log@[i]@) =~= rest.drop_first());
                    match effect {
                        Effect::Action(action) => {
                            let _ = self.sender.send(&mut self.shared, action);
                            assert(self@.inbox =~= before.inbox.push(Msg::Value(action)));
                        },
                        Effect::Stream { task, items } => {
                            self.streams.push_back(Stream { task, items });
                            assert(self@.streams =~= before.streams.push((task, items@)));
                        },
                        Effect::Schedule { task, action, delays } => {
                            let mut delays = delays;
                            match delays.next() {
                                Some(instant) => {
                                    self.timers.insert(instant, Timer { task, action, delays });
                                },
                                None => {},
                            }
                        },
                        Effect::Cancel { task } => {
                            self.cancelled.push(task);
                        },
                    }
                    assert(self@ == before.accept(rest[0]));
                },
                None => {},
            }
        }
    }

    /// Carries out what a reducer asked of `effects`.
    fn absorb(&mut self, effects: Effects<R::Action>)
        requires
            old(self).wf(),
        ensures
            final(self).wf(),
            final(self)@ == (StoreView { next_task: effects@.next, ..old(self)@ }).interpret(
                effects@.log,
            ),
    {
        let ghost wanted = (StoreView { next_task: effects@.next, ..old(self)@ }).interpret(
            effects@.log,
        );
        let ghost asked = effects@.log;
        self.next_task = effects.next_task();
        let mut log = effects.into_log();
        assert(Seq::new(log@.len(), |i: int| log@[i]@) =~= asked);
        while log.len() > 0
            invariant
                self.wf(),
                self@.interpret(Seq::new(log@.len(), |i: int| log@[i]@)) == wanted,
            decreases log.len(),
        {
            let ghost rest = Seq::new(log@.len(), |i: int| log@[i]@);
            let ghost before = self@;
            match log.pop_front() {
                Some(effect) => {
                    assert(effect@ == rest[0]);
                    assert(Seq::new(log@.len(), |i: int| log@[i]@) =~= rest.drop_first());
                    match effect {
                        Effect::Action(action) => {
                            self.buffer.push_back(action);
                        },
                        Effect::Stream { task, items } => {
                            self.streams.push_back(Stream { task, items });
                            assert(self@.streams =~= before.streams.push((task, items@)));
                        },
                        Effect::Schedule { task, action, delays } => {
                            let mut delays = delays;
                            match delays.next() {
                                Some(instant) => {
                                    self.timers.insert(instant, Timer { task, action, delays });
                                },
                                None => {},
                            }
                        },
                        Effect::Cancel { task } => {
                            self.cancelled.push(task);
                        },
                    }
                    assert(self@ == before.apply(rest[0]));
                },
                None => {},
            }
        }
    }

    /// Reduces `action`, and carries out what the reducer asked for.
    pub(crate) fn reduce(&mut self, action: R::Action)
        requires
            old(self).wf(),
        ensures
            final(self).wf(),
            final(self)@ == old(self)@.reduce(action),
            final(self)@.now == old(self)@.now,
    {
        let mut effects = Effects::new(self.now, self.next_task);
        self.state.reduce(action, &mut effects);
        proof {
            self.observed@ = self.observed@.push(action);
            let reduced = old(self).state.reduced(action, old(self)@.handle());
            lemma_interpret(
                StoreView {
                    state: reduced.0,
                    next_task: reduced.1.next,
                    observed: old(self)@.observed.push(action),
                    ..old(self)@
                },
                reduced.1.log,
            );
        }
        self.absorb(effects);
    }

    /// Takes out the action that the store gets to next, if one waits, and passes
    /// the barriers that stand before it in the channel.
    pub(crate) fn next_queued(&mut self) -> (next: (Vec<u64>, Option<R::Action>))
        requires
            old(self).wf(),
        ensures
            final(self).wf(),
            next.0@ == old(self)@.passed(),
            next.1 == old(self)@.next_queued(),
            final(self)@ == old(self)@.dequeued(),
    {
        let ghost before = self@;
        match self.buffer.pop_front() {
            Some(action) => {
                assert(self@.buffer =~= before.buffer.drop_first());
                return (Vec::new(), Some(action));
            },
            None => {},
        }
        let (passed, poll) = self.receiver.poll_next(&mut self.shared, ());
        match poll {
            Poll::Ready(next) => (passed, next),
            Poll::Pending => (passed, None),
        }
    }
}

impl<R: Reducer> Store<R> where R::Action: Clone {
    /// Whether `task` was cancelled.
    fn is_cancelled(&self, task: u64) -> (cancelled: bool)
        ensures
            cancelled == self@.cancelled.contains(task),
    {
        let mut i: usize = 0;
        while i < self.cancelled.len()
            invariant
                i <= self.cancelled@.len(),
                forall|j: int| 0 <= j < i ==> self.cancelled@[j] != task,
            decreases self.cancelled.len() - i,
        {
            if self.cancelled[i] == task {
                return true;
            }
            i = i + 1;
        }
        false
    }

    /// Sends `items` through the channel, in order.
    fn forward(&mut self, items: Vec<R::Action>)
        requires
            old(self).wf(),
        ensures
            final(self).wf(),
            final(self)@ == (StoreView {
                inbox: old(self)@.inbox + values_of(items@),
                ..old(self)@
            }),
    {
        let ghost all = items@;
        let ghost before = self@;
        let mut rest = crate::effects::reversed(items);
        assert(before.inbox + values_of(all.take(0)) =~= before.inbox);
        while rest.len() > 0
            invariant
                self.wf(),
                rest@.len() <= all.len(),
                forall|i: int| 0 <= i < rest@.len() ==> #[trigger] rest@[i] == all[all.len() - 1 - i],
                self@ == (StoreView {
                    inbox: before.inbox + values_of(all.take(all.len() - rest@.len())),
                    ..before
                }),
            decreases rest.len(),
        {
            let ghost done = all.len() - rest@.len();
            let ghost so_far = self@.inbox;
            match rest.pop() {
                Some(item) => {
                    assert(item == all[done]);
                    let _ = self.sender.send(&mut self.shared, item);
                    assert(self@.inbox =~= so_far.push(Msg::Value(item)));
                    assert(all.take(done + 1) =~= all.take(done).push(item));
                    assert(values_of(all.take(done + 1)) =~= values_of(all.take(done)).push(
                        Msg::Value(item),
                    ));
                    assert(self@.inbox =~= before.inbox + values_of(all.take(done + 1)));
                },
                None => {},
            }
        }
        assert(all.take(all.len() as int) =~= all);
    }

    /// Does the work that is due while the store has nothing to reduce.
    pub(crate) fn work(&mut self) -> (step: Step)
        requires
            old(self).wf(),
        ensures
            final(self).wf(),
            step == old(self)@.work_kind(),
            clones_exactly::<R::Action>() || !old(self)@.rearms() ==> final(self)@ == old(
                self,
            )@.work(),
            final(self)@.now == old(self)@.now,
            final(self)@.state == old(self)@.state,
            final(self)@.buffer == old(self)@.buffer,
            final(self)@.observed == old(self)@.observed,
    {
        let ghost before = self@;
        match self.streams.pop_front() {
            Some(stream) => {
                let ghost rest = StoreView { streams: before.streams.drop_first(), ..before };
                assert(self@.streams =~= rest.streams);
                assert(before.streams[0] == (stream.task, stream.items@));
                if !self.is_cancelled(stream.task) {
                    self.forward(stream.items);
                }
                return Step::Ran;
            },
            None => {
                assert(self@.streams =~= before.streams);
            },
        }
        match self.timers.peek_next() {
            Some(instant) => {
                if instant.nanos <= self.now.nanos {
                    match self.timers.pop_next() {
                        Some((_, timer)) => {
                            if !self.is_cancelled(timer.task) {
                                let Timer { task, action, delays } = timer;
                                let mut delays = delays;
                                let ghost inbox = self@.inbox;
                                match delays.next() {
                                    Some(next) => {
                                        let again = action.clone();
                                        assert(vstd::pervasive::cloned(action, again));
                                        let _ = self.sender.send(&mut self.shared, again);
                                        assert(self@.inbox =~= inbox.push(Msg::Value(again)));
                                        self.timers.insert(next, Timer { task, action, delays });
                                    },
                                    None => {
                                        let _ = self.sender.send(&mut self.shared, action);
                                        assert(self@.inbox =~= inbox.push(Msg::Value(action)));
                                    },
                                }
                            }
                            Step::Fired
                        },
                        None => Step::Fired,
                    }
                } else {
                    Step::Idle
                }
            },
            None => Step::Idle,
        }
    }

    /// One step of the store.
    ///
    /// The step reduces one action, if one is there to be reduced: the oldest that
    /// a reducer asked for, or, when there is none of those, the next from the
    /// channel. Otherwise the step does the work that is due: it runs a stream or
    /// fires a timer, whose actions are then in the channel for the next steps.
    pub fn step(&mut self) -> (turn: Turn)
        requires
            old(self).wf(),
        ensures
            final(self).wf(),
            turn.step == old(self)@.kind(),
            turn.passed@ == old(self)@.passed(),
            clones_exactly::<R::Action>() || !old(self)@.step_clones() ==> final(self)@ == old(
                self,
            )@.step(),
            final(self)@.now == old(self)@.now,
    {
        let (passed, next) = self.next_queued();
        match next {
            Some(action) => {
                self.reduce(action);
                Turn { step: Step::Reduced, passed }
            },
            None => {
                let step = self.work();
                Turn { step, passed }
            },
        }
    }

    /// Runs the store until a step finds it idle, but for no more than `budget`
    /// steps. Returns the number of steps made.
    ///
    /// What the run comes to is known for every run that clones no action, and
    /// for every run where a clone of an action is known to be the action.
    pub fn run(&mut self, budget: usize) -> (steps: usize)
        requires
            old(self).wf(),
        ensures
            final(self).wf(),
            steps <= budget,
            clones_exactly::<R::Action>() || !old(self)@.run_clones(budget as nat) ==> (
                final(self)@,
                steps as nat,
            ) == old(self)@.run(budget as nat),
            final(self)@.now == old(self)@.now,
    {
        let ghost before = self@;
        let mut steps: usize = 0;
        while steps < budget
            invariant
                self.wf(),
                steps <= budget,
                before == old(self)@,
                self@.now == before.now,
                clones_exactly::<R::Action>() || !before.run_clones(budget as nat) ==> {
                    &&& before.run(budget as nat) == ({
                        let (store, more) = self@.run((budget - steps) as nat);
                        (store, (more + steps) as nat)
                    })
                    &&& clones_exactly::<R::Action>() || !self@.run_clones((budget - steps) as nat)
                },
            decreases budget - steps,
        {
            let ghost head = self@;
            assert(head.run_clones((budget - steps) as nat) == (if head.step_clones() {
                true
            } else if head.kind() is Idle {
                false
            } else {
                head.step().run_clones((budget - steps - 1) as nat)
            }));
            assert(head.run((budget - steps) as nat) == (if head.kind() is Idle {
                (head.step(), 1nat)
            } else {
                let (store, more) = head.step().run((budget - steps - 1) as nat);
                (store, more + 1)
            }));
            let turn = self.step();
            steps = steps + 1;
            match turn.step {
                Step::Idle => {
                    return steps;
                },
                _ => {},
            }
        }
        steps
    }

    /// Whether `ticket` is among `passed`.
    fn holds(passed: &Vec<u64>, ticket: u64) -> (found: bool)
        ensures
            found == passed@.contains(ticket),
    {
        let mut i: usize = 0;
        while i < passed.len()
            invariant
                i <= passed@.len(),
                forall|j: int| 0 <= j < i ==> passed@[j] != ticket,
            decreases passed.len() - i,
        {
            if passed[i] == ticket {
                return true;
            }
            i = i + 1;
        }
        false
    }

    /// Sends `action` to the store and runs the store until the action has been
    /// processed: until it and everything that was asked to be reduced on its
    /// account have been reduced. Returns the number of steps that took, or
    /// `None` if the store has not got there after `usize::MAX` steps.
    ///
    /// What the run comes to is known for every run that clones no action, and
    /// for every run where a clone of an action is known to be the action.
    pub fn sync(&mut self, action: R::Action) -> (steps: Option<usize>)
        requires
            old(self).wf(),
        ensures
            final(self).wf(),
            clones_exactly::<R::Action>() || !old(self)@.sync_sent(action).run_until_clones(
                old(self)@.tickets,
                usize::MAX as nat,
            ) ==> ({
                let (store, count, passed) = old(self)@.sync_sent(action).run_until(
                    old(self)@.tickets,
                    usize::MAX as nat,
                );
                &&& final(self)@ == store
                &&& count <= usize::MAX
                &&& steps == (if passed {
                    Some(count as usize)
                } else {
                    None::<usize>
                })
            }),
    {
        let ticket = self.tickets;
        if self.tickets < u64::MAX {
            self.tickets = self.tickets + 1;
        }
        let _ = self.sender.sync(&mut self.shared, action, ticket);
        assert(self@.inbox =~= old(self)@.sync_sent(action).inbox);
        let ghost before = self@;
        proof {
            lemma_run_until_bound(before, ticket, usize::MAX as nat);
        }
        let mut steps: usize = 0;
        while steps < usize::MAX
            invariant
                self.wf(),
                before == old(self)@.sync_sent(action),
                ticket == old(self)@.tickets,
                before.run_until(ticket, usize::MAX as nat).1 <= usize::MAX,
                clones_exactly::<R::Action>() || !before.run_until_clones(
                    ticket,
                    usize::MAX as nat,
                ) ==> {
                    &&& before.run_until(ticket, usize::MAX as nat) == ({
                        let (store, more, passed) = self@.run_until(
                            ticket,
                            (usize::MAX - steps) as nat,
                        );
                        (store, (more + steps) as nat, passed)
                    })
                    &&& clones_exactly::<R::Action>() || !self@.run_until_clones(
                        ticket,
                        (usize::MAX - steps) as nat,
                    )
                },
            decreases usize::MAX - steps,
        {
            let ghost head = self@;
            assert(head.run_until_clones(ticket, (usize::MAX - steps) as nat) == (
            if head.step_clones() {
                true
            } else if head.passed().contains(ticket) {
                false
            } else {
                head.step().run_until_clones(ticket, (usize::MAX - steps - 1) as nat)
            }));
            assert(head.run_until(ticket, (usize::MAX - steps) as nat) == (if head.passed().contains(
                ticket,
            ) {
                (head.step(), 1nat, true)
            } else {
                let (store, more, passed) = head.step().run_until(
                    ticket,
                    (usize::MAX - steps - 1) as nat,
                );
                (store, more + 1, passed)
            }));
            let turn = self.step();
            steps = steps + 1;
            if Self::holds(&turn.passed, ticket) {
                return Some(steps);
            }
        }
        None
    }

    /// Shuts the store down: runs it until it is idle, and gives back what its
    /// state comes to.
    pub fn into_inner(self) -> (output: R::Output) where R::Output: From<R>
        requires
            self.wf(),
        ensures
            (clones_exactly::<R::Action>() || !self@.run_clones(usize::MAX as nat))
                && crate::reducer::wraps::<R::Output, R>() ==> output == <R::Output as vstd::std_specs::convert::FromSpec<
                R,
            >>::from_spec(self@.run(usize::MAX as nat).0.state),
    {
        let mut store = self;
        let _ = store.run(usize::MAX);
        R::Output::from(store.state)
    }

}

impl<R: Reducer> TestClock for Store<R> where R::Action: Clone {
    open spec fn ticking(&self) -> bool {
        self.wf()
    }

    open spec fn time(&self) -> Instant {
        self@.now
    }

    /// Moves the clock on by `duration`, but no further than the end of the
    /// timeline. On the way every timer fires at its instant, earliest first, and
    /// what it sends is reduced, with all that follows from it, before the next
    /// timer fires. The clock stops on the way at no more than `usize::MAX`
    /// instants.
    fn advance(&mut self, duration: Duration)
        ensures
            clones_exactly::<R::Action>() || !old(self)@.advance_clones(
                target_of(old(self)@.now, duration),
                usize::MAX as nat,
            ) ==> final(self)@ == old(self)@.advance(
                target_of(old(self)@.now, duration),
                usize::MAX as nat,
            ),
    {
        let target = match self.now.checked_add(duration) {
            Some(target) => target,
            None => Instant::from_nanos(u64::MAX),
        };
        let ghost before = self@;
        let mut stops: usize = 0;
        loop
            invariant_except_break
                clones_exactly::<R::Action>() || !before.advance_clones(
                    target,
                    usize::MAX as nat,
                ) ==> {
                    &&& before.advance(target, usize::MAX as nat) == self@.advance(
                        target,
                        (usize::MAX - stops) as nat,
                    )
                    &&& clones_exactly::<R::Action>() || !self@.advance_clones(
                        target,
                        (usize::MAX - stops) as nat,
                    )
                },
            invariant
                self.wf(),
                before == old(self)@,
                target == target_of(before.now, duration),
                self@.now.nanos <= target.nanos,
            ensures
                clones_exactly::<R::Action>() || !before.advance_clones(
                    target,
                    usize::MAX as nat,
                ) ==> before.advance(target, usize::MAX as nat) == (StoreView {
                    now: later(self@.now, target),
                    ..self@
                }),
            decreases usize::MAX - stops,
        {
            let ghost head = self@;
            let _ = self.run(usize::MAX);
            let ghost ran = self@;
            assert(clones_exactly::<R::Action>() || !head.run_clones(usize::MAX as nat) ==> ran
                == head.run(usize::MAX as nat).0);
            let next = self.timers.peek_next();
            match next {
                Some(instant) => {
                    if stops < usize::MAX && instant.nanos <= target.nanos {
                        if instant.nanos > self.now.nanos {
                            self.now = instant;
                        }
                        stops = stops + 1;
                    } else {
                        break ;
                    }
                },
                None => {
                    break ;
                },
            }
        }
        if target.nanos > self.now.nanos {
            self.now = target;
        }
    }
}

/// The action that the store gets to next is the first of those that wait, and
/// taking it out leaves the others waiting in their order.
pub proof fn lemma_queued<R: Reducer>(store: StoreView<R>)
    ensures
        store.next_queued() is Some <==> store.queued().len() > 0,
        store.next_queued() matches Some(action) ==> store.queued() == seq![action]
            + store.dequeued().queued(),
        store.next_queued() is None ==> store.dequeued().queued() == Seq::<R::Action>::empty(),
        store.dequeued().buffer.len() + store.dequeued().inbox.len() <= store.buffer.len()
            + store.inbox.len(),
        store.next_queued() is Some ==> store.dequeued().buffer.len()
            + store.dequeued().inbox.len() < store.buffer.len() + store.inbox.len(),
{
    let inbox = store.inbox;
    let passed = leading_barriers(inbox) as int;
    lemma_leading_barriers(inbox);
    if store.buffer.len() > 0 {
        assert(store.queued() =~= seq![store.buffer[0]] + store.dequeued().queued());
    } else {
        assert(store.queued() =~= payload(inbox));
        lemma_payload_of_barriers(inbox.take(passed));
        if passed < inbox.len() {
            let tail = inbox.skip(passed);
            assert(inbox =~= inbox.take(passed) + tail);
            lemma_payload_concat(inbox.take(passed), tail);
            lemma_payload_first(tail);
            assert(tail.skip(1) =~= inbox.skip(passed + 1));
            assert(tail[0] == inbox[passed]);
            assert(payload(inbox) =~= seq![inbox[passed]->Value_0] + payload(
                inbox.skip(passed + 1),
            ));
            assert(store.dequeued().queued() =~= payload(inbox.skip(passed + 1)));
        } else {
            assert(inbox.take(passed) =~= inbox);
            assert(payload(Seq::<Msg<R::Action, u64>>::empty()) =~= Seq::<R::Action>::empty());
            assert(store.dequeued().queued() =~= Seq::<R::Action>::empty());
        }
    }
}

/// Running until a barrier is passed takes no more steps than the budget allows.
pub proof fn lemma_run_until_bound<R: Reducer>(store: StoreView<R>, ticket: u64, budget: nat)
    ensures
        store.run_until(ticket, budget).1 <= budget,
    decreases budget,
{
    if budget > 0 && !store.passed().contains(ticket) {
        lemma_run_until_bound(store.step(), ticket, (budget - 1) as nat);
    }
}

} // verus!
