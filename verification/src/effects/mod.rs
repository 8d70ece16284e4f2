//! What a reducer can ask of the runtime: follow-up actions and timed work.
//!
//! A reducer gets an [`Effects`] handle with every action. Whatever it asks for is
//! written to the handle's log, in order; the store that called the reducer carries
//! the log out once the reducer has returned. Nothing here blocks.

use std::collections::VecDeque;
use std::marker::PhantomData;
use vstd::prelude::*;

use crate::keyed::Keyed;
use crate::time::{Duration, Instant};

pub mod bursts;
pub mod delay;
pub mod scheduler;
pub mod task;

pub use task::{Delays, Task};

verus! {

/// When a scheduler uses a repeating interval, that interval can begin
/// immediately, a `Leading` interval, or it may begin after the first delay, a
/// `Trailing` interval.
#[derive(Clone, Copy, Debug, PartialEq, Eq, Structural)]
pub enum Interval {
    /// The first action should be sent immediately.
    Leading(Duration),
    /// The first action should not be sent until after the duration has passed.
    Trailing(Duration),
}

impl Interval {
    /// The length of the interval, as a specification.
    pub open spec fn spec_duration(&self) -> Duration {
        match self {
            Interval::Leading(duration) => *duration,
            Interval::Trailing(duration) => *duration,
        }
    }

    /// The length of the interval.
    #[verifier::when_used_as_spec(spec_duration)]
    pub fn duration(&self) -> (duration: Duration)
        ensures
            duration == self.spec_duration(),
    {
        match self {
            Interval::Leading(duration) => *duration,
            Interval::Trailing(duration) => *duration,
        }
    }
}

/// One request of a reducer to the runtime.
#[derive(Debug, PartialEq)]
pub enum Effect<A> {
    /// Reduce this action next, after those requested before it.
    Action(A),
    /// Send these actions through the store's channel, in order.
    Stream { task: u64, items: Vec<A> },
    /// Send this action through the store's channel at each of the instants.
    Schedule { task: u64, action: A, delays: Delays },
    /// Nothing more is sent for the task.
    Cancel { task: u64 },
}

/// A request, as a mathematical value.
pub enum EffectView<A> {
    Action(A),
    Stream { task: u64, items: Seq<A> },
    Schedule { task: u64, action: A, delays: Delays },
    Cancel { task: u64 },
}

impl<A> View for Effect<A> {
    type V = EffectView<A>;

    open spec fn view(&self) -> EffectView<A> {
        match *self {
            Effect::Action(action) => EffectView::Action(action),
            Effect::Stream { task, items } => EffectView::Stream { task, items: items@ },
            Effect::Schedule { task, action, delays } => EffectView::Schedule {
                task,
                action,
                delays,
            },
            Effect::Cancel { task } => EffectView::Cancel { task },
        }
    }
}

/// The instant at which a leading or trailing debounce sends its action, or
/// `None` where the action is dropped.
///
/// A trailing debounce sends one interval from now. A leading debounce sends now,
/// unless the previous action was scheduled an interval ago or less.
pub open spec fn debounce_when(now: Instant, previous: Option<Instant>, interval: Interval)
    -> Option<Instant> {
    match interval {
        Interval::Trailing(timeout) => Some(now.plus(timeout)),
        Interval::Leading(timeout) => match previous {
            None => Some(now),
            Some(then) => if now.nanos <= then.nanos + timeout.nanos {
                None
            } else {
                Some(now)
            },
        },
    }
}

/// The instants that `debounce_when` adds up are on the timeline.
pub open spec fn debounce_defined(now: Instant, previous: Option<Instant>, interval: Interval)
    -> bool {
    match interval {
        Interval::Trailing(timeout) => now.reaches(timeout),
        Interval::Leading(timeout) => previous matches Some(then) ==> then.reaches(timeout),
    }
}

/// The instant at which a throttle sends its action.
///
/// While the previous action is still to be sent, the new one takes its place and
/// its instant. Within one interval after the previous action, the new one is sent
/// when that interval ends. Otherwise a leading throttle sends now, and a trailing
/// one an interval from now.
pub open spec fn throttle_when(now: Instant, previous: Option<Instant>, interval: Interval)
    -> Instant {
    let timeout = interval.spec_duration();
    match previous {
        Some(then) if then.nanos > now.nanos => then,
        Some(then) if then.nanos + timeout.nanos > now.nanos => then.plus(timeout),
        _ => match interval {
            Interval::Leading(_) => now,
            Interval::Trailing(_) => now.plus(timeout),
        },
    }
}

/// The instants that `throttle_when` adds up are on the timeline. Nothing is added
/// up while the previous action is still to be sent. Otherwise the interval is
/// added to the previous instant; and to now only where that sum is not past now
/// and the interval is a trailing one.
pub open spec fn throttle_defined(now: Instant, previous: Option<Instant>, interval: Interval)
    -> bool {
    let timeout = interval.spec_duration();
    match previous {
        Some(then) if then.nanos > now.nanos => true,
        Some(then) => then.reaches(timeout) && (then.nanos + timeout.nanos > now.nanos
            || interval is Leading || now.reaches(timeout)),
        None => interval is Leading || now.reaches(timeout),
    }
}

/// The instant that a task was scheduled for, where there is a task and it has one.
pub open spec fn when_of(task: Option<Task>) -> Option<Instant> {
    match task {
        Some(task) => task.when,
        None => None,
    }
}

/// A handle's state as a mathematical value: the time of the reduction, the number
/// for the next task, and the requests made so far.
pub struct EffectsView<A> {
    pub now: Instant,
    pub next: u64,
    pub log: Seq<EffectView<A>>,
}

impl<A> EffectsView<A> {
    /// The handle after one more request.
    pub open spec fn push(self, effect: EffectView<A>) -> EffectsView<A> {
        EffectsView { log: self.log.push(effect), ..self }
    }

    /// The handle after a request for `action`.
    pub open spec fn action(self, action: A) -> EffectsView<A> {
        self.push(EffectView::Action(action))
    }

    /// Whether the handle can number another task.
    pub open spec fn can_spawn(self) -> bool {
        self.next < u64::MAX
    }

    /// The handle after numbering a task, where it can.
    pub open spec fn numbered(self) -> EffectsView<A> {
        if self.can_spawn() {
            EffectsView { next: (self.next + 1) as u64, ..self }
        } else {
            self
        }
    }

    /// The handle and the task after a request to stream `items`.
    pub open spec fn task(self, items: Seq<A>) -> (EffectsView<A>, Task) {
        if self.can_spawn() {
            (
                self.numbered().push(EffectView::Stream { task: self.next, items }),
                Task { handle: Some(self.next), when: None },
            )
        } else {
            (self, Task { handle: None, when: None })
        }
    }

    /// The handle and the task after a request to send `action` at `delays`.
    pub open spec fn schedule(self, action: A, delays: Delays) -> (EffectsView<A>, Task) {
        if self.can_spawn() {
            (
                self.numbered().push(EffectView::Schedule { task: self.next, action, delays }),
                Task { handle: Some(self.next), when: None },
            )
        } else {
            (self, Task { handle: None, when: None })
        }
    }

    /// The handle and the task after a request to send `action` at `instant`.
    pub open spec fn at(self, instant: Instant, action: A) -> (EffectsView<A>, Task) {
        let (effects, task) = self.schedule(action, Delays::Once(instant));
        (effects, Task { handle: task.handle, when: Some(instant) })
    }

    /// The handle and the task after a request to send `action` after `duration`.
    pub open spec fn after(self, duration: Duration, action: A) -> (EffectsView<A>, Task) {
        self.at(self.now.plus(duration), action)
    }

    /// The instants at which `every` sends.
    pub open spec fn every_delays(self, interval: Interval) -> Delays {
        match interval {
            Interval::Leading(period) => Delays::Every { start: self.now, period, n: 0 },
            Interval::Trailing(period) => Delays::Every { start: self.now, period, n: 1 },
        }
    }

    /// The handle and the task after a request to send `action` every `interval`.
    pub open spec fn every(self, interval: Interval, action: A) -> (EffectsView<A>, Task) {
        self.schedule(action, self.every_delays(interval))
    }

    /// The handle after cancelling `task`.
    pub open spec fn cancel(self, task: Task) -> EffectsView<A> {
        match task.handle {
            Some(id) => self.push(EffectView::Cancel { task: id }),
            None => self,
        }
    }

    /// The handle after cancelling `task`, where there is one.
    pub open spec fn cancel_any(self, task: Option<Task>) -> EffectsView<A> {
        match task {
            Some(task) => self.cancel(task),
            None => self,
        }
    }

    /// The handle and the remembered task after debouncing `action`.
    pub open spec fn debounce(self, action: A, previous: Option<Task>, interval: Interval) -> (
        EffectsView<A>,
        Option<Task>,
    ) {
        match debounce_when(self.now, when_of(previous), interval) {
            None => (self, previous),
            Some(instant) => {
                let (effects, task) = self.at(instant, action);
                (effects.cancel_any(previous), Some(task))
            },
        }
    }

    /// The handle and the remembered task after throttling `action`.
    pub open spec fn throttle(self, action: A, previous: Option<Task>, interval: Interval) -> (
        EffectsView<A>,
        Option<Task>,
    ) {
        let instant = throttle_when(self.now, when_of(previous), interval);
        let (effects, task) = self.cancel_any(previous).at(instant, action);
        (effects, Some(task))
    }

    /// `self` holds everything that `earlier` holds, and maybe more after it.
    pub open spec fn extends(self, earlier: EffectsView<A>) -> bool {
        &&& self.now == earlier.now
        &&& self.next >= earlier.next
        &&& self.log.len() >= earlier.log.len()
        &&& self.log.take(earlier.log.len() as int) == earlier.log
    }
}

/// `Effects` are used within reducers to propagate actions as side effects of
/// performing other actions, and to schedule when, and how often, actions are sent.
pub struct Effects<A> {
    now: Instant,
    next: u64,
    log: VecDeque<Effect<A>>,
}

impl<A> View for Effects<A> {
    type V = EffectsView<A>;

    closed spec fn view(&self) -> EffectsView<A> {
        EffectsView {
            now: self.now,
            next: self.next,
            log: Seq::new(self.log@.len(), |i: int| self.log@[i]@),
        }
    }
}

impl<A> Effects<A> {
    /// A handle with nothing requested, for a reduction at `now`, whose first task
    /// gets the number `next`.
    pub fn new(now: Instant, next: u64) -> (effects: Effects<A>)
        ensures
            effects@ == (EffectsView { now, next, log: Seq::<EffectView<A>>::empty() }),
    {
        let effects = Effects { now, next, log: VecDeque::new() };
        assert(effects@.log =~= Seq::<EffectView<A>>::empty());
        effects
    }

    /// The time of the reduction.
    pub fn now(&self) -> (now: Instant)
        ensures
            now == self@.now,
    {
        self.now
    }

    /// The number that the next task gets.
    pub fn next_task(&self) -> (next: u64)
        ensures
            next == self@.next,
    {
        self.next
    }

    /// The requests, in the order in which they were made.
    pub fn into_log(self) -> (log: VecDeque<Effect<A>>)
        ensures
            log@.len() == self@.log.len(),
            forall|i: int| 0 <= i < log@.len() ==> (#[trigger] log@[i])@ == self@.log[i],
    {
        self.log
    }

    fn record(&mut self, effect: Effect<A>)
        ensures
            final(self)@ == old(self)@.push(effect@),
    {
        self.log.push_back(effect);
        assert(self@.log =~= old(self)@.log.push(effect@));
    }

    fn number(&mut self) -> (id: Option<u64>)
        ensures
            final(self)@ == old(self)@.numbered(),
            id == (if old(self)@.can_spawn() {
                Some(old(self)@.next)
            } else {
                None::<u64>
            }),
    {
        if self.next < u64::MAX {
            let id = self.next;
            self.next = self.next + 1;
            assert(self@.log =~= old(self)@.log);
            Some(id)
        } else {
            None
        }
    }

    /// An effect that sends an action through the store's reducer, after the
    /// actions requested before it.
    pub fn action(&mut self, action: A)
        ensures
            final(self)@ == old(self)@.action(action),
    {
        self.record(Effect::Action(action));
    }

    /// Asynchronous work that sends the actions of `stream` back into the store
    /// as it runs. Use this if the work has to be cancelled while it is running;
    /// otherwise prefer `future` or `stream`.
    ///
    /// The task has no handle, and no work is taken on, where the handle has no
    /// number left for it. What is asked of a handle takes effect when the store
    /// that made the handle carries it out; asked of a handle whose store is
    /// gone, it never does.
    pub fn task(&mut self, stream: Vec<A>) -> (task: Task)
        ensures
            (final(self)@, task) == old(self)@.task(stream@),
    {
        match self.number() {
            Some(id) => {
                self.record(Effect::Stream { task: id, items: stream });
                Task { handle: Some(id), when: None }
            },
            None => Task { handle: None, when: None },
        }
    }

    /// An effect that sends the action that `future` came to, if it came to one.
    pub fn future(&mut self, future: Option<A>)
        ensures
            final(self)@ == old(self)@.task(
                match future {
                    Some(action) => seq![action],
                    None => Seq::empty(),
                },
            ).0,
    {
        let mut stream: Vec<A> = Vec::new();
        match future {
            Some(action) => {
                stream.push(action);
                assert(stream@ =~= seq![action]);
            },
            None => {},
        }
        self.task(stream).detach()
    }

    /// An effect that sends every action of `stream`.
    pub fn stream(&mut self, stream: Vec<A>)
        ensures
            final(self)@ == old(self)@.task(stream@).0,
    {
        self.task(stream).detach()
    }

    /// Sends `action` at each of `delays`.
    pub fn schedule(&mut self, action: A, delays: Delays) -> (task: Task)
        ensures
            (final(self)@, task) == old(self)@.schedule(action, delays),
    {
        match self.number() {
            Some(id) => {
                self.record(Effect::Schedule { task: id, action, delays });
                Task { handle: Some(id), when: None }
            },
            None => Task { handle: None, when: None },
        }
    }

    /// Sends `action` after `duration`.
    pub fn after(&mut self, duration: Duration, action: A) -> (task: Task)
        requires
            old(self)@.now.reaches(duration),
        ensures
            (final(self)@, task) == old(self)@.after(duration, action),
    {
        let instant = self.now.add(duration);
        self.at(instant, action)
    }

    /// Sends `action` at `instant`.
    pub fn at(&mut self, instant: Instant, action: A) -> (task: Task)
        ensures
            (final(self)@, task) == old(self)@.at(instant, action),
    {
        let mut task = self.schedule(action, Delays::Once(instant));
        task.when = Some(instant);
        task
    }

    /// Sends `action` every `interval`: a leading interval sends at once and then
    /// after each interval, a trailing one after each interval only.
    pub fn every(&mut self, interval: Interval, action: A) -> (task: Task)
        ensures
            (final(self)@, task) == old(self)@.every(interval, action),
    {
        let delays = match interval {
            Interval::Leading(period) => Delays::Every { start: self.now, period, n: 0 },
            Interval::Trailing(period) => Delays::Every { start: self.now, period, n: 1 },
        };
        self.schedule(action, delays)
    }

    /// Cancels `task`: it sends nothing more.
    pub fn cancel(&mut self, task: Task)
        ensures
            final(self)@ == old(self)@.cancel(task),
    {
        match task.handle {
            Some(id) => self.record(Effect::Cancel { task: id }),
            None => {},
        }
    }

    /// An effect that coalesces repeated attempts to send actions into a single
    /// send.
    ///
    /// With a trailing interval, each call puts the send off to one interval from
    /// now, and the action of the last call is the one that is sent. With a
    /// leading interval the action is sent now, and calls within one interval of
    /// the last send are dropped.
    ///
    /// `previous` holds the task of the last send, and is brought up to date.
    pub fn debounce(&mut self, action: A, previous: &mut Option<Task>, interval: Interval)
        requires
            debounce_defined(old(self)@.now, when_of(*old(previous)), interval),
        ensures
            (final(self)@, *final(previous)) == old(self)@.debounce(
                action,
                *old(previous),
                interval,
            ),
    {
        let now = self.now;
        let then = match previous {
            Some(task) => task.when,
            None => None,
        };
        let instant = match interval {
            Interval::Trailing(timeout) => now.add(timeout),
            Interval::Leading(timeout) => {
                match then {
                    None => now,
                    Some(then) => {
                        if now.nanos <= then.add(timeout).nanos {
                            return ;  // a leading debounce drops actions within the interval
                        }
                        now
                    },
                }
            },
        };
        let task = self.at(instant, action);
        match previous.take() {
            Some(replaced) => self.cancel(replaced),
            None => {},
        }
        *previous = Some(task);
    }

    /// An effect that sends an action if at least one interval has passed since
    /// the last one was sent. Where it has not, the action is sent when the
    /// interval ends, and takes the place of an action that was waiting for that.
    ///
    /// `previous` holds the task of the last send, and is brought up to date.
    pub fn throttle(&mut self, action: A, previous: &mut Option<Task>, interval: Interval)
        requires
            throttle_defined(old(self)@.now, when_of(*old(previous)), interval),
        ensures
            (final(self)@, *final(previous)) == old(self)@.throttle(
                action,
                *old(previous),
                interval,
            ),
    {
        let now = self.now;
        let timeout = interval.duration();
        let then = match previous.take() {
            Some(replaced) => {
                let then = replaced.when;
                self.cancel(replaced);
                then
            },
            None => None,
        };
        let instant = match then {
            Some(then) if then.nanos > now.nanos => then,
            Some(then) if then.add(timeout).nanos > now.nanos => then.add(timeout),
            _ => match interval {
                Interval::Leading(_) => now,
                Interval::Trailing(_) => now.add(timeout),
            },
        };
        let task = self.at(instant, action);
        *previous = Some(task);
    }
}

/// Whether a clone of a value of this type is the value again.
pub open spec fn clones_exactly<A: Clone>() -> bool {
    forall|a: A, b: A| #[trigger] vstd::pervasive::cloned(a, b) ==> a == b
}

/// A way to turn a child's action into its parent's.
pub trait Lift<P, C> {
    /// Whether `lift` is known to return what `lifted` says.
    open spec fn obeys(&self) -> bool {
        false
    }

    /// The child's action as the parent sees it.
    open spec fn lifted(&self, action: C) -> P {
        vstd::pervasive::arbitrary()
    }

    /// Turns the child's action into the parent's.
    fn lift(&self, action: C) -> (parent: P)
        ensures
            self.obeys() ==> parent == self.lifted(action),
    ;
}

/// Lifts a child's action by the parent's `From`.
pub struct Wrap;

impl<P: From<C>, C> Lift<P, C> for Wrap {
    open spec fn obeys(&self) -> bool {
        <P as vstd::std_specs::convert::FromSpec<C>>::obeys_from_spec()
    }

    open spec fn lifted(&self, action: C) -> P {
        <P as vstd::std_specs::convert::FromSpec<C>>::from_spec(action)
    }

    fn lift(&self, action: C) -> (parent: P) {
        P::from(action)
    }
}

/// Lifts a child's action by wrapping it with a clone of the child's key, and that
/// by the parent's `From`.
pub struct WrapKeyed<K>(pub K);

impl<P: From<Keyed<K, C>>, K: Clone, C> Lift<P, C> for WrapKeyed<K> {
    open spec fn obeys(&self) -> bool {
        <P as vstd::std_specs::convert::FromSpec<Keyed<K, C>>>::obeys_from_spec()
            && clones_exactly::<K>()
    }

    open spec fn lifted(&self, action: C) -> P {
        <P as vstd::std_specs::convert::FromSpec<Keyed<K, C>>>::from_spec(
            Keyed { key: self.0, action },
        )
    }

    fn lift(&self, action: C) -> (parent: P) {
        let key = self.0.clone();
        assert(vstd::pervasive::cloned(self.0, key));
        P::from(Keyed::new(key, action))
    }
}

/// A child's request as the parent sees it: each action lifted to the parent's.
pub open spec fn lift_effect<P, C, L: Lift<P, C>>(lifter: L, effect: EffectView<C>) -> EffectView<
    P,
> {
    match effect {
        EffectView::Action(action) => EffectView::Action(lifter.lifted(action)),
        EffectView::Stream { task, items } => EffectView::Stream {
            task,
            items: Seq::new(items.len(), |i: int| lifter.lifted(items[i])),
        },
        EffectView::Schedule { task, action, delays } => EffectView::Schedule {
            task,
            action: lifter.lifted(action),
            delays,
        },
        EffectView::Cancel { task } => EffectView::Cancel { task },
    }
}

impl<P> EffectsView<P> {
    /// A handle for a child, with nothing requested: it has the parent's time, and
    /// numbers its tasks from where the parent stands.
    pub open spec fn scope<C>(self) -> EffectsView<C> {
        EffectsView { now: self.now, next: self.next, log: Seq::empty() }
    }

    /// The parent's handle after taking in what a child requested of its scoped
    /// handle: the child's requests follow the parent's own, each lifted to the
    /// parent's action type, and the numbering of tasks goes on from the child's.
    pub open spec fn absorb<C, L: Lift<P, C>>(self, lifter: L, child: EffectsView<C>)
        -> EffectsView<P> {
        EffectsView {
            now: self.now,
            next: if child.next > self.next {
                child.next
            } else {
                self.next
            },
            log: self.log + Seq::new(
                child.log.len(),
                |i: int| lift_effect::<P, C, L>(lifter, child.log[i]),
            ),
        }
    }
}

/// An `Effects` that scopes its actions to one that sends child actions.
///
/// It is created by [`Effects::scope`] or [`Effects::scope_keyed`], handed to the
/// child's reducer, and then given back to the parent's handle with
/// [`Scoped::lift`].
pub struct Scoped<Parent, Child, L = Wrap>(pub Effects<Child>, pub L, pub PhantomData<Parent>);

/// The items of `items`, last first.
pub(crate) fn reversed<T>(items: Vec<T>) -> (turned: Vec<T>)
    ensures
        turned@.len() == items@.len(),
        forall|i: int| 0 <= i < items@.len() ==> #[trigger] turned@[i] == items@[items@.len() - 1 - i],
{
    let mut items = items;
    let ghost all = items@;
    let mut turned: Vec<T> = Vec::new();
    while items.len() > 0
        invariant
            items@.len() + turned@.len() == all.len(),
            items@ == all.take(items@.len() as int),
            forall|i: int| 0 <= i < turned@.len() ==> #[trigger] turned@[i] == all[all.len() - 1 - i],
        decreases items.len(),
    {
        let ghost left = items@.len() as int;
        match items.pop() {
            Some(item) => {
                turned.push(item);
                assert(items@ =~= all.take(left - 1));
            },
            None => {},
        }
    }
    turned
}

/// Each of `items` lifted to the parent's action type, in order.
fn lift_items<P, C, L: Lift<P, C>>(lifter: &L, items: Vec<C>) -> (raised: Vec<P>)
    ensures
        raised@.len() == items@.len(),
        lifter.obeys() ==> raised@ == Seq::new(items@.len(), |i: int| lifter.lifted(items@[i])),
{
    let ghost wanted = Seq::new(items@.len(), |i: int| lifter.lifted(items@[i]));
    let ghost all = items@;
    let mut rest = reversed(items);
    let mut raised: Vec<P> = Vec::new();
    while rest.len() > 0
        invariant
            rest@.len() + raised@.len() == all.len(),
            forall|i: int| 0 <= i < rest@.len() ==> #[trigger] rest@[i] == all[all.len() - 1 - i],
            wanted.len() == all.len(),
            forall|i: int| 0 <= i < all.len() ==> #[trigger] wanted[i] == lifter.lifted(all[i]),
            lifter.obeys() ==> forall|i: int|
                0 <= i < raised@.len() ==> #[trigger] raised@[i] == wanted[i],
        decreases rest.len(),
    {
        let ghost done = raised@.len() as int;
        match rest.pop() {
            Some(item) => {
                assert(item == all[done]);
                raised.push(lifter.lift(item));
            },
            None => {},
        }
    }
    assert(lifter.obeys() ==> raised@ =~= wanted);
    raised
}

impl<A> Effects<A> {
    /// Scopes the `Effects` down to one that sends child actions.
    ///
    /// The scoped handle starts with nothing requested. What the child requests
    /// of it reaches this handle through [`Scoped::lift`], each action wrapped
    /// into `A` by its `From`.
    pub fn scope<Child>(&self) -> (scoped: Scoped<A, Child>)
        ensures
            scoped.0@ == self@.scope::<Child>(),
    {
        Scoped(Effects::new(self.now, self.next), Wrap, PhantomData)
    }

    /// Scopes the `Effects` down to one that sends the actions of the child
    /// stored under `key`: each is wrapped with the key on its way to this handle.
    pub fn scope_keyed<K, Child>(&self, key: K) -> (scoped: Scoped<A, Child, WrapKeyed<K>>)
        ensures
            scoped.0@ == self@.scope::<Child>(),
            scoped.1.0 == key,
    {
        Scoped(Effects::new(self.now, self.next), WrapKeyed(key), PhantomData)
    }
}

impl<Parent, Child, L: Lift<Parent, Child>> Scoped<Parent, Child, L> {
    /// Hands what the child requested on to the parent's handle: each request is
    /// lifted to the parent's action type and follows what the parent's handle
    /// holds already.
    pub fn lift(self, parent: &mut Effects<Parent>)
        ensures
            self.1.obeys() ==> final(parent)@ == old(parent)@.absorb(self.1, self.0@),
            final(parent)@.extends(old(parent)@),
    {
        let Scoped(child, lifter, _) = self;
        let ghost wanted = old(parent)@.absorb(lifter, child@);
        let ghost asked = child@.log;
        let ghost before = old(parent)@.log;
        if child.next > parent.next {
            parent.next = child.next;
        }
        assert(parent@.log =~= before);
        let mut log = child.into_log();
        while log.len() > 0
            invariant
                wanted == old(parent)@.absorb(lifter, child@),
                asked == child@.log,
                before == old(parent)@.log,
                parent@.now == wanted.now,
                parent@.next == wanted.next,
                parent@.next >= old(parent)@.next,
                log@.len() <= asked.len(),
                parent@.log.len() == before.len() + asked.len() - log@.len(),
                parent@.log.take(before.len() as int) == before,
                forall|i: int|
                    0 <= i < log@.len() ==> (#[trigger] log@[i])@ == asked[asked.len() - log@.len()
                        + i],
                lifter.obeys() ==> forall|i: int|
                    0 <= i < parent@.log.len() ==> #[trigger] parent@.log[i] == wanted.log[i],
            decreases log.len(),
        {
            let ghost at = asked.len() - log@.len();
            let ghost so_far = parent@.log;
            match log.pop_front() {
                Some(effect) => {
                    assert(effect@ == asked[at]);
                    let raised = match effect {
                        Effect::Action(action) => Effect::Action(lifter.lift(action)),
                        Effect::Stream { task, items } => Effect::Stream {
                            task,
                            items: lift_items::<Parent, Child, L>(&lifter, items),
                        },
                        Effect::Schedule { task, action, delays } => Effect::Schedule {
                            task,
                            action: lifter.lift(action),
                            delays,
                        },
                        Effect::Cancel { task } => Effect::Cancel { task },
                    };
                    assert(lifter.obeys() ==> raised@ == lift_effect::<Parent, Child, L>(
                        lifter,
                        asked[at],
                    ));
                    parent.record(raised);
                    assert(parent@.log.take(before.len() as int) =~= so_far.take(
                        before.len() as int,
                    ));
                    assert(wanted.log[before.len() + at] == lift_effect::<Parent, Child, L>(
                        lifter,
                        asked[at],
                    ));
                },
                None => {},
            }
        }
        assert(lifter.obeys() ==> parent@.log =~= wanted.log);
    }
}

impl Task {
    /// Cancels the task: it sends nothing more.
    pub fn cancel<A>(self, send: &mut Effects<A>)
        ensures
            final(send)@ == old(send)@.cancel(self),
    {
        send.cancel(self)
    }
}

} // verus!
