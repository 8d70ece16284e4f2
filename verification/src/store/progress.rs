//! How a store gets through what it has to reduce.
//!
//! Actions are reduced one at a time. What a reducer asks to have reduced next is
//! reduced before anything else is taken from the channel, and the channel gives
//! its actions in the order in which they were sent.

use vstd::prelude::*;

use crate::reducer::Reducer;
use crate::store::channel::{
    barriers, leading_barriers, lemma_leading_barriers, payload, Msg,
};
use crate::store::{lemma_interpret, lemma_queued, Step, StoreView};

verus! {

/// The actions that the store takes from its channel during its next `n` steps, in
/// order. A step takes an action from the channel only when the buffer is empty.
pub open spec fn externals<R: Reducer>(store: StoreView<R>, n: nat) -> Seq<R::Action>
    decreases n,
{
    if n == 0 {
        Seq::empty()
    } else if store.buffer.len() == 0 && store.next_queued() is Some {
        seq![store.next_queued()->Some_0] + externals(store.step(), (n - 1) as nat)
    } else {
        externals(store.step(), (n - 1) as nat)
    }
}

/// The number of actions that reducers ask to have reduced next during the next
/// `n` steps of the store.
pub open spec fn asked<R: Reducer>(store: StoreView<R>, n: nat) -> nat
    decreases n,
{
    if n == 0 {
        0
    } else {
        (match store.next_queued() {
            Some(action) => store.dequeued().follow_ups(action).len(),
            None => 0,
        }) + asked(store.step(), (n - 1) as nat)
    }
}

/// What is asked for during two runs of steps, one after the other.
pub proof fn lemma_asked_split<R: Reducer>(store: StoreView<R>, first: nat, then: nat)
    ensures
        asked(store, first + then) == asked(store, first) + asked(store.steps(first), then),
    decreases first,
{
    if first > 0 {
        lemma_asked_split(store.step(), (first - 1) as nat, then);
    } else {
        assert(store.steps(0) == store);
    }
}

/// Reducing an action leaves the channel, the clock and the order of the timers as
/// they are. The action is added to what was observed, and the buffer keeps what
/// it held, with what the reducer asked for behind it.
pub proof fn lemma_reduce<R: Reducer>(store: StoreView<R>, action: R::Action)
    requires
        crate::effects::scheduler::chronological(store.timers),
    ensures
        crate::effects::scheduler::chronological(store.reduce(action).timers),
        store.reduce(action).inbox == store.inbox,
        store.reduce(action).now == store.now,
        store.reduce(action).tickets == store.tickets,
        store.reduce(action).observed == store.observed.push(action),
        store.reduce(action).buffer.len() >= store.buffer.len(),
        store.reduce(action).buffer.take(store.buffer.len() as int) == store.buffer,
{
    let reduced = store.state.reduced(action, store.handle());
    let start = StoreView {
        state: reduced.0,
        next_task: reduced.1.next,
        observed: store.observed.push(action),
        ..store
    };
    lemma_interpret(start, reduced.1.log);
    assert(store.reduce(action).buffer.take(store.buffer.len() as int) =~= store.buffer);
}

/// While the buffer holds an action, a step reduces the oldest action of the
/// buffer and leaves the channel alone. What the reducer asks to have reduced
/// next goes to the end of the buffer.
pub proof fn lemma_buffer_first<R: Reducer>(store: StoreView<R>)
    requires
        store.buffer.len() > 0,
        crate::effects::scheduler::chronological(store.timers),
    ensures
        store.kind() is Reduced,
        store.passed() == Seq::<u64>::empty(),
        store.step().inbox == store.inbox,
        store.step().observed == store.observed.push(store.buffer[0]),
        store.step().buffer.len() >= store.buffer.len() - 1,
        store.step().buffer.take(store.buffer.len() - 1) == store.buffer.drop_first(),
{
    lemma_reduce(store.dequeued(), store.buffer[0]);
}

/// When the buffer is empty, a step takes the oldest action of the channel, if
/// the channel holds one, and reduces it. The actions behind it stay in the
/// channel, in their order.
pub proof fn lemma_channel_next<R: Reducer>(store: StoreView<R>)
    requires
        store.buffer.len() == 0,
        payload(store.inbox).len() > 0,
        crate::effects::scheduler::chronological(store.timers),
    ensures
        store.kind() is Reduced,
        store.step().observed == store.observed.push(payload(store.inbox)[0]),
        payload(store.step().inbox) == payload(store.inbox).drop_first(),
{
    lemma_queued(store);
    assert(store.queued() =~= payload(store.inbox));
    let action = store.next_queued()->Some_0;
    lemma_reduce(store.dequeued(), action);
    assert(store.dequeued().queued() =~= payload(store.dequeued().inbox));
    assert(payload(store.inbox).drop_first() =~= payload(store.dequeued().inbox));
    lemma_leading_barriers(store.inbox);
}

/// Timers fire in the order of their instants: the timer that fires is one that no
/// other timer comes before, and its action goes into the channel behind all that
/// the channel holds, so behind the actions of all timers that fired before it.
pub proof fn lemma_earliest_fires_first<R: Reducer>(store: StoreView<R>)
    requires
        crate::effects::scheduler::chronological(store.timers),
        store.work_kind() is Fired,
    ensures
        forall|i: int|
            0 <= i < store.timers.len() ==> store.timers[0].0.nanos <= (
            #[trigger] store.timers[i]).0.nanos,
        !store.cancelled.contains(store.timers[0].1.task) ==> store.work().inbox
            == store.inbox.push(Msg::Value(store.timers[0].1.action)),
        store.cancelled.contains(store.timers[0].1.task) ==> store.work().inbox == store.inbox,
        store.work().state == store.state,
        store.work().observed == store.observed,
{
}

/// Every step keeps the timers in firing order.
pub proof fn lemma_step_keeps_order<R: Reducer>(store: StoreView<R>)
    requires
        crate::effects::scheduler::chronological(store.timers),
    ensures
        crate::effects::scheduler::chronological(store.step().timers),
{
    match store.next_queued() {
        Some(action) => {
            lemma_reduce(store.dequeued(), action);
        },
        None => {
            let idle = store.dequeued();
            if idle.streams.len() > 0 {
            } else if idle.timers.len() > 0 && idle.timers[0].0.nanos <= idle.now.nanos {
                let timer = idle.timers[0].1;
                let rest = idle.timers.drop_first();
                assert forall|i: int, j: int| 0 <= i <= j < rest.len() implies (
                #[trigger] rest[i]).0.nanos <= (#[trigger] rest[j]).0.nanos by {
                    assert(rest[i] == idle.timers[i + 1]);
                    assert(rest[j] == idle.timers[j + 1]);
                }
                if !idle.cancelled.contains(timer.task) {
                    if let Some(next) = timer.delays.first() {
                        crate::effects::scheduler::lemma_scheduled(
                            rest,
                            (
                                next,
                                crate::store::Timer {
                                    task: timer.task,
                                    action: timer.action,
                                    delays: timer.delays.rest(),
                                },
                            ),
                        );
                    }
                }
            }
        },
    }
}

/// The store observes the actions of its channel in the order in which they were
/// sent. Whatever number of steps the store makes: the actions that it has taken
/// from the channel, followed by those that the channel still holds, begin with
/// the actions that the channel held at first, in their order. Each was taken
/// when the buffer was empty, so after everything that the actions before it had
/// set off was reduced.
pub proof fn lemma_sent_in_order<R: Reducer>(store: StoreView<R>, n: nat)
    requires
        crate::effects::scheduler::chronological(store.timers),
    ensures
        payload(store.inbox).is_prefix_of(externals(store, n) + payload(store.steps(n).inbox)),
    decreases n,
{
    let sent = payload(store.inbox);
    if n == 0 {
        assert(externals(store, n) + payload(store.inbox) =~= sent);
    } else {
        let next = store.step();
        lemma_step_keeps_order(store);
        lemma_sent_in_order(next, (n - 1) as nat);
        lemma_queued(store);
        let rest = externals(next, (n - 1) as nat) + payload(next.steps((n - 1) as nat).inbox);
        assert(store.steps(n) == next.steps((n - 1) as nat));
        if store.buffer.len() > 0 {
            lemma_buffer_first(store);
        } else if store.next_queued() is Some {
            let action = store.next_queued()->Some_0;
            assert(store.queued() =~= sent);
            lemma_channel_next(store);
            assert(sent[0] == action);
            assert(sent =~= seq![action] + payload(next.inbox));
            assert(externals(store, n) + payload(store.steps(n).inbox) =~= seq![action] + rest);
        } else {
            assert(store.queued() =~= sent);
        }
    }
}

/// Running until a barrier is passed: where the first `k` steps do not pass the
/// barrier and the next one does, the run ends with that step.
pub proof fn lemma_run_until_passed<R: Reducer>(
    store: StoreView<R>,
    ticket: u64,
    k: nat,
    budget: nat,
)
    requires
        budget > k,
        forall|j: nat| j < k ==> !(#[trigger] store.steps(j)).passed().contains(ticket),
        store.steps(k).passed().contains(ticket),
    ensures
        store.run_until(ticket, budget) == (store.steps(k + 1), k + 1, true),
    decreases k,
{
    if k == 0 {
        assert(store.steps(0) == store);
        assert(store.steps(1) == store.step().steps(0));
    } else {
        assert(store.steps(0) == store);
        let next = store.step();
        assert forall|j: nat| j < k - 1 implies !(#[trigger] next.steps(j)).passed().contains(
            ticket,
        ) by {
            assert(store.steps(j + 1) == next.steps(j));
        }
        assert(store.steps(k) == next.steps((k - 1) as nat));
        lemma_run_until_passed(next, ticket, (k - 1) as nat, (budget - 1) as nat);
        assert(store.steps(k + 1) == next.steps(k));
    }
}

/// A synchronous send returns when the action and all that it set off have been
/// reduced, and no sooner.
///
/// The store is at rest when `action` is sent with its barrier. Reducing the
/// action sets off `n` more reductions: for `n` steps after the first the buffer
/// still holds an action, and then it is empty. Then the reducers asked for `n`
/// actions in all, the barrier is passed by the step after these and by none
/// before, the run ends there, and exactly `n + 1` actions have been reduced:
/// `action` first, then the `n` that followed from it.
pub proof fn lemma_sync_returns_when_drained<R: Reducer>(
    store: StoreView<R>,
    action: R::Action,
    n: nat,
    budget: nat,
)
    requires
        store.buffer.len() == 0,
        store.inbox.len() == 0,
        crate::effects::scheduler::chronological(store.timers),
        forall|j: nat|
            1 <= j <= n ==> (#[trigger] store.sync_sent(action).steps(j)).buffer.len() > 0,
        store.sync_sent(action).steps(n + 1).buffer.len() == 0,
        budget >= n + 2,
    ensures
        ({
            let sent = store.sync_sent(action);
            let (after, steps, passed) = sent.run_until(store.tickets, budget);
            &&& passed
            &&& steps == n + 2
            &&& after == sent.steps(n + 2)
            &&& sent.steps(n + 1).observed.len() == store.observed.len() + n + 1
            &&& sent.steps(n + 1).observed[store.observed.len() as int] == action
            &&& after.observed == sent.steps(n + 1).observed
            &&& after.state == sent.steps(n + 1).state
            &&& forall|j: nat|
                j <= n ==> (#[trigger] sent.steps(j)).passed() == Seq::<u64>::empty()
            &&& asked(sent, n + 1) == n
        }),
{
    let sent = store.sync_sent(action);
    let ticket = store.tickets;
    let value = Msg::<R::Action, u64>::Value(action);
    let barrier = Msg::<R::Action, u64>::Barrier(ticket);
    let only = seq![barrier];
    assert(sent.inbox =~= seq![value, barrier]);
    assert(sent.steps(0) == sent);
    assert(leading_barriers(sent.inbox) == 0);
    assert(sent.inbox.take(0) =~= Seq::<Msg<R::Action, u64>>::empty());
    assert(sent.passed() =~= Seq::<u64>::empty());
    assert(sent.next_queued() == Some(action));
    assert(sent.inbox.skip(1) =~= only);
    lemma_reduce(sent.dequeued(), action);
    assert(sent.steps(1) == sent.step().steps(0));
    lemma_drain(sent, 1, n);
    assert forall|j: nat| j < n + 1 implies !(#[trigger] sent.steps(j)).passed().contains(
        ticket,
    ) by {
        if j > 0 {
            lemma_drain(sent, 1, (j - 1) as nat);
        }
    }
    assert forall|j: nat| j <= n implies (#[trigger] sent.steps(j)).passed() == Seq::<
        u64,
    >::empty() by {
        if j > 0 {
            lemma_drain(sent, 1, (j - 1) as nat);
        }
    }
    let drained = sent.steps(n + 1);
    assert(drained.inbox == only);
    assert(only.drop_first() =~= Seq::<Msg<R::Action, u64>>::empty());
    assert(leading_barriers(only.drop_first()) == 0);
    assert(leading_barriers(only) == 1);
    assert(only.take(1) =~= only);
    assert(only.drop_last() =~= Seq::<Msg<R::Action, u64>>::empty());
    assert(barriers(only.drop_last()) =~= Seq::<u64>::empty());
    assert(only.last() == barrier);
    assert(barriers(only) =~= seq![ticket]);
    assert(drained.passed()[0] == ticket);
    lemma_run_until_passed(sent, ticket, n + 1, budget);
    lemma_steps_split(sent, n + 1, 1);
    assert(drained.steps(1) == drained.step().steps(0));
    assert(drained.next_queued() is None);
    lemma_asked_split(sent, 1, n);
    assert(asked(sent, 1) == sent.dequeued().follow_ups(action).len() + asked(sent.step(), 0));
    assert(sent.steps(1).buffer.len() == sent.dequeued().follow_ups(action).len());
    lemma_drain_count(sent, 1, n);
    let (after, steps, passed) = sent.run_until(store.tickets, budget);
    assert(passed);
    assert(steps == n + 2);
    assert(after == sent.steps(n + 2));
    assert(sent.steps(1).observed == store.observed.push(action));
    assert(drained.observed.len() == store.observed.len() + n + 1);
    assert(drained.observed.take(sent.steps(1).observed.len() as int) == sent.steps(1).observed);
    assert(drained.observed[store.observed.len() as int] == drained.observed.take(
        sent.steps(1).observed.len() as int,
    )[store.observed.len() as int]);
    assert(drained.observed[store.observed.len() as int] == action);
    assert(after == drained.dequeued().work());
    assert(after.observed == drained.observed);
    assert(after.state == drained.state);
}

/// The steps of a store, taken in two runs.
pub proof fn lemma_steps_split<R: Reducer>(store: StoreView<R>, first: nat, then: nat)
    ensures
        store.steps(first + then) == store.steps(first).steps(then),
    decreases first,
{
    if first > 0 {
        lemma_steps_split(store.step(), (first - 1) as nat, then);
    }
}

/// While the buffer holds actions, the steps reduce one action each and leave the
/// channel alone. From the store after `from` steps, for `more` steps, each of
/// which finds an action in the buffer: the channel is as it was, and one action
/// more was reduced with each step.
pub proof fn lemma_drain<R: Reducer>(store: StoreView<R>, from: nat, more: nat)
    requires
        crate::effects::scheduler::chronological(store.steps(from).timers),
        forall|j: nat| from <= j < from + more ==> (#[trigger] store.steps(j)).buffer.len() > 0,
    ensures
        crate::effects::scheduler::chronological(store.steps(from + more).timers),
        store.steps(from + more).inbox == store.steps(from).inbox,
        store.steps(from + more).tickets == store.steps(from).tickets,
        store.steps(from + more).observed.len() == store.steps(from).observed.len() + more,
        store.steps(from + more).observed.take(store.steps(from).observed.len() as int)
            == store.steps(from).observed,
    decreases more,
{
    let start = store.steps(from);
    if more == 0 {
        assert(start.observed.take(start.observed.len() as int) =~= start.observed);
    } else {
        lemma_drain(store, from, (more - 1) as nat);
        let before = store.steps((from + more - 1) as nat);
        lemma_steps_split(store, (from + more - 1) as nat, 1);
        assert(before.steps(1) == before.step().steps(0));
        lemma_buffer_first(before);
        lemma_step_keeps_order(before);
        lemma_reduce(before.dequeued(), before.buffer[0]);
        assert(store.steps(from + more).observed.take(start.observed.len() as int)
            =~= before.observed.take(start.observed.len() as int));
    }
}

/// While the buffer holds actions, each step takes one action out of it and puts
/// in those that the reducer asks for. So after `more` such steps the buffer
/// holds what it held, less `more`, and what was asked for on the way.
pub proof fn lemma_drain_count<R: Reducer>(store: StoreView<R>, from: nat, more: nat)
    requires
        crate::effects::scheduler::chronological(store.steps(from).timers),
        forall|j: nat| from <= j < from + more ==> (#[trigger] store.steps(j)).buffer.len() > 0,
    ensures
        store.steps(from + more).buffer.len() + more == store.steps(from).buffer.len() + asked(
            store.steps(from),
            more,
        ),
    decreases more,
{
    let start = store.steps(from);
    if more > 0 {
        lemma_drain_count(store, from, (more - 1) as nat);
        lemma_drain(store, from, (more - 1) as nat);
        let before = store.steps((from + more - 1) as nat);
        lemma_steps_split(store, (from + more - 1) as nat, 1);
        lemma_steps_split(store, from, (more - 1) as nat);
        assert(before.steps(1) == before.step().steps(0));
        lemma_asked_split(start, (more - 1) as nat, 1);
        assert(asked(before, 1) == before.dequeued().follow_ups(before.buffer[0]).len() + asked(
            before.step(),
            0,
        ));
        lemma_reduce(before.dequeued(), before.buffer[0]);
    }
}

} // verus!
