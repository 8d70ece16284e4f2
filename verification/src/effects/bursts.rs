//! What debounce and throttle make of a burst of calls.
//!
//! A burst is a run of calls, each at its own time and with its own action, that
//! share one remembered task. The functions here follow the handle's log and the
//! remembered task through such a run, and the proofs say what is left of it.

use vstd::prelude::*;

use super::{
    debounce_when, throttle_defined, throttle_when, when_of, EffectView, EffectsView, Interval,
};
use crate::effects::task::{Delays, Task};
use crate::time::{Duration, Instant};

verus! {

/// Whether `log` holds a request to cancel `task`.
pub open spec fn cancelled<A>(log: Seq<EffectView<A>>, task: u64) -> bool {
    exists|i: int| 0 <= i < log.len() && #[trigger] log[i] == EffectView::<A>::Cancel { task }
}

/// Whether `log` holds a request to send `action` once, at `instant`, as `task`.
pub open spec fn scheduled_once<A>(
    log: Seq<EffectView<A>>,
    task: u64,
    action: A,
    instant: Instant,
) -> bool {
    exists|i: int|
        0 <= i < log.len() && #[trigger] log[i] == (EffectView::Schedule {
            task,
            action,
            delays: Delays::Once(instant),
        })
}

/// The log and the remembered task after debouncing each of `calls` in turn, each
/// at its own time. The calls write to one log, so that it shows all that was
/// asked for during the burst.
pub open spec fn debounce_burst<A>(
    start: EffectsView<A>,
    previous: Option<Task>,
    calls: Seq<(Instant, A)>,
    interval: Interval,
) -> (EffectsView<A>, Option<Task>)
    decreases calls.len(),
{
    if calls.len() == 0 {
        (start, previous)
    } else {
        let (effects, remembered) = debounce_burst(start, previous, calls.drop_last(), interval);
        let call = calls.last();
        (EffectsView { now: call.0, ..effects }).debounce(call.1, remembered, interval)
    }
}

/// The log and the remembered task after throttling each of `calls` in turn.
pub open spec fn throttle_burst<A>(
    start: EffectsView<A>,
    previous: Option<Task>,
    calls: Seq<(Instant, A)>,
    interval: Interval,
) -> (EffectsView<A>, Option<Task>)
    decreases calls.len(),
{
    if calls.len() == 0 {
        (start, previous)
    } else {
        let (effects, remembered) = throttle_burst(start, previous, calls.drop_last(), interval);
        let call = calls.last();
        (EffectsView { now: call.0, ..effects }).throttle(call.1, remembered, interval)
    }
}

/// The calls come at times that do not decrease.
pub open spec fn in_time_order<A>(calls: Seq<(Instant, A)>) -> bool {
    forall|i: int, j: int|
        0 <= i <= j < calls.len() ==> (#[trigger] calls[i]).0.nanos <= (#[trigger] calls[j]).0.nanos
}

/// The previous task, if it has a number, got it before the handle's next.
pub open spec fn numbered_before<A>(previous: Option<Task>, start: EffectsView<A>) -> bool {
    previous matches Some(task) ==> (task.handle matches Some(number) ==> number < start.next)
}

/// What the burst added to the log.
pub open spec fn debounced<A>(
    start: EffectsView<A>,
    previous: Option<Task>,
    calls: Seq<(Instant, A)>,
    interval: Interval,
) -> Seq<EffectView<A>> {
    debounce_burst(start, previous, calls, interval).0.log.skip(start.log.len() as int)
}

/// A trailing debounce leaves one send behind, whatever the burst and whatever
/// came before it: that of the last call, one interval after it. Every send that
/// an earlier call of the burst asked for is cancelled, and so is the task that
/// was remembered when the burst began.
pub proof fn lemma_debounce_trailing<A>(
    start: EffectsView<A>,
    previous: Option<Task>,
    calls: Seq<(Instant, A)>,
    timeout: Duration,
)
    requires
        calls.len() > 0,
        start.next + calls.len() <= u64::MAX,
        numbered_before(previous, start),
    ensures
        ({
            let interval = Interval::Trailing(timeout);
            let (effects, remembered) = debounce_burst(start, previous, calls, interval);
            let added = debounced(start, previous, calls, interval);
            let last = (start.next + calls.len() - 1) as u64;
            let instant = calls.last().0.plus(timeout);
            &&& remembered == Some(Task { handle: Some(last), when: Some(instant) })
            &&& effects.log == start.log + added
            &&& scheduled_once(added, last, calls.last().1, instant)
            &&& !cancelled(added, last)
            &&& forall|i: int|
                0 <= i < added.len() && (#[trigger] added[i]) is Schedule
                    && added[i]->Schedule_task != last ==> cancelled(
                    added,
                    added[i]->Schedule_task,
                )
            &&& previous matches Some(task) ==> (task.handle matches Some(number) ==> cancelled(
                added,
                number,
            ))
        }),
    decreases calls.len(),
{
    let interval = Interval::Trailing(timeout);
    let (effects, remembered) = debounce_burst(start, previous, calls, interval);
    let added = debounced(start, previous, calls, interval);
    let call = calls.last();
    let last = (start.next + calls.len() - 1) as u64;
    let instant = call.0.plus(timeout);
    let wanted = EffectView::Schedule { task: last, action: call.1, delays: Delays::Once(instant) };
    let earlier = calls.drop_last();
    let (before, kept) = debounce_burst(start, previous, earlier, interval);
    let added_before = debounced(start, previous, earlier, interval);
    lemma_debounce_trailing_shape(start, previous, earlier, timeout);
    lemma_debounce_trailing_shape(start, previous, calls, timeout);
    let n = added_before.len() as int;
    let kept_number: Option<u64> = match kept {
        Some(task) => task.handle,
        None => None,
    };
    assert(before.log =~= start.log + added_before);
    match kept_number {
        Some(number) => {
            let cancel = EffectView::<A>::Cancel { task: number };
            assert(effects.log =~= before.log.push(wanted).push(cancel));
            assert(added =~= added_before.push(wanted).push(cancel));
            assert(added[n + 1] == cancel);
            assert(number < last);
        },
        None => {
            assert(effects.log =~= before.log.push(wanted));
            assert(added =~= added_before.push(wanted));
        },
    }
    assert(added[n] == wanted);
    assert(effects.log =~= start.log + added);
    if calls.len() > 1 {
        lemma_debounce_trailing(start, previous, earlier, timeout);
        assert(kept_number == Some((last - 1) as u64));
    } else {
        assert(earlier.len() == 0);
        assert(added_before.len() == 0);
    }
    assert(!cancelled(added, last)) by {
        if cancelled(added, last) {
            let i = choose|i: int|
                0 <= i < added.len() && #[trigger] added[i] == EffectView::<A>::Cancel { task: last };
            if i < n {
                assert(added_before[i] == added[i]);
            }
        }
    }
    assert forall|i: int|
        0 <= i < added.len() && (#[trigger] added[i]) is Schedule && added[i]->Schedule_task
            != last implies cancelled(added, added[i]->Schedule_task) by {
        let task = added[i]->Schedule_task;
        if i < n {
            assert(added_before[i] == added[i]);
            if calls.len() > 1 {
                if task == (last - 1) as u64 {
                    assert(added[n + 1] == EffectView::<A>::Cancel { task });
                } else {
                    assert(cancelled(added_before, task));
                    let j = choose|j: int|
                        0 <= j < added_before.len() && #[trigger] added_before[j] == EffectView::<
                            A,
                        >::Cancel { task };
                    assert(added[j] == EffectView::<A>::Cancel { task });
                }
            }
        }
    }
    if let Some(task) = previous {
        if let Some(number) = task.handle {
            if calls.len() > 1 {
                let j = choose|j: int|
                    0 <= j < added_before.len() && #[trigger] added_before[j] == EffectView::<
                        A,
                    >::Cancel { task: number };
                assert(added[j] == EffectView::<A>::Cancel { task: number });
            } else {
                assert(added[n + 1] == EffectView::<A>::Cancel { task: number });
            }
        }
    }
}

/// During a trailing burst the tasks are numbered one after the other, the log
/// only grows, and nothing that the burst adds to the log speaks of a task that
/// is still to be numbered.
pub proof fn lemma_debounce_trailing_shape<A>(
    start: EffectsView<A>,
    previous: Option<Task>,
    calls: Seq<(Instant, A)>,
    timeout: Duration,
)
    requires
        start.next + calls.len() <= u64::MAX,
        numbered_before(previous, start),
    ensures
        ({
            let interval = Interval::Trailing(timeout);
            let (effects, remembered) = debounce_burst(start, previous, calls, interval);
            let added = debounced(start, previous, calls, interval);
            &&& effects.next == start.next + calls.len()
            &&& effects.log.len() >= start.log.len()
            &&& effects.log == start.log + added
            &&& forall|i: int|
                0 <= i < added.len() ==> match #[trigger] added[i] {
                    EffectView::Cancel { task } => task + 1 < effects.next,
                    EffectView::Schedule { task, .. } => start.next <= task < effects.next,
                    _ => true,
                }
            &&& calls.len() > 0 ==> remembered == Some(
                Task {
                    handle: Some((effects.next - 1) as u64),
                    when: Some(calls.last().0.plus(timeout)),
                },
            )
            &&& calls.len() == 0 ==> remembered == previous && added.len() == 0
        }),
    decreases calls.len(),
{
    let interval = Interval::Trailing(timeout);
    let (effects, remembered) = debounce_burst(start, previous, calls, interval);
    let added = debounced(start, previous, calls, interval);
    if calls.len() > 0 {
        let earlier = calls.drop_last();
        lemma_debounce_trailing_shape(start, previous, earlier, timeout);
        let (before, kept) = debounce_burst(start, previous, earlier, interval);
        let added_before = debounced(start, previous, earlier, interval);
        let call = calls.last();
        let task = before.next;
        let wanted = EffectView::Schedule {
            task,
            action: call.1,
            delays: Delays::Once(call.0.plus(timeout)),
        };
        let n = added_before.len() as int;
        let kept_number: Option<u64> = match kept {
            Some(task) => task.handle,
            None => None,
        };
        match kept_number {
            Some(number) => {
                let cancel = EffectView::<A>::Cancel { task: number };
                assert(effects.log =~= before.log.push(wanted).push(cancel));
                assert(added =~= added_before.push(wanted).push(cancel));
            },
            None => {
                assert(effects.log =~= before.log.push(wanted));
                assert(added =~= added_before.push(wanted));
            },
        }
        assert(effects.log =~= start.log + added);
        assert forall|i: int| 0 <= i < added.len() implies match #[trigger] added[i] {
            EffectView::Cancel { task } => task + 1 < effects.next,
            EffectView::Schedule { task, .. } => start.next <= task < effects.next,
            _ => true,
        } by {
            if i < n {
                assert(added[i] == added_before[i]);
            }
        }
    } else {
        assert(added =~= Seq::<EffectView<A>>::empty());
        assert(effects.log =~= start.log + added);
    }
}

/// A leading debounce sends the first action of a burst at once and drops the
/// others, as long as they come within one interval of the first: the burst adds
/// to the log the one send (and the cancellation of the task that was remembered
/// when it began) and nothing else. The burst begins with a call that is sent:
/// nothing is remembered, or what is remembered lies more than an interval back.
pub proof fn lemma_debounce_leading<A>(
    start: EffectsView<A>,
    previous: Option<Task>,
    calls: Seq<(Instant, A)>,
    timeout: Duration,
)
    requires
        calls.len() > 0,
        start.can_spawn(),
        debounce_when(calls[0].0, when_of(previous), Interval::Leading(timeout)) is Some,
        forall|i: int|
            0 <= i < calls.len() ==> calls[0].0.nanos <= (#[trigger] calls[i]).0.nanos
                <= calls[0].0.nanos + timeout.nanos,
    ensures
        ({
            let interval = Interval::Leading(timeout);
            let (effects, remembered) = debounce_burst(start, previous, calls, interval);
            let sent = EffectView::Schedule {
                task: start.next,
                action: calls[0].1,
                delays: Delays::Once(calls[0].0),
            };
            &&& remembered == Some(Task { handle: Some(start.next), when: Some(calls[0].0) })
            &&& effects.log == (EffectsView { log: start.log.push(sent), ..start }).cancel_any(
                previous,
            ).log
        }),
    decreases calls.len(),
{
    let interval = Interval::Leading(timeout);
    let earlier = calls.drop_last();
    let (before, kept) = debounce_burst(start, previous, earlier, interval);
    let (effects, remembered) = debounce_burst(start, previous, calls, interval);
    if calls.len() == 1 {
        assert(before == start && kept == previous);
        assert(calls.last() == calls[0]);
    } else {
        assert forall|i: int| 0 <= i < earlier.len() implies earlier[0].0.nanos <= (
        #[trigger] earlier[i]).0.nanos <= earlier[0].0.nanos + timeout.nanos by {
            assert(earlier[i] == calls[i]);
            assert(earlier[0] == calls[0]);
        }
        assert(earlier[0] == calls[0]);
        lemma_debounce_leading(start, previous, earlier, timeout);
        let call = calls.last();
        assert(call == calls[calls.len() - 1]);
        assert(debounce_when(call.0, when_of(kept), interval) == None::<Instant>);
    }
}

/// A throttle never sends twice within one interval. Where the previous send is
/// still to come, the new action takes over its instant; where it is past, the new
/// send comes no earlier than one interval after it, and never before now.
pub proof fn lemma_throttle_spacing(now: Instant, then: Instant, interval: Interval)
    requires
        throttle_defined(now, Some(then), interval),
    ensures
        ({
            let instant = throttle_when(now, Some(then), interval);
            &&& then.nanos > now.nanos ==> instant == then
            &&& then.nanos <= now.nanos ==> instant.nanos >= then.nanos
                + interval.spec_duration().nanos && instant.nanos >= now.nanos
        }),
{
}

/// The first send of a leading throttle comes at the time of the first call.
pub proof fn lemma_throttle_leading_first(now: Instant, timeout: Duration)
    ensures
        throttle_when(now, None, Interval::Leading(timeout)) == now,
{
}

/// A leading throttle, through a burst of calls in time order: the first call's
/// action is sent at once, every call cancels the send that was remembered, and
/// the send that it asks for in its place comes at the instant of the one it
/// replaces, while that is still to come, or at least one interval after it.
pub proof fn lemma_throttle_leading<A>(
    start: EffectsView<A>,
    calls: Seq<(Instant, A)>,
    timeout: Duration,
)
    requires
        calls.len() > 0,
        in_time_order(calls),
        forall|i: int| 0 <= i < calls.len() ==> (#[trigger] calls[i]).0.reaches(timeout),
    ensures
        ({
            let interval = Interval::Leading(timeout);
            let (before, kept) = throttle_burst(start, None, calls.drop_last(), interval);
            let (effects, remembered) = throttle_burst(start, None, calls, interval);
            let now = calls.last().0;
            &&& when_of(remembered) is Some
            &&& when_of(remembered)->Some_0.nanos >= now.nanos
            &&& when_of(remembered)->Some_0.nanos <= now.nanos + timeout.nanos
            &&& calls.len() == 1 ==> when_of(remembered) == Some(calls[0].0)
            &&& calls.len() > 1 ==> when_of(kept) is Some && {
                let then = when_of(kept)->Some_0;
                let instant = when_of(remembered)->Some_0;
                if then.nanos > now.nanos {
                    instant == then
                } else {
                    instant.nanos >= then.nanos + timeout.nanos
                }
            }
            &&& effects.log.len() >= before.log.len()
            &&& effects.log.take(before.log.len() as int) == before.log
            &&& effects.log.skip(before.log.len() as int) == (EffectsView {
                now,
                next: before.next,
                log: Seq::<EffectView<A>>::empty(),
            }).throttle(calls.last().1, kept, interval).0.log
        }),
    decreases calls.len(),
{
    let interval = Interval::Leading(timeout);
    let earlier = calls.drop_last();
    let (before, kept) = throttle_burst(start, None::<Task>, earlier, interval);
    let (effects, remembered) = throttle_burst(start, None::<Task>, calls, interval);
    let call = calls.last();
    assert(call == calls[calls.len() - 1]);
    if calls.len() > 1 {
        assert forall|i: int, j: int| 0 <= i <= j < earlier.len() implies (
        #[trigger] earlier[i]).0.nanos <= (#[trigger] earlier[j]).0.nanos by {
            assert(earlier[i] == calls[i]);
            assert(earlier[j] == calls[j]);
        }
        assert forall|i: int| 0 <= i < earlier.len() implies (#[trigger] earlier[i]).0.reaches(
            timeout,
        ) by {
            assert(earlier[i] == calls[i]);
        }
        lemma_throttle_leading(start, earlier, timeout);
        assert(earlier.last() == calls[calls.len() - 2]);
    } else {
        assert(earlier.len() == 0);
        assert(before == start && kept == None::<Task>);
    }
    let fresh = EffectsView { now: call.0, next: before.next, log: Seq::<EffectView<A>>::empty() };
    let local = fresh.throttle(call.1, kept, interval).0.log;
    assert(effects.log =~= before.log + local);
    assert(effects.log.take(before.log.len() as int) =~= before.log);
    assert(effects.log.skip(before.log.len() as int) =~= local);
}

} // verus!
