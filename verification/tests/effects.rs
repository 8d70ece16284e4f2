use std::collections::VecDeque;

use composable::effects::{Delays, Effect, Effects, Interval, Task};
use composable::time::{Duration, Instant};
use composable::Keyed;

fn at(secs: u32) -> Instant {
    Instant::from_nanos(Duration::from_secs(secs).as_nanos())
}

fn secs(secs: u32) -> Duration {
    Duration::from_secs(secs)
}

fn log<A>(effects: Effects<A>) -> Vec<Effect<A>> {
    let log: VecDeque<Effect<A>> = effects.into_log();
    log.into_iter().collect()
}

fn once(task: u64, action: &'static str, instant: Instant) -> Effect<&'static str> {
    Effect::Schedule {
        task,
        action,
        delays: Delays::Once(instant),
    }
}

#[test]
fn actions_are_logged_in_order() {
    let mut effects = Effects::new(at(0), 0);
    effects.action("a");
    effects.action("b");
    effects.action("c");
    assert_eq!(effects.now(), at(0));
    assert_eq!(effects.next_task(), 0);
    assert_eq!(
        log(effects),
        vec![Effect::Action("a"), Effect::Action("b"), Effect::Action("c")]
    );
}

#[test]
fn tasks_are_numbered_one_after_the_other() {
    let mut effects = Effects::new(at(0), 7);
    let first = effects.task(vec!["a", "b"]);
    let second = effects.at(at(9), "c");
    effects.stream(vec!["d"]);
    assert_eq!(first, Task { handle: Some(7), when: None });
    assert_eq!(second, Task { handle: Some(8), when: Some(at(9)) });
    assert_eq!(effects.next_task(), 10);
    assert_eq!(
        log(effects),
        vec![
            Effect::Stream { task: 7, items: vec!["a", "b"] },
            once(8, "c", at(9)),
            Effect::Stream { task: 9, items: vec!["d"] },
        ]
    );
}

#[test]
fn future_sends_its_action_if_it_came_to_one() {
    let mut effects = Effects::new(at(0), 0);
    effects.future(Some("a"));
    effects.future(None);
    assert_eq!(
        log(effects),
        vec![
            Effect::Stream { task: 0, items: vec!["a"] },
            Effect::Stream { task: 1, items: vec![] },
        ]
    );
}

#[test]
fn a_handle_without_numbers_left_takes_on_no_work() {
    let mut effects = Effects::new(at(0), u64::MAX);
    let task = effects.at(at(1), "a");
    assert_eq!(task, Task { handle: None, when: Some(at(1)) });
    let task = effects.task(vec!["b"]);
    assert_eq!(task, Task { handle: None, when: None });
    effects.cancel(task);
    assert_eq!(effects.next_task(), u64::MAX);
    assert_eq!(log(effects), vec![]);
}

#[test]
fn after_schedules_from_now() {
    let mut effects = Effects::new(at(10), 0);
    let task = effects.after(secs(5), "a");
    assert_eq!(task.when(), Some(at(15)));
    assert_eq!(log(effects), vec![once(0, "a", at(15))]);
}

#[test]
fn every_starts_at_once_or_after_the_first_interval() {
    let mut effects = Effects::new(at(10), 0);
    let leading = effects.every(Interval::Leading(secs(2)), "a");
    let trailing = effects.every(Interval::Trailing(secs(3)), "b");
    assert_eq!(leading, Task { handle: Some(0), when: None });
    assert_eq!(trailing, Task { handle: Some(1), when: None });
    assert_eq!(
        log(effects),
        vec![
            Effect::Schedule {
                task: 0,
                action: "a",
                delays: Delays::Every { start: at(10), period: secs(2), n: 0 },
            },
            Effect::Schedule {
                task: 1,
                action: "b",
                delays: Delays::Every { start: at(10), period: secs(3), n: 1 },
            },
        ]
    );
}

#[test]
fn cancel_and_detach() {
    let mut effects = Effects::new(at(0), 0);
    let kept = effects.task(vec!["a"]);
    let dropped = effects.task(vec!["b"]);
    kept.detach();
    dropped.cancel(&mut effects);
    assert_eq!(
        log(effects),
        vec![
            Effect::Stream { task: 0, items: vec!["a"] },
            Effect::Stream { task: 1, items: vec!["b"] },
            Effect::Cancel { task: 1 },
        ]
    );
}

#[test]
fn debounce_trailing_pushes_the_send_forward() {
    let interval = Interval::Trailing(secs(4));
    let mut previous = None;

    let mut effects = Effects::new(at(0), 0);
    effects.debounce("a", &mut previous, interval);
    assert_eq!(previous, Some(Task { handle: Some(0), when: Some(at(4)) }));
    assert_eq!(log(effects), vec![once(0, "a", at(4))]);

    let mut effects = Effects::new(at(3), 1);
    effects.debounce("b", &mut previous, interval);
    assert_eq!(previous, Some(Task { handle: Some(1), when: Some(at(7)) }));
    assert_eq!(
        log(effects),
        vec![once(1, "b", at(7)), Effect::Cancel { task: 0 }]
    );

    // also after the previous one was sent
    let mut effects = Effects::new(at(20), 2);
    effects.debounce("c", &mut previous, interval);
    assert_eq!(previous, Some(Task { handle: Some(2), when: Some(at(24)) }));
    assert_eq!(
        log(effects),
        vec![once(2, "c", at(24)), Effect::Cancel { task: 1 }]
    );
}

#[test]
fn debounce_leading_drops_what_comes_within_the_interval() {
    let interval = Interval::Leading(secs(4));
    let mut previous = None;

    let mut effects = Effects::new(at(0), 0);
    effects.debounce("a", &mut previous, interval);
    assert_eq!(previous, Some(Task { handle: Some(0), when: Some(at(0)) }));
    assert_eq!(log(effects), vec![once(0, "a", at(0))]);

    // within the interval
    let mut effects = Effects::new(at(3), 1);
    effects.debounce("b", &mut previous, interval);
    assert_eq!(previous, Some(Task { handle: Some(0), when: Some(at(0)) }));
    assert_eq!(log(effects), vec![]);

    // at the end of the interval
    let mut effects = Effects::new(at(4), 1);
    effects.debounce("c", &mut previous, interval);
    assert_eq!(previous, Some(Task { handle: Some(0), when: Some(at(0)) }));
    assert_eq!(log(effects), vec![]);

    // after the interval
    let mut effects = Effects::new(at(11), 1);
    effects.debounce("d", &mut previous, interval);
    assert_eq!(previous, Some(Task { handle: Some(1), when: Some(at(11)) }));
    assert_eq!(
        log(effects),
        vec![once(1, "d", at(11)), Effect::Cancel { task: 0 }]
    );
}

#[test]
fn debounce_leading_sends_at_once_when_the_previous_task_has_no_instant() {
    let mut previous = Some(Task { handle: Some(5), when: None });
    let mut effects = Effects::new(at(2), 6);
    effects.debounce("a", &mut previous, Interval::Leading(secs(4)));
    assert_eq!(previous, Some(Task { handle: Some(6), when: Some(at(2)) }));
    assert_eq!(
        log(effects),
        vec![once(6, "a", at(2)), Effect::Cancel { task: 5 }]
    );
}

#[test]
fn throttle_leading() {
    let interval = Interval::Leading(secs(4));
    let mut previous = None;

    // the first send comes at once
    let mut effects = Effects::new(at(10), 0);
    effects.throttle("a", &mut previous, interval);
    assert_eq!(previous, Some(Task { handle: Some(0), when: Some(at(10)) }));
    assert_eq!(log(effects), vec![once(0, "a", at(10))]);

    // sent recently: wait for the end of the interval
    let mut effects = Effects::new(at(11), 1);
    effects.throttle("b", &mut previous, interval);
    assert_eq!(previous, Some(Task { handle: Some(1), when: Some(at(14)) }));
    assert_eq!(
        log(effects),
        vec![Effect::Cancel { task: 0 }, once(1, "b", at(14))]
    );

    // not yet sent: the new action takes the place of the old, at its instant
    let mut effects = Effects::new(at(12), 2);
    effects.throttle("c", &mut previous, interval);
    assert_eq!(previous, Some(Task { handle: Some(2), when: Some(at(14)) }));
    assert_eq!(
        log(effects),
        vec![Effect::Cancel { task: 1 }, once(2, "c", at(14))]
    );

    // long after: at once again
    let mut effects = Effects::new(at(30), 3);
    effects.throttle("d", &mut previous, interval);
    assert_eq!(previous, Some(Task { handle: Some(3), when: Some(at(30)) }));
    assert_eq!(
        log(effects),
        vec![Effect::Cancel { task: 2 }, once(3, "d", at(30))]
    );

    // exactly one interval after: at once
    let mut effects = Effects::new(at(34), 4);
    effects.throttle("e", &mut previous, interval);
    assert_eq!(previous, Some(Task { handle: Some(4), when: Some(at(34)) }));
    assert_eq!(
        log(effects),
        vec![Effect::Cancel { task: 3 }, once(4, "e", at(34))]
    );
}

#[test]
fn throttle_trailing() {
    let interval = Interval::Trailing(secs(4));
    let mut previous = None;

    let mut effects = Effects::new(at(10), 0);
    effects.throttle("a", &mut previous, interval);
    assert_eq!(previous, Some(Task { handle: Some(0), when: Some(at(14)) }));
    assert_eq!(log(effects), vec![once(0, "a", at(14))]);

    // not yet sent
    let mut effects = Effects::new(at(12), 1);
    effects.throttle("b", &mut previous, interval);
    assert_eq!(previous.as_ref().unwrap().when(), Some(at(14)));
    assert_eq!(
        log(effects),
        vec![Effect::Cancel { task: 0 }, once(1, "b", at(14))]
    );

    // sent recently
    let mut effects = Effects::new(at(15), 2);
    effects.throttle("c", &mut previous, interval);
    assert_eq!(previous.as_ref().unwrap().when(), Some(at(18)));
    assert_eq!(
        log(effects),
        vec![Effect::Cancel { task: 1 }, once(2, "c", at(18))]
    );

    // long after
    let mut effects = Effects::new(at(40), 3);
    effects.throttle("d", &mut previous, interval);
    assert_eq!(previous.as_ref().unwrap().when(), Some(at(44)));
    assert_eq!(
        log(effects),
        vec![Effect::Cancel { task: 2 }, once(3, "d", at(44))]
    );
}

#[derive(Debug, PartialEq)]
enum Parent {
    Child(&'static str),
    Keyed(Keyed<u8, &'static str>),
}

impl From<&'static str> for Parent {
    fn from(value: &'static str) -> Self {
        Parent::Child(value)
    }
}

impl From<Keyed<u8, &'static str>> for Parent {
    fn from(value: Keyed<u8, &'static str>) -> Self {
        Parent::Keyed(value)
    }
}

#[test]
fn scoped_effects_are_lifted_to_the_parent() {
    let mut parent: Effects<Parent> = Effects::new(at(5), 3);
    parent.action(Parent::Child("own"));

    let mut scoped = parent.scope::<&'static str>();
    assert_eq!(scoped.0.now(), at(5));
    assert_eq!(scoped.0.next_task(), 3);
    scoped.0.action("a");
    let task = scoped.0.task(vec!["b", "c"]);
    let timer = scoped.0.at(at(9), "d");
    task.cancel(&mut scoped.0);
    assert_eq!(timer.handle, Some(4));
    scoped.lift(&mut parent);

    assert_eq!(parent.next_task(), 5);
    assert_eq!(
        log(parent),
        vec![
            Effect::Action(Parent::Child("own")),
            Effect::Action(Parent::Child("a")),
            Effect::Stream {
                task: 3,
                items: vec![Parent::Child("b"), Parent::Child("c")],
            },
            Effect::Schedule {
                task: 4,
                action: Parent::Child("d"),
                delays: Delays::Once(at(9)),
            },
            Effect::Cancel { task: 3 },
        ]
    );
}

#[test]
fn keyed_scope_wraps_each_action_with_the_key() {
    let mut parent: Effects<Parent> = Effects::new(at(0), 0);

    let mut scoped = parent.scope_keyed::<u8, &'static str>(7);
    scoped.0.action("a");
    scoped.0.stream(vec!["b"]);
    scoped.lift(&mut parent);

    assert_eq!(
        log(parent),
        vec![
            Effect::Action(Parent::Keyed(Keyed::new(7, "a"))),
            Effect::Stream {
                task: 0,
                items: vec![Parent::Keyed(Keyed::new(7, "b"))],
            },
        ]
    );
}

#[test]
fn throttle_keeps_the_instant_of_a_send_that_is_still_to_come() {
    // Nothing is added to now, so an interval that would reach past the end of
    // the timeline does no harm.
    let now = Instant::from_nanos(10);
    let then = Instant::from_nanos(20);
    for interval in [
        Interval::Trailing(Duration::from_nanos(u64::MAX)),
        Interval::Leading(Duration::from_nanos(u64::MAX)),
    ] {
        let mut previous = Some(Task { handle: Some(0), when: Some(then) });
        let mut effects = Effects::new(now, 1);
        effects.throttle("a", &mut previous, interval);
        assert_eq!(previous, Some(Task { handle: Some(1), when: Some(then) }));
        assert_eq!(
            log(effects),
            vec![Effect::Cancel { task: 0 }, once(1, "a", then)]
        );
    }
}
