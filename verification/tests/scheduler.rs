use composable::effects::delay::State;
use composable::effects::scheduler::{Park, Queue, Reactor, Shared};
use composable::time::{Duration, Instant};

fn at(nanos: u64) -> Instant {
    Instant::from_nanos(nanos)
}

#[test]
fn queue_is_empty_at_first() {
    let mut queue: Queue<&'static str> = Queue::new();
    assert_eq!(queue.len(), 0);
    assert_eq!(queue.peek_next(), None);
    assert_eq!(queue.pop_next(), None);
    assert_eq!(queue.drain_until(at(u64::MAX)), Vec::<&'static str>::new());
}

#[test]
fn queue_peeks_at_the_earliest_instant() {
    let mut queue = Queue::new();
    queue.insert(at(30), "c");
    assert_eq!(queue.peek_next(), Some(at(30)));
    queue.insert(at(10), "a");
    assert_eq!(queue.peek_next(), Some(at(10)));
    queue.insert(at(20), "b");
    assert_eq!(queue.peek_next(), Some(at(10)));
    assert_eq!(queue.len(), 3);
}

#[test]
fn queue_drains_in_chronological_order() {
    let mut queue = Queue::new();
    queue.insert(at(30), "c");
    queue.insert(at(10), "a");
    queue.insert(at(40), "d");
    queue.insert(at(20), "b");

    assert_eq!(queue.drain_until(at(5)), Vec::<&'static str>::new());
    assert_eq!(queue.drain_until(at(25)), vec!["a", "b"]);
    assert_eq!(queue.peek_next(), Some(at(30)));
    assert_eq!(queue.drain_until(at(30)), vec!["c"]);
    assert_eq!(queue.drain_until(at(100)), vec!["d"]);
    assert_eq!(queue.peek_next(), None);
}

#[test]
fn queue_breaks_ties_by_insertion_order() {
    let mut queue = Queue::new();
    queue.insert(at(10), "first");
    queue.insert(at(10), "second");
    queue.insert(at(5), "earlier");
    queue.insert(at(10), "third");

    assert_eq!(
        queue.drain_until(at(10)),
        vec!["earlier", "first", "second", "third"]
    );
}

#[test]
fn queue_pops_the_entry_that_fires_first() {
    let mut queue = Queue::new();
    queue.insert(at(7), 'x');
    queue.insert(at(3), 'y');
    queue.insert(at(7), 'z');
    assert_eq!(queue.pop_next(), Some((at(3), 'y')));
    assert_eq!(queue.pop_next(), Some((at(7), 'x')));
    assert_eq!(queue.pop_next(), Some((at(7), 'z')));
    assert_eq!(queue.pop_next(), None);
}

#[test]
fn timers_with_earlier_instants_fire_no_later() {
    // Whatever the order of scheduling, the earlier instant comes out first.
    let mut queue = Queue::new();
    queue.insert(at(200), "b");
    queue.insert(at(100), "a");
    assert_eq!(queue.drain_until(at(150)), vec!["a"]);
    assert_eq!(queue.drain_until(at(250)), vec!["b"]);

    let mut queue = Queue::new();
    queue.insert(at(100), "a");
    queue.insert(at(200), "b");
    assert_eq!(queue.drain_until(at(300)), vec!["a", "b"]);
}

#[test]
fn shared_poll_wakes_what_is_due_and_tells_the_next() {
    let mut shared = Shared::new();
    shared.queue.insert(at(10), 1u32);
    shared.queue.insert(at(20), 2u32);
    shared.queue.insert(at(30), 3u32);

    let (woken, next) = Shared::poll(at(0), &mut shared);
    assert_eq!(woken, Vec::<u32>::new());
    assert_eq!(next, Some(at(10)));

    let (woken, next) = Shared::poll(at(20), &mut shared);
    assert_eq!(woken, vec![1, 2]);
    assert_eq!(next, Some(at(30)));

    let (woken, next) = Shared::poll(at(30), &mut shared);
    assert_eq!(woken, vec![3]);
    assert_eq!(next, None);
}

#[test]
fn reactor_poll_returns_next_instant_or_now() {
    let mut reactor = Reactor::new();
    assert_eq!(reactor.poll(at(5)), (Vec::<u8>::new(), at(5)));

    assert!(!reactor.add(at(50), 1u8));
    assert!(!reactor.add(at(40), 2u8));
    assert_eq!(reactor.poll(at(5)), (vec![], at(40)));
    assert_eq!(reactor.poll(at(45)), (vec![2], at(50)));
    assert_eq!(reactor.poll(at(60)), (vec![1], at(60)));
}

#[test]
fn reactor_unparks_its_thread_for_a_new_earliest_timer() {
    let mut reactor = Reactor::with_thread();
    // nothing is scheduled yet
    assert!(reactor.add(at(50), 'a'));
    // later than what is pending
    assert!(!reactor.add(at(60), 'b'));
    // the same instant as what is pending
    assert!(!reactor.add(at(50), 'c'));
    // earlier than what is pending
    assert!(reactor.add(at(10), 'd'));
}

#[test]
fn reactor_turn_says_how_long_to_park() {
    let mut reactor = Reactor::with_thread();
    assert_eq!(reactor.turn(at(0)), (Vec::<char>::new(), Park::Indefinitely));

    reactor.add(at(1_000), 'a');
    reactor.add(at(4_000), 'b');
    assert_eq!(
        reactor.turn(at(250)),
        (vec![], Park::Timeout(Duration::from_nanos(750)))
    );
    assert_eq!(
        reactor.turn(at(1_500)),
        (vec!['a'], Park::Timeout(Duration::from_nanos(2_500)))
    );
    assert_eq!(reactor.turn(at(9_000)), (vec!['b'], Park::Indefinitely));
}

#[test]
fn delay_goes_from_fresh_to_waiting_to_ready() {
    let mut state = State::Fresh;

    // the first poll asks for the delay to be added to the reactor
    assert_eq!(state.poll("one"), (false, true));
    assert!(matches!(state, State::Waiting("one")));

    // later polls only replace the waker
    assert_eq!(state.poll("two"), (false, false));
    assert!(matches!(state, State::Waiting("two")));

    // the reactor fires the delay and gets the waker
    assert_eq!(state.fire(), Some("two"));
    assert!(matches!(state, State::Ready));

    // a poll of a delay that is ready is over
    assert_eq!(state.poll("three"), (true, false));
    assert!(matches!(state, State::Ready));
    assert_eq!(state.fire(), None);
}

#[test]
fn delay_that_was_never_polled_has_no_waker() {
    let mut state: State<u8> = State::Fresh;
    assert_eq!(state.fire(), None);
    assert!(matches!(state, State::Ready));
}
