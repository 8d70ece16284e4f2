use composable::store::channel::{channel, Poll, Receiver, Sender, Shared};

type State = Shared<u32, &'static str, char>;

fn open() -> (Sender<u32>, Receiver<u32, &'static str>, State) {
    let (sender, weak, mut shared) = channel::<u32, &'static str, char>();
    let receiver = weak.upgrade(&mut shared).unwrap();
    (sender, receiver, shared)
}

fn ready(polled: (Vec<&'static str>, Poll<u32>)) -> (Vec<&'static str>, Option<u32>) {
    match polled {
        (passed, Poll::Ready(value)) => (passed, value),
        (_, Poll::Pending) => panic!("expected a value or the end"),
    }
}

fn is_pending(polled: &(Vec<&'static str>, Poll<u32>)) -> bool {
    matches!(polled.1, Poll::Pending)
}

#[test]
fn channel_starts_with_one_sender_and_no_receiver() {
    let (_sender, weak, mut shared) = channel::<u32, &'static str, char>();
    assert_eq!(shared.strong_count(), 1);
    assert_eq!(shared.len(), 0);
    assert!(weak.upgrade(&mut shared).is_some());
    assert_eq!(shared.strong_count(), 2);
}

#[test]
fn values_are_received_in_the_order_sent() {
    let (sender, mut receiver, mut shared) = open();
    for value in 0..10 {
        assert_eq!(sender.send(&mut shared, value), None);
    }
    assert_eq!(shared.len(), 10);

    // the first poll takes the whole queue
    assert_eq!(ready(receiver.poll_next(&mut shared, 'w')), (vec![], Some(0)));
    assert_eq!(shared.len(), 0);

    // values sent meanwhile wait behind those taken
    sender.send(&mut shared, 10);
    for value in 1..=10 {
        assert_eq!(
            ready(receiver.poll_next(&mut shared, 'w')),
            (vec![], Some(value))
        );
    }
    assert!(is_pending(&receiver.poll_next(&mut shared, 'w')));
}

#[test]
fn pending_poll_stores_one_waker_and_send_takes_it() {
    let (sender, mut receiver, mut shared) = open();

    assert!(is_pending(&receiver.poll_next(&mut shared, 'a')));
    // a second poll replaces the waker
    assert!(is_pending(&receiver.poll_next(&mut shared, 'b')));

    assert_eq!(sender.send(&mut shared, 1), Some('b'));
    // there are no extra wakes
    assert_eq!(sender.send(&mut shared, 2), None);

    assert_eq!(ready(receiver.poll_next(&mut shared, 'c')), (vec![], Some(1)));
    assert_eq!(ready(receiver.poll_next(&mut shared, 'c')), (vec![], Some(2)));
    // a poll that is ready stores no waker
    assert_eq!(sender.send(&mut shared, 3), None);
}

#[test]
fn sync_puts_a_barrier_behind_its_value() {
    let (sender, mut receiver, mut shared) = open();

    assert_eq!(sender.sync(&mut shared, 7, "seven"), None);
    assert_eq!(shared.len(), 2);

    // the value comes first, and the barrier is not passed with it
    assert_eq!(ready(receiver.poll_next(&mut shared, 'w')), (vec![], Some(7)));

    // the next poll passes the barrier
    let polled = receiver.poll_next(&mut shared, 'w');
    assert_eq!(polled.0, vec!["seven"]);
    assert!(is_pending(&polled));
}

#[test]
fn barriers_are_passed_on_the_way_to_the_next_value() {
    let (sender, mut receiver, mut shared) = open();

    sender.sync(&mut shared, 1, "one");
    sender.sync(&mut shared, 2, "two");
    sender.send(&mut shared, 3);

    assert_eq!(ready(receiver.poll_next(&mut shared, 'w')), (vec![], Some(1)));
    assert_eq!(
        ready(receiver.poll_next(&mut shared, 'w')),
        (vec!["one"], Some(2))
    );
    assert_eq!(
        ready(receiver.poll_next(&mut shared, 'w')),
        (vec!["two"], Some(3))
    );
    assert!(is_pending(&receiver.poll_next(&mut shared, 'w')));
}

#[test]
fn channel_ends_when_the_last_sender_is_gone() {
    let (sender, mut receiver, mut shared) = open();
    let second = sender.clone(&mut shared);
    assert_eq!(shared.strong_count(), 3);

    sender.send(&mut shared, 1);
    assert_eq!(sender.drop(&mut shared), None);
    assert_eq!(shared.strong_count(), 2);

    // one sender is left: the queue is drained, then the poll is pending
    assert_eq!(ready(receiver.poll_next(&mut shared, 'w')), (vec![], Some(1)));
    assert!(is_pending(&receiver.poll_next(&mut shared, 'w')));

    // giving up the last sender wakes the receiver, which then sees the end
    assert_eq!(second.drop(&mut shared), Some('w'));
    assert_eq!(shared.strong_count(), 1);
    assert_eq!(ready(receiver.poll_next(&mut shared, 'w')), (vec![], None));
}

#[test]
fn values_sent_before_the_end_are_still_received() {
    let (sender, mut receiver, mut shared) = open();
    sender.send(&mut shared, 1);
    sender.send(&mut shared, 2);
    sender.drop(&mut shared);

    assert_eq!(ready(receiver.poll_next(&mut shared, 'w')), (vec![], Some(1)));
    assert_eq!(ready(receiver.poll_next(&mut shared, 'w')), (vec![], Some(2)));
    assert_eq!(ready(receiver.poll_next(&mut shared, 'w')), (vec![], None));
}

#[test]
fn weak_sender_upgrades_while_the_channel_lives() {
    let (sender, receiver, mut shared) = open();
    let weak = sender.downgrade();
    let other = weak.clone();

    let upgraded = weak.upgrade(&mut shared).unwrap();
    assert_eq!(shared.strong_count(), 3);
    upgraded.send(&mut shared, 5);
    assert_eq!(shared.len(), 1);

    upgraded.drop(&mut shared);
    sender.drop(&mut shared);
    receiver.drop(&mut shared);
    assert_eq!(shared.strong_count(), 0);

    // nothing keeps the channel alive
    assert!(weak.upgrade(&mut shared).is_none());
    assert!(other.upgrade(&mut shared).is_none());
    assert_eq!(shared.strong_count(), 0);
}

#[test]
fn weak_receiver_does_not_upgrade_once_the_channel_is_gone() {
    let (sender, weak, mut shared) = channel::<u32, &'static str, char>();
    sender.drop(&mut shared);
    assert!(weak.upgrade(&mut shared).is_none());
}
