use composable::effects::{Delays, Interval};
use composable::time::{Duration, Instant};

#[test]
fn durations_are_counted_in_nanoseconds() {
    assert_eq!(Duration::zero().as_nanos(), 0);
    assert_eq!(Duration::from_nanos(17).as_nanos(), 17);
    assert_eq!(Duration::from_millis(3).as_nanos(), 3_000_000);
    assert_eq!(Duration::from_secs(4).as_nanos(), 4_000_000_000);
    assert_eq!(
        Duration::from_secs(u32::MAX).as_nanos(),
        4_294_967_295_000_000_000
    );
}

#[test]
fn duration_checked_mul() {
    let second = Duration::from_secs(1);
    assert_eq!(second.checked_mul(0), Some(Duration::zero()));
    assert_eq!(second.checked_mul(3), Some(Duration::from_secs(3)));
    assert_eq!(Duration::from_nanos(u64::MAX).checked_mul(1), Some(Duration::from_nanos(u64::MAX)));
    assert_eq!(Duration::from_nanos(u64::MAX).checked_mul(2), None);
    assert_eq!(Duration::from_nanos(u64::MAX / 2 + 1).checked_mul(2), None);
    assert_eq!(Duration::zero().checked_mul(u32::MAX), Some(Duration::zero()));
}

#[test]
fn instant_checked_add() {
    let start = Instant::from_nanos(10);
    assert_eq!(
        start.checked_add(Duration::from_nanos(5)),
        Some(Instant::from_nanos(15))
    );
    assert_eq!(
        start.checked_add(Duration::from_nanos(u64::MAX - 10)),
        Some(Instant::from_nanos(u64::MAX))
    );
    assert_eq!(start.checked_add(Duration::from_nanos(u64::MAX - 9)), None);
    assert_eq!(Instant::origin().as_nanos(), 0);
    assert_eq!(start.add(Duration::from_secs(1)).as_nanos(), 1_000_000_010);
}

#[test]
fn instant_saturating_duration_since() {
    let early = Instant::from_nanos(100);
    let late = Instant::from_nanos(250);
    assert_eq!(late.saturating_duration_since(early), Duration::from_nanos(150));
    assert_eq!(early.saturating_duration_since(late), Duration::zero());
    assert_eq!(early.saturating_duration_since(early), Duration::zero());
}

#[test]
fn interval_duration() {
    assert_eq!(
        Interval::Leading(Duration::from_secs(2)).duration(),
        Duration::from_secs(2)
    );
    assert_eq!(
        Interval::Trailing(Duration::from_millis(7)).duration(),
        Duration::from_millis(7)
    );
}

#[test]
fn delays_once() {
    let mut delays = Delays::Once(Instant::from_nanos(9));
    assert_eq!(delays.next(), Some(Instant::from_nanos(9)));
    assert_eq!(delays, Delays::Done);
    assert_eq!(delays.next(), None);
}

#[test]
fn delays_every_counts_up_from_its_start() {
    let mut delays = Delays::Every {
        start: Instant::from_nanos(100),
        period: Duration::from_nanos(10),
        n: 0,
    };
    assert_eq!(delays.next(), Some(Instant::from_nanos(100)));
    assert_eq!(delays.next(), Some(Instant::from_nanos(110)));
    assert_eq!(delays.next(), Some(Instant::from_nanos(120)));
    assert_eq!(
        delays,
        Delays::Every {
            start: Instant::from_nanos(100),
            period: Duration::from_nanos(10),
            n: 3,
        }
    );
}

#[test]
fn delays_every_ends_cleanly_on_overflow() {
    // the instant cannot be represented
    let mut delays = Delays::Every {
        start: Instant::from_nanos(u64::MAX - 15),
        period: Duration::from_nanos(10),
        n: 1,
    };
    assert_eq!(delays.next(), Some(Instant::from_nanos(u64::MAX - 5)));
    assert_eq!(delays.next(), None);
    assert_eq!(delays, Delays::Done);

    // the product cannot be represented
    let mut delays = Delays::Every {
        start: Instant::origin(),
        period: Duration::from_nanos(u64::MAX),
        n: 2,
    };
    assert_eq!(delays.next(), None);
    assert_eq!(delays, Delays::Done);

    // the count cannot be represented
    let mut delays = Delays::Every {
        start: Instant::origin(),
        period: Duration::from_nanos(1),
        n: u32::MAX,
    };
    assert_eq!(delays.next(), None);
    assert_eq!(delays, Delays::Done);
}
