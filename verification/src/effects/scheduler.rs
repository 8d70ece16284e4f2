//! The timer queue behind delayed actions.
//!
//! A [`Queue`] keeps its entries in firing order: earliest instant first, and among
//! entries for the same instant the one that was inserted first.

use std::collections::VecDeque;
use vstd::prelude::*;

use crate::time::Instant;

verus! {

/// Entries are in firing order: instants never decrease along the sequence.
pub open spec fn chronological<V>(entries: Seq<(Instant, V)>) -> bool {
    forall|i: int, j: int|
        0 <= i <= j < entries.len() ==> (#[trigger] entries[i]).0.nanos <= (
        #[trigger] entries[j]).0.nanos
}

/// The number of entries at the head of `entries` whose instant is no later than `now`.
pub open spec fn due<V>(entries: Seq<(Instant, V)>, now: Instant) -> nat
    decreases entries.len(),
{
    if entries.len() == 0 || entries[0].0.nanos > now.nanos {
        0
    } else {
        1 + due(entries.drop_first(), now)
    }
}

/// The values of `entries`, in the same order.
pub open spec fn values<V>(entries: Seq<(Instant, V)>) -> Seq<V> {
    Seq::new(entries.len(), |i: int| entries[i].1)
}

/// A split point `k` with everything before it due and the entry at it (if any)
/// not due is exactly `due`.
pub proof fn lemma_due_is_split<V>(entries: Seq<(Instant, V)>, now: Instant, k: int)
    requires
        0 <= k <= entries.len(),
        forall|i: int| 0 <= i < k ==> (#[trigger] entries[i]).0.nanos <= now.nanos,
        k < entries.len() ==> entries[k].0.nanos > now.nanos,
    ensures
        due(entries, now) == k,
    decreases entries.len(),
{
    if k > 0 {
        let rest = entries.drop_first();
        assert forall|i: int| 0 <= i < k - 1 implies (#[trigger] rest[i]).0.nanos
            <= now.nanos by {
            assert(rest[i] == entries[i + 1]);
        }
        if k - 1 < rest.len() {
            assert(rest[k - 1] == entries[k]);
        }
        lemma_due_is_split(rest, now, k - 1);
    }
}

/// In a chronological sequence, `due` splits the entries into those at or before
/// `now` and those strictly after it.
pub proof fn lemma_due_splits<V>(entries: Seq<(Instant, V)>, now: Instant)
    requires
        chronological(entries),
    ensures
        due(entries, now) <= entries.len(),
        forall|i: int| 0 <= i < due(entries, now) ==> (#[trigger] entries[i]).0.nanos <= now.nanos,
        forall|i: int|
            due(entries, now) <= i < entries.len() ==> (#[trigger] entries[i]).0.nanos > now.nanos,
    decreases entries.len(),
{
    if entries.len() > 0 && entries[0].0.nanos <= now.nanos {
        let rest = entries.drop_first();
        assert forall|i: int, j: int| 0 <= i <= j < rest.len() implies (#[trigger] rest[i]).0.nanos
            <= (#[trigger] rest[j]).0.nanos by {
            assert(rest[i] == entries[i + 1]);
            assert(rest[j] == entries[j + 1]);
        }
        lemma_due_splits(rest, now);
        let d = due(entries, now);
        assert forall|i: int| 0 <= i < d implies (#[trigger] entries[i]).0.nanos <= now.nanos by {
            if i > 0 {
                assert(entries[i] == rest[i - 1]);
            }
        }
        assert forall|i: int| d <= i < entries.len() implies (#[trigger] entries[i]).0.nanos
            > now.nanos by {
            assert(entries[i] == rest[i - 1]);
        }
    } else if entries.len() > 0 {
        assert forall|i: int| 0 <= i < entries.len() implies (#[trigger] entries[i]).0.nanos
            > now.nanos by {
            assert(entries[0].0.nanos <= entries[i].0.nanos);
        }
    }
}

/// An ordered queue of timed entries.
pub struct Queue<V> {
    /// Latest instant at the front, earliest at the back.
    deque: VecDeque<(Instant, V)>,
}

impl<V> View for Queue<V> {
    type V = Seq<(Instant, V)>;

    /// The entries in firing order.
    closed spec fn view(&self) -> Seq<(Instant, V)> {
        Seq::new(self.deque@.len(), |i: int| self.deque@[self.deque@.len() - 1 - i])
    }
}

impl<V> Queue<V> {
    /// The entries are in firing order.
    pub open spec fn wf(&self) -> bool {
        chronological(self@)
    }

    /// An empty queue.
    pub fn new() -> (queue: Queue<V>)
        ensures
            queue@ == Seq::<(Instant, V)>::empty(),
            queue.wf(),
    {
        let queue = Queue { deque: VecDeque::new() };
        assert(queue@ =~= Seq::<(Instant, V)>::empty());
        queue
    }

    /// The number of entries.
    pub fn len(&self) -> (len: usize)
        ensures
            len == self@.len(),
    {
        self.deque.len()
    }

    /// The earliest instant in the queue.
    pub fn peek_next(&self) -> (next: Option<Instant>)
        ensures
            next == (if self@.len() == 0 {
                None::<Instant>
            } else {
                Some(self@[0].0)
            }),
    {
        let len = self.deque.len();
        if len == 0 {
            None
        } else {
            Some(self.deque[len - 1].0)
        }
    }

    /// The index in the deque of the first entry that is due at `key`.
    fn partition_point(&self, key: Instant) -> (index: usize)
        requires
            self.wf(),
        ensures
            index <= self.deque@.len(),
            self.deque@.len() - index == due(self@, key),
    {
        let ghost len = self.deque@.len() as int;
        let mut lo: usize = 0;
        let mut hi: usize = self.deque.len();
        while lo < hi
            invariant
                self.wf(),
                len == self.deque@.len(),
                0 <= lo <= hi <= len,
                forall|i: int| 0 <= i < lo ==> (#[trigger] self.deque@[i]).0.nanos > key.nanos,
                forall|i: int| hi <= i < len ==> (#[trigger] self.deque@[i]).0.nanos <= key.nanos,
            decreases hi - lo,
        {
            let mid = lo + (hi - lo) / 2;
            if self.deque[mid].0.nanos > key.nanos {
                assert forall|i: int| 0 <= i < mid + 1 implies (#[trigger] self.deque@[i]).0.nanos
                    > key.nanos by {
                    assert(self@[len - 1 - i] == self.deque@[i]);
                    assert(self@[len - 1 - mid] == self.deque@[mid as int]);
                }
                lo = mid + 1;
            } else {
                assert forall|i: int| mid <= i < len implies (#[trigger] self.deque@[i]).0.nanos
                    <= key.nanos by {
                    assert(self@[len - 1 - i] == self.deque@[i]);
                    assert(self@[len - 1 - mid] == self.deque@[mid as int]);
                }
                hi = mid;
            }
        }
        proof {
            let k = len - lo;
            assert forall|i: int| 0 <= i < k implies (#[trigger] self@[i]).0.nanos <= key.nanos by {
                assert(self@[i] == self.deque@[len - 1 - i]);
            }
            if k < len {
                assert(self@[k] == self.deque@[lo - 1]);
            }
            lemma_due_is_split(self@, key, k);
        }
        lo
    }

    /// Takes the entry that fires first out of the queue.
    pub fn pop_next(&mut self) -> (next: Option<(Instant, V)>)
        requires
            old(self).wf(),
        ensures
            final(self).wf(),
            next == (if old(self)@.len() == 0 {
                None::<(Instant, V)>
            } else {
                Some(old(self)@[0])
            }),
            final(self)@ == (if old(self)@.len() == 0 {
                old(self)@
            } else {
                old(self)@.drop_first()
            }),
    {
        let ghost before = self@;
        let next = self.deque.pop_back();
        proof {
            if before.len() > 0 {
                let rest = before.drop_first();
                assert forall|j: int| 0 <= j < rest.len() implies self@[j] == rest[j] by {
                    assert(rest[j] == before[j + 1]);
                }
                assert(self@ =~= rest);
                assert forall|i: int, j: int| 0 <= i <= j < rest.len() implies (
                #[trigger] rest[i]).0.nanos <= (#[trigger] rest[j]).0.nanos by {
                    assert(rest[i] == before[i + 1]);
                    assert(rest[j] == before[j + 1]);
                }
            } else {
                assert(self@ =~= before);
            }
        }
        next
    }

    /// Adds an entry. It will fire after every entry whose instant is at or before
    /// `key`, and before every entry whose instant is later.
    pub fn insert(&mut self, key: Instant, value: V)
        requires
            old(self).wf(),
        ensures
            final(self).wf(),
            due(old(self)@, key) <= old(self)@.len(),
            final(self)@ == old(self)@.insert(due(old(self)@, key) as int, (key, value)),
    {
        let index = self.partition_point(key);
        let ghost before = self@;
        let ghost deque_before = self.deque@;
        let ghost len = self.deque@.len() as int;
        self.deque.insert(index, (key, value));
        proof {
            let at = len - index;
            let after = before.insert(at, (key, value));
            assert(self.deque@ == deque_before.insert(index as int, (key, value)));
            assert forall|j: int| 0 <= j < after.len() implies self@[j] == after[j] by {
                if j < at {
                    assert(before[j] == deque_before[len - 1 - j]);
                } else if j > at {
                    assert(before[j - 1] == deque_before[len - j]);
                }
            }
            assert(self@ =~= after);
            lemma_due_splits(before, key);
            assert forall|i: int, j: int| 0 <= i <= j < after.len() implies (
            #[trigger] after[i]).0.nanos <= (#[trigger] after[j]).0.nanos by {
                let a = if i < at { before[i] } else if i == at { (key, value) } else { before[i - 1] };
                let b = if j < at { before[j] } else if j == at { (key, value) } else { before[j - 1] };
                assert(after[i] == a);
                assert(after[j] == b);
            }
        }
    }

    /// Removes every entry whose instant is at or before `key` and returns their
    /// values in firing order.
    pub fn drain_until(&mut self, key: Instant) -> (fired: Vec<V>)
        requires
            old(self).wf(),
        ensures
            final(self).wf(),
            due(old(self)@, key) <= old(self)@.len(),
            fired@ == values(old(self)@.take(due(old(self)@, key) as int)),
            final(self)@ == old(self)@.skip(due(old(self)@, key) as int),
            due(final(self)@, key) == 0,
    {
        let index = self.partition_point(key);
        let ghost before = self@;
        let ghost deque_before = self.deque@;
        let ghost len = self.deque@.len() as int;
        let ghost n = len - index;
        let mut tail = self.deque.split_off(index);
        let ghost tail_before = tail@;
        proof {
            lemma_due_splits(before, key);
            let rest = before.skip(n);
            assert forall|j: int| 0 <= j < rest.len() implies self@[j] == rest[j] by {
                assert(rest[j] == before[j + n]);
                assert(before[j + n] == deque_before[len - 1 - (j + n)]);
            }
            assert(self@ =~= rest);
            assert forall|i: int, j: int| 0 <= i <= j < rest.len() implies (
            #[trigger] rest[i]).0.nanos <= (#[trigger] rest[j]).0.nanos by {
                assert(rest[i] == before[i + n]);
                assert(rest[j] == before[j + n]);
            }
            if rest.len() > 0 {
                assert(rest[0] == before[n]);
            }
        }
        let mut fired: Vec<V> = Vec::new();
        while tail.len() > 0
            invariant
                n == tail_before.len(),
                tail@.len() + fired@.len() == n,
                tail@ == tail_before.take(tail@.len() as int),
                forall|j: int|
                    0 <= j < fired@.len() ==> #[trigger] fired@[j] == tail_before[n - 1 - j].1,
            decreases tail.len(),
        {
            let ghost remaining = tail@.len() as int;
            let entry = tail.pop_back();
            match entry {
                Some((_, value)) => {
                    fired.push(value);
                    assert(tail@ =~= tail_before.take(remaining - 1));
                },
                None => {},
            }
        }
        proof {
            let expected = values(before.take(n));
            assert forall|j: int| 0 <= j < n implies fired@[j] == expected[j] by {
                assert(before.take(n)[j] == before[j]);
                assert(before[j] == deque_before[len - 1 - j]);
                assert(tail_before[n - 1 - j] == deque_before[index + (n - 1 - j)]);
            }
            assert(fired@ =~= expected);
        }
        fired
    }
}


/// The entries after scheduling `entry`: it goes behind every entry that fires at
/// or before its instant.
pub open spec fn scheduled<V>(entries: Seq<(Instant, V)>, entry: (Instant, V)) -> Seq<
    (Instant, V),
> {
    entries.insert(due(entries, entry.0) as int, entry)
}

/// Scheduling keeps the firing order, and puts the new entry behind all entries
/// that are due at its instant and ahead of all that are not.
pub proof fn lemma_scheduled<V>(entries: Seq<(Instant, V)>, entry: (Instant, V))
    requires
        chronological(entries),
    ensures
        chronological(scheduled(entries, entry)),
        due(entries, entry.0) <= entries.len(),
        scheduled(entries, entry)[due(entries, entry.0) as int] == entry,
        due(scheduled(entries, entry), entry.0) == due(entries, entry.0) + 1,
{
    let at = due(entries, entry.0) as int;
    let after = scheduled(entries, entry);
    lemma_due_splits(entries, entry.0);
    assert forall|i: int, j: int| 0 <= i <= j < after.len() implies (#[trigger] after[i]).0.nanos
        <= (#[trigger] after[j]).0.nanos by {
        let a = if i < at {
            entries[i]
        } else if i == at {
            entry
        } else {
            entries[i - 1]
        };
        let b = if j < at {
            entries[j]
        } else if j == at {
            entry
        } else {
            entries[j - 1]
        };
        assert(after[i] == a);
        assert(after[j] == b);
    }
    assert forall|i: int| 0 <= i < at + 1 implies (#[trigger] after[i]).0.nanos
        <= entry.0.nanos by {
        if i < at {
            assert(after[i] == entries[i]);
        }
    }
    if at + 1 < after.len() {
        assert(after[at + 1] == entries[at]);
    }
    lemma_due_is_split(after, entry.0, at + 1);
}

/// Timers fire in the order of their instants. When `first` is scheduled for an
/// instant no later than that of `second`, and `first` is scheduled before
/// `second`, then `first` stands ahead of `second` in the queue, and at any time
/// `now` at which `second` has fired, `first` has fired too.
pub proof fn lemma_timer_order<V>(
    entries: Seq<(Instant, V)>,
    first: (Instant, V),
    second: (Instant, V),
    now: Instant,
)
    requires
        chronological(entries),
        first.0.nanos <= second.0.nanos,
    ensures
        ({
            let one = scheduled(entries, first);
            let both = scheduled(one, second);
            let at_first = due(entries, first.0) as int;
            let at_second = due(one, second.0) as int;
            &&& chronological(both)
            &&& at_first < at_second < both.len()
            &&& both[at_first] == first
            &&& both[at_second] == second
            &&& at_second < due(both, now) ==> at_first < due(both, now)
        }),
{
    let one = scheduled(entries, first);
    let both = scheduled(one, second);
    let at_first = due(entries, first.0) as int;
    let at_second = due(one, second.0) as int;
    lemma_scheduled(entries, first);
    lemma_scheduled(one, second);
    lemma_due_splits(one, second.0);
    assert(at_first < at_second) by {
        if at_second <= at_first {
            assert(one[at_first].0.nanos > second.0.nanos);
        }
    }
    assert(both[at_first] == one[at_first]);
}

/// The same holds whichever of the two was scheduled first, as long as their
/// instants differ: the earlier instant fires first.
pub proof fn lemma_timer_order_reversed<V>(
    entries: Seq<(Instant, V)>,
    first: (Instant, V),
    second: (Instant, V),
    now: Instant,
)
    requires
        chronological(entries),
        first.0.nanos < second.0.nanos,
    ensures
        ({
            let one = scheduled(entries, second);
            let both = scheduled(one, first);
            let at_first = due(one, first.0) as int;
            let at_second = due(entries, second.0) as int + 1;
            &&& chronological(both)
            &&& at_first < at_second < both.len()
            &&& both[at_first] == first
            &&& both[at_second] == second
            &&& at_second < due(both, now) ==> at_first < due(both, now)
        }),
{
    let one = scheduled(entries, second);
    let both = scheduled(one, first);
    let at_first = due(one, first.0) as int;
    let at = due(entries, second.0) as int;
    lemma_scheduled(entries, second);
    lemma_scheduled(one, first);
    lemma_due_splits(one, first.0);
    assert(at_first <= at) by {
        if at < at_first {
            assert(one[at].0.nanos <= first.0.nanos);
        }
    }
    assert(both[at + 1] == one[at]);
}

/// Two timers for the same instant fire together: at any time `now`, either both
/// have fired or neither has. Between them the one that was scheduled first
/// comes first.
pub proof fn lemma_timer_order_tie<V>(
    entries: Seq<(Instant, V)>,
    first: (Instant, V),
    second: (Instant, V),
    now: Instant,
)
    requires
        chronological(entries),
        first.0 == second.0,
    ensures
        ({
            let one = scheduled(entries, first);
            let both = scheduled(one, second);
            let at_first = due(entries, first.0) as int;
            let at_second = due(one, second.0) as int;
            &&& at_second == at_first + 1
            &&& both[at_first] == first
            &&& both[at_second] == second
            &&& at_second < due(both, now) <==> at_first < due(both, now)
        }),
{
    let one = scheduled(entries, first);
    let both = scheduled(one, second);
    let at_first = due(entries, first.0) as int;
    let at_second = due(one, second.0) as int;
    lemma_timer_order(entries, first, second, now);
    lemma_scheduled(entries, first);
    lemma_scheduled(one, second);
    lemma_due_splits(both, now);
}

/// What the reactor's thread does until it is woken again.
#[derive(Clone, Copy, Debug, PartialEq, Eq, Structural)]
pub enum Park {
    /// Nothing is scheduled: sleep until a timer is added.
    Indefinitely,
    /// Sleep for at most this long: then the next timer is due.
    Timeout(crate::time::Duration),
}

/// The state shared between a reactor and the thread that polls it.
pub struct Shared<W> {
    pub queue: Queue<W>,
}

impl<W> Shared<W> {
    /// No timers.
    pub fn new() -> (shared: Shared<W>)
        ensures
            shared.queue@ == Seq::<(Instant, W)>::empty(),
            shared.queue.wf(),
    {
        Shared { queue: Queue::new() }
    }

    /// Takes out the wakers of all timers that are due at `now`, in firing order,
    /// and tells the instant of the earliest timer that is left.
    pub fn poll(now: Instant, shared: &mut Shared<W>) -> (woken: (Vec<W>, Option<Instant>))
        requires
            old(shared).queue.wf(),
        ensures
            final(shared).queue.wf(),
            due(old(shared).queue@, now) <= old(shared).queue@.len(),
            woken.0@ == values(old(shared).queue@.take(due(old(shared).queue@, now) as int)),
            final(shared).queue@ == old(shared).queue@.skip(due(old(shared).queue@, now) as int),
            woken.1 == (if final(shared).queue@.len() == 0 {
                None::<Instant>
            } else {
                Some(final(shared).queue@[0].0)
            }),
            woken.1 matches Some(next) ==> next.nanos > now.nanos,
    {
        let delays = shared.queue.drain_until(now);
        let next = shared.queue.peek_next();
        (delays, next)
    }
}

/// A minimal reactor that powers delayed actions: a timer queue, and whether a
/// thread of its own is parked on it.
pub struct Reactor<W> {
    shared: Shared<W>,
    threaded: bool,
}

impl<W> Reactor<W> {
    /// The timers in firing order.
    pub closed spec fn timers(&self) -> Seq<(Instant, W)> {
        self.shared.queue@
    }

    /// Whether a parked thread polls this reactor.
    pub closed spec fn is_threaded(&self) -> bool {
        self.threaded
    }

    /// The timers are in firing order.
    pub closed spec fn wf(&self) -> bool {
        self.shared.queue.wf()
    }

    /// A reactor without a thread: timers fire only when it is polled.
    pub fn new() -> (reactor: Reactor<W>)
        ensures
            reactor.wf(),
            reactor.timers() == Seq::<(Instant, W)>::empty(),
            !reactor.is_threaded(),
    {
        Reactor { shared: Shared::new(), threaded: false }
    }

    /// A reactor whose owner runs a thread that parks between timers.
    pub fn with_thread() -> (reactor: Reactor<W>)
        ensures
            reactor.wf(),
            reactor.timers() == Seq::<(Instant, W)>::empty(),
            reactor.is_threaded(),
    {
        Reactor { shared: Shared::new(), threaded: true }
    }

    /// Fires what is due at `now`. Returns the wakers in firing order and the
    /// instant of the next timer, or `now` when none is left.
    pub fn poll(&mut self, now: Instant) -> (woken: (Vec<W>, Instant))
        requires
            old(self).wf(),
        ensures
            final(self).wf(),
            final(self).is_threaded() == old(self).is_threaded(),
            due(old(self).timers(), now) <= old(self).timers().len(),
            woken.0@ == values(old(self).timers().take(due(old(self).timers(), now) as int)),
            final(self).timers() == old(self).timers().skip(due(old(self).timers(), now) as int),
            woken.1 == (if final(self).timers().len() == 0 {
                now
            } else {
                final(self).timers()[0].0
            }),
    {
        let (wakers, next) = Shared::poll(now, &mut self.shared);
        match next {
            Some(when) => (wakers, when),
            None => (wakers, now),
        }
    }

    /// One round of the reactor's thread: fires what is due at `now` and says how
    /// long to park.
    pub fn turn(&mut self, now: Instant) -> (woken: (Vec<W>, Park))
        requires
            old(self).wf(),
        ensures
            final(self).wf(),
            final(self).is_threaded() == old(self).is_threaded(),
            due(old(self).timers(), now) <= old(self).timers().len(),
            woken.0@ == values(old(self).timers().take(due(old(self).timers(), now) as int)),
            final(self).timers() == old(self).timers().skip(due(old(self).timers(), now) as int),
            woken.1 == (if final(self).timers().len() == 0 {
                Park::Indefinitely
            } else {
                Park::Timeout(
                    crate::time::Duration {
                        nanos: (final(self).timers()[0].0.nanos - now.nanos) as u64,
                    },
                )
            }),
    {
        let (wakers, next) = Shared::poll(now, &mut self.shared);
        match next {
            Some(when) => (wakers, Park::Timeout(when.saturating_duration_since(now))),
            None => (wakers, Park::Indefinitely),
        }
    }

    /// Schedules `waker` for `new`. Returns whether the parked thread has to be
    /// woken: it has when the reactor has one and the new timer is earlier than
    /// all that it knows of.
    pub fn add(&mut self, new: Instant, waker: W) -> (unpark: bool)
        requires
            old(self).wf(),
        ensures
            final(self).wf(),
            final(self).is_threaded() == old(self).is_threaded(),
            final(self).timers() == scheduled(old(self).timers(), (new, waker)),
            unpark == (old(self).is_threaded() && (old(self).timers().len() == 0 || new.nanos
                < old(self).timers()[0].0.nanos)),
    {
        let next = self.shared.queue.peek_next();
        self.shared.queue.insert(new, waker);
        match next {
            None => self.threaded,
            Some(pending) => self.threaded && new.nanos < pending.nanos,
        }
    }
}

} // verus!
