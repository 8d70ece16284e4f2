//! The action channel: many senders, one receiver.
//!
//! The channel's state is a plain value, [`Shared`]. Whoever owns it decides how it
//! is shared (behind a lock, or on one thread); every operation here takes it as an
//! argument, changes it in one step, and hands back what has to happen once the
//! state is released again: a waker to wake, barriers to wait on.

use std::collections::VecDeque;
use std::marker::PhantomData;
use vstd::prelude::*;

verus! {

/// What travels through the channel.
pub enum Msg<T, B> {
    /// A value for the receiver.
    Value(T),
    /// A meeting point: the receiver waits on it when it gets there, and so
    /// releases the sender that waits on it too.
    Barrier(B),
}

/// The outcome of polling the receiver.
pub enum Poll<T> {
    /// The next value, or `None` when the channel has ended.
    Ready(Option<T>),
    /// Nothing to receive yet. The waker has been stored.
    Pending,
}

/// The number of barriers at the head of `msgs`.
pub open spec fn leading_barriers<T, B>(msgs: Seq<Msg<T, B>>) -> nat
    decreases msgs.len(),
{
    if msgs.len() > 0 && msgs[0] is Barrier {
        1 + leading_barriers(msgs.drop_first())
    } else {
        0
    }
}

/// The barriers among `msgs`, in order.
pub open spec fn barriers<T, B>(msgs: Seq<Msg<T, B>>) -> Seq<B>
    decreases msgs.len(),
{
    if msgs.len() == 0 {
        Seq::empty()
    } else {
        match msgs.last() {
            Msg::Barrier(barrier) => barriers(msgs.drop_last()).push(barrier),
            Msg::Value(_) => barriers(msgs.drop_last()),
        }
    }
}

/// The values among `msgs`, in order.
pub open spec fn payload<T, B>(msgs: Seq<Msg<T, B>>) -> Seq<T>
    decreases msgs.len(),
{
    if msgs.len() == 0 {
        Seq::empty()
    } else {
        match msgs.last() {
            Msg::Value(value) => payload(msgs.drop_last()).push(value),
            Msg::Barrier(_) => payload(msgs.drop_last()),
        }
    }
}

/// No barrier stands at the head of `msgs`. A barrier is always enqueued directly
/// behind its value, and the receiver takes a value out of the queue together with
/// everything behind it, so the queue never starts with a barrier.
pub open spec fn starts_with_value<T, B>(msgs: Seq<Msg<T, B>>) -> bool {
    msgs.len() > 0 ==> msgs[0] is Value
}

/// `leading_barriers` never counts more messages than there are, counts only
/// barriers, and stops at a value.
pub proof fn lemma_leading_barriers<T, B>(msgs: Seq<Msg<T, B>>)
    ensures
        leading_barriers(msgs) <= msgs.len(),
        forall|i: int| 0 <= i < leading_barriers(msgs) ==> (#[trigger] msgs[i]) is Barrier,
        leading_barriers(msgs) < msgs.len() ==> msgs[leading_barriers(msgs) as int] is Value,
    decreases msgs.len(),
{
    if msgs.len() > 0 && msgs[0] is Barrier {
        let rest = msgs.drop_first();
        lemma_leading_barriers(rest);
        assert forall|i: int| 0 <= i < leading_barriers(msgs) implies (
        #[trigger] msgs[i]) is Barrier by {
            if i > 0 {
                assert(msgs[i] == rest[i - 1]);
            }
        }
        if leading_barriers(msgs) < msgs.len() {
            assert(msgs[leading_barriers(msgs) as int] == rest[leading_barriers(rest) as int]);
        }
    }
}

/// Barriers at the head of a run of messages that is followed by one that starts
/// with a value are the barriers at the head of both together.
pub proof fn lemma_leading_barriers_concat<T, B>(front: Seq<Msg<T, B>>, back: Seq<Msg<T, B>>)
    requires
        starts_with_value(back),
    ensures
        leading_barriers(front + back) == leading_barriers(front),
    decreases front.len(),
{
    if front.len() == 0 {
        assert(front + back =~= back);
    } else if front[0] is Barrier {
        assert((front + back).drop_first() =~= front.drop_first() + back);
        lemma_leading_barriers_concat(front.drop_first(), back);
    }
}

/// The payload of two runs of messages, one after the other.
pub proof fn lemma_payload_concat<T, B>(front: Seq<Msg<T, B>>, back: Seq<Msg<T, B>>)
    ensures
        payload(front + back) == payload(front) + payload(back),
    decreases back.len(),
{
    if back.len() == 0 {
        assert(front + back =~= front);
        assert(payload(front) + payload(back) =~= payload(front));
    } else {
        let all = front + back;
        assert(all.drop_last() =~= front + back.drop_last());
        assert(all.last() == back.last());
        lemma_payload_concat(front, back.drop_last());
        match back.last() {
            Msg::Value(value) => {
                assert(payload(front) + payload(back.drop_last()).push(value) =~= (payload(front)
                    + payload(back.drop_last())).push(value));
            },
            Msg::Barrier(_) => {},
        }
    }
}

/// A run of barriers carries no payload.
pub proof fn lemma_payload_of_barriers<T, B>(msgs: Seq<Msg<T, B>>)
    requires
        forall|i: int| 0 <= i < msgs.len() ==> (#[trigger] msgs[i]) is Barrier,
    ensures
        payload(msgs) == Seq::<T>::empty(),
    decreases msgs.len(),
{
    if msgs.len() > 0 {
        let rest = msgs.drop_last();
        assert forall|i: int| 0 <= i < rest.len() implies (#[trigger] rest[i]) is Barrier by {
            assert(rest[i] == msgs[i]);
        }
        lemma_payload_of_barriers(rest);
        assert(msgs.last() == msgs[msgs.len() - 1]);
    }
}

/// The payload of a value followed by more messages.
pub proof fn lemma_payload_first<T, B>(msgs: Seq<Msg<T, B>>)
    requires
        msgs.len() > 0,
        msgs[0] is Value,
    ensures
        payload(msgs) == seq![msgs[0]->Value_0] + payload(msgs.skip(1)),
{
    let first = seq![msgs[0]];
    assert(msgs =~= first + msgs.skip(1));
    lemma_payload_concat(first, msgs.skip(1));
    assert(first.drop_last() =~= Seq::<Msg<T, B>>::empty());
    assert(first.last() == msgs[0]);
    assert(payload(first.drop_last()) =~= Seq::<T>::empty());
    assert(payload(first) =~= seq![msgs[0]->Value_0]);
}

/// The state of a channel.
pub struct Shared<T, B, W> {
    queue: VecDeque<Msg<T, B>>,
    waker: Option<W>,
    strong: usize,
}

impl<T, B, W> Shared<T, B, W> {
    /// The messages that were sent and not yet taken by the receiver.
    pub closed spec fn queue(&self) -> Seq<Msg<T, B>> {
        self.queue@
    }

    /// The waker of a receiver that found nothing to receive.
    pub closed spec fn waker(&self) -> Option<W> {
        self.waker
    }

    /// The number of handles that keep the channel alive: the senders, and the
    /// receiver once it exists.
    pub closed spec fn strong(&self) -> nat {
        self.strong as nat
    }

    /// The queue does not start with a barrier.
    pub open spec fn wf(&self) -> bool {
        starts_with_value(self.queue())
    }

    /// The number of live handles.
    pub fn strong_count(&self) -> (count: usize)
        ensures
            count == self.strong(),
    {
        self.strong
    }

    /// The number of messages waiting in the queue.
    pub fn len(&self) -> (len: usize)
        ensures
            len == self.queue().len(),
    {
        self.queue.len()
    }
}

/// The sending side of a channel. Each `Sender` counts as one live handle.
pub struct Sender<T> {
    marker: PhantomData<T>,
}

/// A sender that does not keep the channel alive.
pub struct WeakSender<T> {
    marker: PhantomData<T>,
}

/// The receiving side of a channel.
pub struct Receiver<T, B> {
    buffer: VecDeque<Msg<T, B>>,
}

/// The receiver that a new channel is made with: it does not keep the channel
/// alive until it is upgraded.
pub struct WeakReceiver<T> {
    marker: PhantomData<T>,
}

impl<T> Sender<T> {
    /// Enqueues `value`. Returns the waker to wake once the state is released.
    pub fn send<B, W>(&self, shared: &mut Shared<T, B, W>, value: T) -> (waker: Option<W>)
        requires
            old(shared).wf(),
        ensures
            final(shared).wf(),
            final(shared).queue() == old(shared).queue().push(Msg::Value(value)),
            final(shared).waker() == None::<W>,
            final(shared).strong() == old(shared).strong(),
            waker == old(shared).waker(),
            payload(final(shared).queue()) == payload(old(shared).queue()).push(value),
    {
        let waker = shared.waker.take();
        shared.queue.push_back(Msg::Value(value));
        proof {
            let after = shared.queue@;
            assert(after.drop_last() =~= old(shared).queue@);
        }
        waker
    }

    /// Enqueues `value` and, directly behind it, `barrier`. Returns the waker to
    /// wake once the state is released; the caller then waits on the barrier, which
    /// the receiver reaches only after it has handed out `value` and been polled
    /// again.
    pub fn sync<B, W>(&self, shared: &mut Shared<T, B, W>, value: T, barrier: B) -> (waker:
        Option<W>)
        requires
            old(shared).wf(),
        ensures
            final(shared).wf(),
            final(shared).queue() == old(shared).queue().push(Msg::Value(value)).push(
                Msg::Barrier(barrier),
            ),
            final(shared).waker() == None::<W>,
            final(shared).strong() == old(shared).strong(),
            waker == old(shared).waker(),
            payload(final(shared).queue()) == payload(old(shared).queue()).push(value),
    {
        let waker = shared.waker.take();
        shared.queue.push_back(Msg::Value(value));
        shared.queue.push_back(Msg::Barrier(barrier));
        proof {
            let before = old(shared).queue@;
            let middle = before.push(Msg::Value(value));
            let after = shared.queue@;
            assert(after.drop_last() =~= middle);
            assert(middle.drop_last() =~= before);
            assert(after.last() == Msg::<T, B>::Barrier(barrier));
            assert(middle.last() == Msg::<T, B>::Value(value));
            assert(payload(after) == payload(middle));
        }
        waker
    }

    /// A handle that can become a sender again for as long as the channel lives.
    pub fn downgrade(&self) -> (weak: WeakSender<T>) {
        WeakSender { marker: PhantomData }
    }

    /// One more sender for the same channel.
    pub fn clone<B, W>(&self, shared: &mut Shared<T, B, W>) -> (sender: Sender<T>)
        requires
            old(shared).strong() < usize::MAX,
        ensures
            final(shared).queue() == old(shared).queue(),
            final(shared).waker() == old(shared).waker(),
            final(shared).strong() == old(shared).strong() + 1,
    {
        shared.strong = shared.strong + 1;
        Sender { marker: PhantomData }
    }

    /// Gives the handle up. Returns the waker to wake once the state is released,
    /// so that the receiver can see whether the channel has ended.
    pub fn drop<B, W>(self, shared: &mut Shared<T, B, W>) -> (waker: Option<W>)
        requires
            old(shared).strong() > 0,
        ensures
            final(shared).queue() == old(shared).queue(),
            final(shared).waker() == None::<W>,
            final(shared).strong() == old(shared).strong() - 1,
            waker == old(shared).waker(),
    {
        let waker = shared.waker.take();
        shared.strong = shared.strong - 1;
        waker
    }
}

impl<T> WeakSender<T> {
    /// A sender, if the channel is still alive.
    pub fn upgrade<B, W>(&self, shared: &mut Shared<T, B, W>) -> (sender: Option<Sender<T>>)
        requires
            old(shared).strong() < usize::MAX,
        ensures
            sender is Some <==> old(shared).strong() > 0,
            final(shared).queue() == old(shared).queue(),
            final(shared).waker() == old(shared).waker(),
            final(shared).strong() == (if old(shared).strong() > 0 {
                old(shared).strong() + 1
            } else {
                0
            }),
    {
        if shared.strong > 0 {
            shared.strong = shared.strong + 1;
            Some(Sender { marker: PhantomData })
        } else {
            None
        }
    }

    /// One more weak sender for the same channel.
    pub fn clone(&self) -> (weak: WeakSender<T>) {
        WeakSender { marker: PhantomData }
    }
}

impl<T> WeakReceiver<T> {
    /// The receiver, if the channel is still alive. It starts with an empty buffer.
    pub fn upgrade<B, W>(self, shared: &mut Shared<T, B, W>) -> (receiver: Option<Receiver<T, B>>)
        requires
            old(shared).strong() < usize::MAX,
        ensures
            receiver is Some <==> old(shared).strong() > 0,
            receiver matches Some(r) ==> r.buffer() == Seq::<Msg<T, B>>::empty(),
            final(shared).queue() == old(shared).queue(),
            final(shared).waker() == old(shared).waker(),
            final(shared).strong() == (if old(shared).strong() > 0 {
                old(shared).strong() + 1
            } else {
                0
            }),
    {
        if shared.strong > 0 {
            shared.strong = shared.strong + 1;
            Some(Receiver { buffer: VecDeque::new() })
        } else {
            None
        }
    }
}

impl<T, B> Receiver<T, B> {
    /// The messages that the receiver took out of the channel and has not handed
    /// out yet.
    pub closed spec fn buffer(&self) -> Seq<Msg<T, B>> {
        self.buffer@
    }

    /// All that is in the channel, in the order in which the receiver gets to it:
    /// first its own buffer, then the queue.
    pub open spec fn inbox<W>(&self, shared: &Shared<T, B, W>) -> Seq<Msg<T, B>> {
        self.buffer() + shared.queue()
    }

    /// The values still to be received, in the order in which they will come.
    pub open spec fn pending<W>(&self, shared: &Shared<T, B, W>) -> Seq<T> {
        payload(self.inbox(shared))
    }

    /// Polls for the next value.
    ///
    /// Barriers at the head of the buffer are passed first; they are returned, in
    /// order, for the caller to wait on. Then comes the first value of the buffer.
    /// When the buffer holds none, the receiver takes the first value of the queue
    /// and moves the rest of the queue into its buffer. When the queue is empty
    /// too, the channel has ended if the receiver is the only live handle;
    /// otherwise `waker` is stored and the poll is pending.
    pub fn poll_next<W>(&mut self, shared: &mut Shared<T, B, W>, waker: W) -> (polled: (
        Vec<B>,
        Poll<T>,
    ))
        requires
            old(shared).wf(),
        ensures
            final(shared).wf(),
            final(shared).strong() == old(shared).strong(),
            leading_barriers(old(self).buffer()) <= old(self).buffer().len(),
            polled.0@ == barriers(
                old(self).buffer().take(leading_barriers(old(self).buffer()) as int),
            ),
            leading_barriers(old(self).buffer()) < old(self).buffer().len() ==> {
                let at = leading_barriers(old(self).buffer()) as int;
                &&& old(self).buffer()[at] is Value
                &&& polled.1 == Poll::Ready(Some(old(self).buffer()[at]->Value_0))
                &&& final(self).buffer() == old(self).buffer().skip(at + 1)
                &&& final(shared).queue() == old(shared).queue()
                &&& final(shared).waker() == old(shared).waker()
            },
            leading_barriers(old(self).buffer()) == old(self).buffer().len() && old(
                shared,
            ).queue().len() > 0 ==> {
                &&& old(shared).queue()[0] is Value
                &&& polled.1 == Poll::Ready(Some(old(shared).queue()[0]->Value_0))
                &&& final(self).buffer() == old(shared).queue().skip(1)
                &&& final(shared).queue() == Seq::<Msg<T, B>>::empty()
                &&& final(shared).waker() == old(shared).waker()
            },
            leading_barriers(old(self).buffer()) == old(self).buffer().len() && old(
                shared,
            ).queue().len() == 0 ==> {
                &&& final(self).buffer() == Seq::<Msg<T, B>>::empty()
                &&& final(shared).queue() == Seq::<Msg<T, B>>::empty()
                &&& polled.1 == (if old(shared).strong() == 1 {
                    Poll::Ready(None::<T>)
                } else {
                    Poll::Pending
                })
                &&& final(shared).waker() == (if old(shared).strong() == 1 {
                    old(shared).waker()
                } else {
                    Some(waker)
                })
            },
            ({
                let inbox = old(self).inbox(old(shared));
                let passed = leading_barriers(inbox) as int;
                &&& passed <= inbox.len()
                &&& polled.0@ == barriers(inbox.take(passed))
                &&& passed < inbox.len() ==> inbox[passed] is Value && polled.1 == Poll::Ready(
                    Some(inbox[passed]->Value_0),
                ) && final(self).inbox(final(shared)) == inbox.skip(passed + 1)
                &&& passed == inbox.len() ==> final(self).inbox(final(shared)) == Seq::<
                    Msg<T, B>,
                >::empty() && polled.1 == (if old(shared).strong() == 1 {
                    Poll::Ready(None::<T>)
                } else {
                    Poll::Pending
                })
            }),
            polled.1 matches Poll::Ready(Some(value)) ==> old(self).pending(old(shared)) == seq![
                value,
            ] + final(self).pending(final(shared)),
            !(polled.1 matches Poll::Ready(Some(_))) ==> old(self).pending(old(shared))
                == Seq::<T>::empty() && final(self).pending(final(shared)) == Seq::<T>::empty(),
    {
        let ghost buffer = self.buffer@;
        let ghost queue = shared.queue@;
        let ghost lead = leading_barriers(buffer) as int;
        proof {
            lemma_leading_barriers(buffer);
        }
        let mut passed: Vec<B> = Vec::new();
        while self.buffer.len() > 0
            invariant
                old(shared).wf(),
                buffer == old(self).buffer@,
                lead == leading_barriers(buffer),
                self.buffer@.len() + passed@.len() == buffer.len(),
                passed@.len() <= lead <= buffer.len(),
                self.buffer@ == buffer.skip(passed@.len() as int),
                passed@ == barriers(buffer.take(passed@.len() as int)),
                forall|i: int| 0 <= i < lead ==> (#[trigger] buffer[i]) is Barrier,
                lead < buffer.len() ==> buffer[lead] is Value,
                *shared == *old(shared),
                queue == shared.queue@,
            decreases self.buffer@.len(),
        {
            let ghost done = passed@.len() as int;
            match self.buffer.pop_front() {
                Some(Msg::Value(value)) => {
                    proof {
                        assert(buffer[done] is Value);
                        assert(done == lead);
                        assert(self.buffer@ =~= buffer.skip(lead + 1));
                        let head = buffer.take(lead + 1);
                        assert(buffer.skip(0) =~= buffer);
                        assert(buffer + queue =~= head + (buffer.skip(lead + 1) + queue));
                        lemma_payload_concat(head, buffer.skip(lead + 1) + queue);
                        assert(head =~= buffer.take(lead) + seq![buffer[lead]]);
                        lemma_payload_concat(buffer.take(lead), seq![buffer[lead]]);
                        lemma_payload_of_barriers(buffer.take(lead));
                        lemma_payload_first(seq![buffer[lead]]);
                        assert(seq![buffer[lead]].skip(1) =~= Seq::<Msg<T, B>>::empty());
                        assert(payload(head) =~= seq![value]);
                        lemma_leading_barriers_concat(buffer, queue);
                        assert((buffer + queue).take(lead) =~= buffer.take(lead));
                        assert((buffer + queue).skip(lead + 1) =~= buffer.skip(lead + 1) + queue);
                    }
                    return (passed, Poll::Ready(Some(value)));
                },
                Some(Msg::Barrier(barrier)) => {
                    passed.push(barrier);
                    proof {
                        assert(self.buffer@ =~= buffer.skip(done + 1));
                        assert(buffer.take(done + 1).drop_last() =~= buffer.take(done));
                        assert(buffer.take(done + 1).last() == buffer[done]);
                        assert(done < lead);
                    }
                },
                None => {},
            }
        }
        proof {
            assert(passed@.len() == buffer.len());
            assert(lead == buffer.len());
            assert(buffer.take(buffer.len() as int) =~= buffer);
            lemma_payload_of_barriers(buffer);
            lemma_payload_concat(buffer, queue);
            assert(payload(buffer + queue) =~= payload(queue));
            assert(self.buffer@ =~= Seq::<Msg<T, B>>::empty());
            lemma_leading_barriers_concat(buffer, queue);
            assert((buffer + queue).take(lead) =~= buffer);
            if queue.len() > 0 {
                assert((buffer + queue).skip(lead + 1) =~= queue.skip(1));
                assert((buffer + queue)[lead] == queue[0]);
            } else {
                assert(buffer + queue =~= buffer);
            }
        }
        match shared.queue.pop_front() {
            Some(Msg::Value(value)) => {
                std::mem::swap(&mut shared.queue, &mut self.buffer);
                proof {
                    assert(self.buffer@ =~= queue.skip(1));
                    assert(shared.queue@ =~= Seq::<Msg<T, B>>::empty());
                    lemma_payload_first(queue);
                    assert(self.buffer@ + shared.queue@ =~= queue.skip(1));
                }
                (passed, Poll::Ready(Some(value)))
            },
            Some(Msg::Barrier(_)) => {
                // A barrier always follows a value, and was moved into the buffer
                // together with what followed that value.
                assert(queue[0] is Barrier);
                vstd::pervasive::unreached()
            },
            None => {
                proof {
                    assert(self.buffer@ + shared.queue@ =~= Seq::<Msg<T, B>>::empty());
                    assert(queue =~= Seq::<Msg<T, B>>::empty());
                }
                if shared.strong == 1 {
                    (passed, Poll::Ready(None))
                } else {
                    shared.waker = Some(waker);
                    (passed, Poll::Pending)
                }
            },
        }
    }

    /// Gives the receiver up.
    pub fn drop<W>(self, shared: &mut Shared<T, B, W>)
        requires
            old(shared).strong() > 0,
        ensures
            final(shared).queue() == old(shared).queue(),
            final(shared).waker() == old(shared).waker(),
            final(shared).strong() == old(shared).strong() - 1,
    {
        shared.strong = shared.strong - 1;
    }
}

/// A new channel: its state, one sender, and the receiver still to be upgraded.
pub fn channel<T, B, W>() -> (made: (Sender<T>, WeakReceiver<T>, Shared<T, B, W>))
    ensures
        made.2.wf(),
        made.2.queue() == Seq::<Msg<T, B>>::empty(),
        made.2.waker() == None::<W>,
        made.2.strong() == 1,
{
    let shared = Shared { queue: VecDeque::new(), waker: None, strong: 1 };
    (Sender { marker: PhantomData }, WeakReceiver { marker: PhantomData }, shared)
}

} // verus!
