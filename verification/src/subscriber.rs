//! One attached subscriber: an identifier, a bounded queue of pending messages and
//! a flag that says whether its connection is still open.

use crate::message::contents;
use crate::signal::share_signal;
use bytes::Bytes;
use std::collections::VecDeque;
use std::sync::Arc;
use tokio::sync::Notify;
use vstd::prelude::*;

verus! {

/// Why a subscriber did not take a message.
#[derive(Clone, Copy, Debug, PartialEq, Eq, Structural)]
pub enum EnqueueError {
    /// The queue already holds as many messages as it may.
    QueueFull,
    /// The connection behind the subscriber was closed.
    Disconnected,
}

/// What the consuming side finds when it asks for the next message.
pub enum Drained {
    /// The oldest pending message, now taken out of the queue.
    Message(Bytes),
    /// Nothing is pending; the connection stays open and waits.
    Pending,
    /// The stream is over and stays over.
    Ended,
}

/// What a `Drained` holds, with the message as its bytes.
pub enum DrainedView {
    Message(Seq<u8>),
    Pending,
    Ended,
}

impl View for Drained {
    type V = DrainedView;

    open spec fn view(&self) -> DrainedView {
        match *self {
            Drained::Message(message) => DrainedView::Message(contents(message)),
            Drained::Pending => DrainedView::Pending,
            Drained::Ended => DrainedView::Ended,
        }
    }
}

/// The state of a subscriber as plain values.
pub struct SubscriberView {
    pub id: u64,
    pub capacity: nat,
    /// The messages not yet taken by the connection, the oldest first.
    pub pending: Seq<Seq<u8>>,
    pub open: bool,
}

impl SubscriberView {
    /// A subscriber that has just been attached and has received nothing.
    pub open spec fn fresh(id: u64, capacity: nat) -> SubscriberView {
        SubscriberView { id, capacity, pending: Seq::empty(), open: true }
    }

    /// The queue never holds more than its capacity.
    pub open spec fn wf(self) -> bool {
        self.pending.len() <= self.capacity
    }

    /// Whether the next message offered will be taken.
    pub open spec fn accepts(self) -> bool {
        self.open && self.pending.len() < self.capacity
    }

    /// The reason for which a message is refused, where it is.
    pub open spec fn refusal(self) -> EnqueueError {
        if !self.open {
            EnqueueError::Disconnected
        } else {
            EnqueueError::QueueFull
        }
    }

    /// The state after `message` was offered: appended where it is taken, dropped
    /// where it is not.
    pub open spec fn after_enqueue(self, message: Seq<u8>) -> SubscriberView {
        if self.accepts() {
            SubscriberView { pending: self.pending.push(message), ..self }
        } else {
            self
        }
    }

    /// What the connection is handed when it asks for the next message.
    pub open spec fn next(self) -> DrainedView {
        if !self.open {
            DrainedView::Ended
        } else if self.pending.len() == 0 {
            DrainedView::Pending
        } else {
            DrainedView::Message(self.pending[0])
        }
    }

    /// The state after the connection asked for the next message.
    pub open spec fn after_next(self) -> SubscriberView {
        if self.open && self.pending.len() > 0 {
            SubscriberView { pending: self.pending.subrange(1, self.pending.len() as int), ..self }
        } else {
            self
        }
    }

    /// The state after the connection asked for its next message `count` times.
    pub open spec fn after_polls(self, count: nat) -> SubscriberView
        decreases count,
    {
        if count == 0 {
            self
        } else {
            self.after_polls((count - 1) as nat).after_next()
        }
    }

    /// The state after the connection was closed: nothing pending, nothing accepted.
    pub open spec fn after_close(self) -> SubscriberView {
        SubscriberView { pending: Seq::empty(), open: false, ..self }
    }
}

pub struct Subscriber {
    id: u64,
    capacity: usize,
    pending: VecDeque<Bytes>,
    open: bool,
    /// Raised whenever the connection has something new to see.
    wake: Arc<Notify>,
}

impl View for Subscriber {
    type V = SubscriberView;

    closed spec fn view(&self) -> SubscriberView {
        SubscriberView {
            id: self.id,
            capacity: self.capacity as nat,
            pending: self.pending@.map_values(|message: Bytes| contents(message)),
            open: self.open,
        }
    }
}

impl Subscriber {
    /// A subscriber with an empty queue of the given capacity and an open connection.
    pub fn new(id: u64, capacity: usize) -> (subscriber: Subscriber)
        ensures
            subscriber@ == SubscriberView::fresh(id, capacity as nat),
    {
        let subscriber = Subscriber {
            id,
            capacity,
            pending: VecDeque::new(),
            open: true,
            wake: Arc::new(Notify::new()),
        };
        assert(subscriber@.pending =~= Seq::empty());
        subscriber
    }

    pub fn id(&self) -> (id: u64)
        ensures
            id == self@.id,
    {
        self.id
    }

    pub fn capacity(&self) -> (capacity: usize)
        ensures
            capacity == self@.capacity,
    {
        self.capacity
    }

    /// The number of messages that wait in the queue.
    pub fn pending(&self) -> (count: usize)
        ensures
            count == self@.pending.len(),
    {
        broadcast use vstd::std_specs::vecdeque::group_vec_dequeue_axioms;

        self.pending.len()
    }

    pub fn is_open(&self) -> (open: bool)
        ensures
            open == self@.open,
    {
        self.open
    }

    /// The signal of this subscriber. It is the same for as long as the
    /// subscriber exists.
    pub closed spec fn wake_signal(&self) -> Arc<Notify> {
        self.wake
    }

    /// The signal on which the connection waits while nothing is pending. It is
    /// raised whenever a message is taken into the queue and when the subscriber
    /// leaves the live set.
    pub fn signal(&self) -> (signal: Arc<Notify>)
        ensures
            signal == self.wake_signal(),
    {
        share_signal(&self.wake)
    }

    /// Wakes the connection, so that it looks at its stream again.
    pub(crate) fn wake(&self) {
        self.wake.notify_one();
    }

    /// Offers `message` without ever waiting. A closed or full subscriber refuses
    /// it and stays as it was; otherwise the message goes to the end of the queue.
    pub fn enqueue(&mut self, message: Bytes) -> (outcome: Result<(), EnqueueError>)
        ensures
            final(self)@ == old(self)@.after_enqueue(contents(message)),
            final(self).wake_signal() == old(self).wake_signal(),
            outcome == if old(self)@.accepts() {
                Ok::<(), EnqueueError>(())
            } else {
                Err::<(), EnqueueError>(old(self)@.refusal())
            },
    {
        broadcast use vstd::std_specs::vecdeque::group_vec_dequeue_axioms;

        if !self.open {
            return Err(EnqueueError::Disconnected);
        }
        if self.pending.len() >= self.capacity {
            return Err(EnqueueError::QueueFull);
        }
        self.pending.push_back(message);
        self.wake.notify_one();
        assert(self@.pending =~= old(self)@.pending.push(contents(message)));
        Ok(())
    }

    /// Takes the oldest pending message, if the connection is open and one waits.
    pub fn poll_next(&mut self) -> (drained: Drained)
        ensures
            drained@ == old(self)@.next(),
            final(self)@ == old(self)@.after_next(),
            final(self).wake_signal() == old(self).wake_signal(),
    {
        if !self.open {
            return Drained::Ended;
        }
        match self.pending.pop_front() {
            Some(message) => {
                assert(self@.pending =~= old(self)@.pending.subrange(
                    1,
                    old(self)@.pending.len() as int,
                ));
                Drained::Message(message)
            },
            None => Drained::Pending,
        }
    }

    /// Records that the connection is gone. What was pending is let go, and from
    /// now on every message is refused and the stream has ended.
    pub fn close(&mut self)
        ensures
            final(self)@ == old(self)@.after_close(),
            final(self).wake_signal() == old(self).wake_signal(),
    {
        self.open = false;
        self.pending.clear();
        assert(self@.pending =~= Seq::empty());
    }
}

/// A message offered to a subscriber with room is the last of its queue, behind
/// all that was pending, and is there once more than before.
pub proof fn lemma_enqueue_appends(subscriber: SubscriberView, message: Seq<u8>)
    requires
        subscriber.accepts(),
    ensures
        subscriber.after_enqueue(message).pending == subscriber.pending + seq![message],
        subscriber.after_enqueue(message).pending.last() == message,
        subscriber.after_enqueue(message).wf(),
{
    assert(subscriber.pending.push(message) =~= subscriber.pending + seq![message]);
}

/// Offering a message keeps a well-formed subscriber well-formed, and never
/// changes what was already pending.
pub proof fn lemma_enqueue_keeps_prefix(subscriber: SubscriberView, message: Seq<u8>)
    requires
        subscriber.wf(),
    ensures
        subscriber.after_enqueue(message).wf(),
        subscriber.after_enqueue(message).id == subscriber.id,
        subscriber.after_enqueue(message).open == subscriber.open,
        subscriber.pending.is_prefix_of(subscriber.after_enqueue(message).pending),
{
}

/// An open connection is handed the pending messages one by one in the order
/// in which they were taken into the queue, and finds nothing once all are out.
pub proof fn lemma_drain_is_fifo(subscriber: SubscriberView, count: nat)
    requires
        subscriber.open,
        count <= subscriber.pending.len(),
    ensures
        subscriber.after_polls(count).pending == subscriber.pending.skip(count as int),
        subscriber.after_polls(count).open,
        subscriber.after_polls(count).id == subscriber.id,
        subscriber.after_polls(count).capacity == subscriber.capacity,
        count < subscriber.pending.len() ==> subscriber.after_polls(count).next()
            == DrainedView::Message(subscriber.pending[count as int]),
        count == subscriber.pending.len() ==> subscriber.after_polls(count).next()
            == DrainedView::Pending,
    decreases count,
{
    if count == 0 {
        assert(subscriber.pending.skip(0) =~= subscriber.pending);
    } else {
        lemma_drain_is_fifo(subscriber, (count - 1) as nat);
        let before = subscriber.after_polls((count - 1) as nat);
        assert(before.pending.subrange(1, before.pending.len() as int) =~= subscriber.pending.skip(
            count as int,
        ));
    }
}

/// Once closed, a subscriber refuses every message and its stream has ended,
/// whatever is done to it afterwards.
pub proof fn lemma_closed_stays_closed(subscriber: SubscriberView, message: Seq<u8>)
    requires
        !subscriber.open,
    ensures
        !subscriber.accepts(),
        subscriber.after_enqueue(message) == subscriber,
        subscriber.next() == DrainedView::Ended,
        subscriber.after_next() == subscriber,
        !subscriber.after_close().open,
{
}

} // verus!
