//! The fan-out unit of one channel: the live set of subscribers, publishing to all
//! of them, and the eviction of those that take no more messages.

use crate::codec::{
    connected_payload, encode, encode_connected, encode_keepalive, frame, keepalive_payload,
};
use crate::message::{contents, share};
use crate::subscriber::{Drained, DrainedView, Subscriber, SubscriberView};
use std::sync::Arc;
use tokio::sync::Notify;
use vstd::prelude::*;

verus! {

/// The state of a broadcaster as plain values.
pub struct BroadcasterView {
    /// The queue capacity given to every subscriber.
    pub capacity: nat,
    /// The identifier that the next subscriber will get.
    pub next_id: u64,
    /// The live set, in the order of attachment.
    pub subscribers: Seq<SubscriberView>,
}

impl BroadcasterView {
    /// A broadcaster to which nobody has subscribed yet.
    pub open spec fn empty(capacity: nat) -> BroadcasterView {
        BroadcasterView { capacity, next_id: 0, subscribers: Seq::empty() }
    }

    /// Every subscriber is well-formed and has the broadcaster's capacity;
    /// identifiers grow along the live set and lie below the next one to give out.
    pub open spec fn wf(self) -> bool {
        &&& forall|i: int|
            0 <= i < self.subscribers.len() ==> {
                &&& (#[trigger] self.subscribers[i]).wf()
                &&& self.subscribers[i].capacity == self.capacity
                &&& self.subscribers[i].id < self.next_id
            }
        &&& forall|i: int, j: int|
            0 <= i < j < self.subscribers.len() ==> (#[trigger] self.subscribers[i]).id < (
            #[trigger] self.subscribers[j]).id
    }

    /// Whether a subscriber with this identifier is in the live set.
    pub open spec fn has(self, id: u64) -> bool {
        exists|i: int| 0 <= i < self.subscribers.len() && (#[trigger] self.subscribers[i]).id == id
    }

    /// The place of the subscriber with this identifier in the live set.
    pub open spec fn position(self, id: u64) -> int {
        choose|i: int| 0 <= i < self.subscribers.len() && (#[trigger] self.subscribers[i]).id == id
    }

    /// The subscriber that `subscribe` adds: fresh, with the greeting offered to it.
    pub open spec fn newcomer(self) -> SubscriberView {
        SubscriberView::fresh(self.next_id, self.capacity).after_enqueue(frame(connected_payload()))
    }

    pub open spec fn after_subscribe(self) -> BroadcasterView {
        BroadcasterView {
            next_id: (self.next_id + 1) as u64,
            subscribers: self.subscribers.push(self.newcomer()),
            ..self
        }
    }

    /// The state after `message` was offered to every subscriber of the live set.
    pub open spec fn after_fan_out(self, message: Seq<u8>) -> BroadcasterView {
        BroadcasterView {
            subscribers: self.subscribers.map_values(
                |subscriber: SubscriberView| subscriber.after_enqueue(message),
            ),
            ..self
        }
    }

    /// The subscribers that take the next message offered.
    pub open spec fn takers(self) -> Seq<SubscriberView> {
        self.subscribers.filter(|subscriber: SubscriberView| subscriber.accepts())
    }

    /// The state after an eviction cycle: who refuses the probe leaves the live
    /// set, who takes it stays, in the same order, with the probe in the queue.
    pub open spec fn after_eviction(self, probe: Seq<u8>) -> BroadcasterView {
        BroadcasterView {
            subscribers: self.takers().map_values(
                |subscriber: SubscriberView| subscriber.after_enqueue(probe),
            ),
            ..self
        }
    }

    /// The subscriber of the live set that has this identifier.
    pub open spec fn subscriber(self, id: u64) -> SubscriberView {
        self.subscribers[self.position(id)]
    }

    /// The state in which `changed` stands in the place of subscriber `id`.
    pub open spec fn with_subscriber(self, id: u64, changed: SubscriberView) -> BroadcasterView {
        BroadcasterView { subscribers: self.subscribers.update(self.position(id), changed), ..self }
    }

    /// What the connection of subscriber `id` is handed next. A subscriber that is
    /// not in the live set, or no longer, finds its stream ended.
    pub open spec fn next_for(self, id: u64) -> DrainedView {
        if self.has(id) {
            self.subscriber(id).next()
        } else {
            DrainedView::Ended
        }
    }

    /// The state after the connection of subscriber `id` asked for its next message.
    pub open spec fn after_next(self, id: u64) -> BroadcasterView {
        if self.has(id) {
            self.with_subscriber(id, self.subscriber(id).after_next())
        } else {
            self
        }
    }

    /// The state after the connection of subscriber `id` was closed. The
    /// subscriber stays in the live set until the next eviction cycle.
    pub open spec fn after_disconnect(self, id: u64) -> BroadcasterView {
        if self.has(id) {
            self.with_subscriber(id, self.subscriber(id).after_close())
        } else {
            self
        }
    }
}

pub struct Broadcaster {
    capacity: usize,
    next_id: u64,
    subscribers: Vec<Subscriber>,
}

impl View for Broadcaster {
    type V = BroadcasterView;

    closed spec fn view(&self) -> BroadcasterView {
        BroadcasterView {
            capacity: self.capacity as nat,
            next_id: self.next_id,
            subscribers: self.subscribers@.map_values(|subscriber: Subscriber| subscriber@),
        }
    }
}

impl Broadcaster {
    pub open spec fn wf(&self) -> bool {
        self@.wf()
    }

    /// A broadcaster with an empty live set, whose subscribers will each get a
    /// queue of `capacity` messages.
    pub fn new(capacity: usize) -> (broadcaster: Broadcaster)
        ensures
            broadcaster@ == BroadcasterView::empty(capacity as nat),
            broadcaster.wf(),
    {
        let broadcaster = Broadcaster { capacity, next_id: 0, subscribers: Vec::new() };
        assert(broadcaster@.subscribers =~= Seq::empty());
        broadcaster
    }

    /// The queue capacity that every subscriber gets.
    pub fn capacity(&self) -> (capacity: usize)
        ensures
            capacity == self@.capacity,
    {
        self.capacity
    }

    /// The number of subscribers in the live set.
    pub fn subscriber_count(&self) -> (count: usize)
        ensures
            count == self@.subscribers.len(),
    {
        self.subscribers.len()
    }

    /// Offers the event that carries `payload` to every subscriber of the live
    /// set, in turn, and returns how many took it. A subscriber that refuses
    /// loses this message and nothing else; it stays in the live set.
    pub fn publish(&mut self, payload: &[u8]) -> (delivered: usize)
        requires
            old(self).wf(),
        ensures
            final(self)@ == old(self)@.after_fan_out(frame(payload@)),
            delivered == old(self)@.takers().len(),
            final(self).wf(),
    {
        let message = encode(payload);
        let ghost event = frame(payload@);
        let ghost accepts = |subscriber: SubscriberView| subscriber.accepts();
        let mut delivered: usize = 0;
        let mut at: usize = 0;
        proof {
            reveal(Seq::filter);
            assert(old(self)@.subscribers.take(0) =~= Seq::empty());
        }
        while at < self.subscribers.len()
            invariant
                at <= self.subscribers.len(),
                self.subscribers.len() == old(self).subscribers.len(),
                self.capacity == old(self).capacity,
                self.next_id == old(self).next_id,
                contents(message) == event,
                accepts == |subscriber: SubscriberView| subscriber.accepts(),
                forall|j: int|
                    0 <= j < at ==> (#[trigger] self.subscribers[j])@ == old(
                        self,
                    ).subscribers[j]@.after_enqueue(event),
                forall|j: int|
                    at <= j < self.subscribers.len() ==> (#[trigger] self.subscribers[j])
                        == old(self).subscribers[j],
                delivered == old(self)@.subscribers.take(at as int).filter(accepts).len(),
                delivered <= at,
            decreases self.subscribers.len() - at,
        {
            let handle = share(&message);
            let outcome = self.subscribers[at].enqueue(handle);
            proof {
                reveal(Seq::filter);
                let prefix = old(self)@.subscribers.take(at as int + 1);
                assert(prefix.drop_last() =~= old(self)@.subscribers.take(at as int));
                assert(prefix.last() == old(self).subscribers[at as int]@);
            }
            if outcome.is_ok() {
                delivered += 1;
            }
            at += 1;
        }
        proof {
            assert(old(self)@.subscribers.take(at as int) =~= old(self)@.subscribers);
            assert(self@.subscribers =~= old(self)@.after_fan_out(event).subscribers);
        }
        delivered
    }

    /// Whether another subscriber can still be given an identifier.
    pub fn has_room(&self) -> (room: bool)
        ensures
            room == (self@.next_id < u64::MAX),
    {
        self.next_id < u64::MAX
    }

    /// Attaches a new subscriber: gives it the next identifier and an empty queue,
    /// offers it the greeting, and puts it at the end of the live set.
    pub fn subscribe(&mut self) -> (id: u64)
        requires
            old(self).wf(),
            old(self)@.next_id < u64::MAX,
        ensures
            final(self)@ == old(self)@.after_subscribe(),
            id == old(self)@.next_id,
            final(self).wf(),
    {
        let id = self.next_id;
        let mut subscriber = Subscriber::new(id, self.capacity);
        let _ = subscriber.enqueue(encode_connected());
        self.next_id = id + 1;
        self.subscribers.push(subscriber);
        assert(self@.subscribers =~= old(self)@.after_subscribe().subscribers);
        id
    }

    /// One eviction cycle: offers the keepalive event to every subscriber and
    /// drops from the live set each one that refuses it. Returns how many left.
    pub fn evict_stale(&mut self) -> (evicted: usize)
        requires
            old(self).wf(),
        ensures
            final(self)@ == old(self)@.after_eviction(frame(keepalive_payload())),
            evicted == old(self)@.subscribers.len() - old(self)@.takers().len(),
            final(self).wf(),
    {
        let probe = encode_keepalive();
        let ghost event = frame(keepalive_payload());
        let ghost accepts = |subscriber: SubscriberView| subscriber.accepts();
        let ghost offered = |subscriber: SubscriberView| subscriber.after_enqueue(event);
        let mut candidates: Vec<Subscriber> = Vec::new();
        std::mem::swap(&mut candidates, &mut self.subscribers);
        let ghost before = old(self)@.subscribers;
        let total = candidates.len();
        let mut evicted: usize = 0;
        proof {
            reveal(Seq::filter);
            assert(before.take(0) =~= Seq::empty());
            assert(before.take(0).filter(accepts).map_values(offered) =~= Seq::empty());
            assert(self@.subscribers =~= Seq::empty());
        }
        for subscriber in iter: candidates
            invariant
                self.capacity == old(self).capacity,
                self.next_id == old(self).next_id,
                old(self).wf(),
                before == old(self)@.subscribers,
                iter.seq().len() == before.len(),
                before.len() == total,
                forall|j: int| 0 <= j < before.len() ==> (#[trigger] iter.seq()[j])@ == before[j],
                contents(probe) == event,
                accepts == |subscriber: SubscriberView| subscriber.accepts(),
                offered == |subscriber: SubscriberView| subscriber.after_enqueue(event),
                self@.subscribers == before.take(iter.index() as int).filter(accepts).map_values(
                    offered,
                ),
                evicted + self.subscribers.len() == iter.index(),
        {
            let ghost place = iter.index() as int;
            assert(0 <= place < before.len());
            assert(subscriber == iter.seq()[place]);
            let ghost kept = self@.subscribers;
            let ghost stored = self.subscribers@;
            let mut subscriber = subscriber;
            let handle = share(&probe);
            let outcome = subscriber.enqueue(handle);
            proof {
                reveal(Seq::filter);
                let prefix = before.take(place + 1);
                assert(prefix.drop_last() =~= before.take(place));
                assert(prefix.last() == before[place]);
            }
            if outcome.is_ok() {
                self.subscribers.push(subscriber);
                proof {
                    let takers = before.take(place).filter(accepts);
                    assert(before.take(place + 1).filter(accepts) == takers.push(before[place]));
                    assert(self.subscribers@ == stored.push(subscriber));
                    assert(self@.subscribers =~= kept.push(subscriber@));
                    assert(takers.push(before[place]).map_values(offered) =~= takers.map_values(
                        offered,
                    ).push(offered(before[place])));
                }
            } else {
                subscriber.wake();
                evicted += 1;
            }
        }
        proof {
            assert(before.take(before.len() as int) =~= before);
            lemma_eviction_keeps_wf(old(self)@, event);
        }
        evicted
    }

    /// The place of subscriber `id` in the live set, if it is there.
    fn find(&self, id: u64) -> (place: Option<usize>)
        requires
            self.wf(),
        ensures
            place.is_some() == self@.has(id),
            place matches Some(at) ==> at == self@.position(id) && at < self.subscribers.len(),
    {
        let mut at: usize = 0;
        while at < self.subscribers.len()
            invariant
                self.wf(),
                at <= self.subscribers.len(),
                forall|j: int| 0 <= j < at ==> (#[trigger] self@.subscribers[j]).id != id,
            decreases self.subscribers.len() - at,
        {
            if self.subscribers[at].id() == id {
                proof {
                    let found = at as int;
                    assert(self@.subscribers[found].id == id);
                    assert(self@.has(id));
                    let chosen = self@.position(id);
                    assert(chosen == found) by {
                        if chosen < found {
                            assert(self@.subscribers[chosen].id < self@.subscribers[found].id);
                        } else if found < chosen {
                            assert(self@.subscribers[found].id < self@.subscribers[chosen].id);
                        }
                    }
                }
                return Some(at);
            }
            at += 1;
        }
        None
    }

    /// Whether subscriber `id` is in the live set.
    pub fn is_subscribed(&self, id: u64) -> (present: bool)
        requires
            self.wf(),
        ensures
            present == self@.has(id),
    {
        self.find(id).is_some()
    }

    /// The signal on which the connection of subscriber `id` waits, if the
    /// subscriber is in the live set.
    pub fn signal(&self, id: u64) -> (signal: Option<Arc<Notify>>)
        requires
            self.wf(),
        ensures
            signal.is_some() == self@.has(id),
    {
        match self.find(id) {
            Some(at) => Some(self.subscribers[at].signal()),
            None => None,
        }
    }

    /// Hands the connection of subscriber `id` its oldest pending message.
    pub fn poll_next(&mut self, id: u64) -> (drained: Drained)
        requires
            old(self).wf(),
        ensures
            drained@ == old(self)@.next_for(id),
            final(self)@ == old(self)@.after_next(id),
            final(self).wf(),
    {
        match self.find(id) {
            Some(at) => {
                let drained = self.subscribers[at].poll_next();
                proof {
                    assert(self@.subscribers =~= old(self)@.after_next(id).subscribers);
                    lemma_change_keeps_wf(old(self)@, id, old(self)@.subscriber(id).after_next());
                }
                drained
            },
            None => Drained::Ended,
        }
    }

    /// Records that the connection of subscriber `id` is gone.
    pub fn disconnect(&mut self, id: u64)
        requires
            old(self).wf(),
        ensures
            final(self)@ == old(self)@.after_disconnect(id),
            final(self).wf(),
    {
        match self.find(id) {
            Some(at) => {
                self.subscribers[at].close();
                proof {
                    assert(self@.subscribers =~= old(self)@.after_disconnect(id).subscribers);
                    lemma_change_keeps_wf(old(self)@, id, old(self)@.subscriber(id).after_close());
                }
            },
            None => {},
        }
    }
}

/// Putting a well-formed subscriber with the same identifier and capacity in the
/// place of one of the live set keeps the broadcaster well-formed.
pub proof fn lemma_change_keeps_wf(broadcaster: BroadcasterView, id: u64, changed: SubscriberView)
    requires
        broadcaster.wf(),
        broadcaster.has(id),
        changed.wf(),
        changed.id == id,
        changed.capacity == broadcaster.capacity,
    ensures
        broadcaster.with_subscriber(id, changed).wf(),
{
    let after = broadcaster.with_subscriber(id, changed);
    let place = broadcaster.position(id);
    assert forall|i: int| 0 <= i < after.subscribers.len() implies {
        &&& (#[trigger] after.subscribers[i]).wf()
        &&& after.subscribers[i].capacity == after.capacity
        &&& after.subscribers[i].id < after.next_id
    } by {
        assert(broadcaster.subscribers[i].id < broadcaster.next_id);
    }
    assert forall|i: int, j: int| 0 <= i < j < after.subscribers.len() implies (
    #[trigger] after.subscribers[i]).id < (#[trigger] after.subscribers[j]).id by {
        assert(broadcaster.subscribers[i].id < broadcaster.subscribers[j].id);
    }
}

/// An eviction cycle leaves a well-formed broadcaster well-formed: the subscribers
/// that stay keep their order and their identifiers.
pub proof fn lemma_eviction_keeps_wf(broadcaster: BroadcasterView, probe: Seq<u8>)
    requires
        broadcaster.wf(),
    ensures
        broadcaster.after_eviction(probe).wf(),
{
    lemma_takers_ordered(broadcaster);
}

/// The subscribers that take the next message are well-formed, in the order of
/// the live set, and none of them comes after the last of the live set.
proof fn lemma_takers_ordered(broadcaster: BroadcasterView)
    requires
        broadcaster.wf(),
    ensures
        broadcaster.takers().len() <= broadcaster.subscribers.len(),
        forall|i: int|
            0 <= i < broadcaster.takers().len() ==> {
                let taker = #[trigger] broadcaster.takers()[i];
                &&& taker.accepts()
                &&& taker.wf()
                &&& taker.capacity == broadcaster.capacity
                &&& taker.id < broadcaster.next_id
                &&& taker.id <= broadcaster.subscribers.last().id
            },
        forall|i: int, j: int|
            0 <= i < j < broadcaster.takers().len() ==> (#[trigger] broadcaster.takers()[i]).id < (
            #[trigger] broadcaster.takers()[j]).id,
        forall|i: int|
            0 <= i < broadcaster.takers().len() ==> broadcaster.subscribers.contains(
                #[trigger] broadcaster.takers()[i],
            ),
        forall|j: int|
            0 <= j < broadcaster.subscribers.len() && (
            #[trigger] broadcaster.subscribers[j]).accepts() ==> broadcaster.takers().contains(
                broadcaster.subscribers[j],
            ),
    decreases broadcaster.subscribers.len(),
{
    reveal(Seq::filter);
    let subscribers = broadcaster.subscribers;
    if subscribers.len() > 0 {
        let shorter = BroadcasterView { subscribers: subscribers.drop_last(), ..broadcaster };
        assert forall|i: int| 0 <= i < shorter.subscribers.len() implies {
            &&& (#[trigger] shorter.subscribers[i]).wf()
            &&& shorter.subscribers[i].capacity == shorter.capacity
            &&& shorter.subscribers[i].id < shorter.next_id
        } by {
            assert(shorter.subscribers[i] == broadcaster.subscribers[i]);
        }
        assert forall|i: int, j: int| 0 <= i < j < shorter.subscribers.len() implies (
        #[trigger] shorter.subscribers[i]).id < (#[trigger] shorter.subscribers[j]).id by {
            assert(shorter.subscribers[i] == broadcaster.subscribers[i]);
            assert(shorter.subscribers[j] == broadcaster.subscribers[j]);
        }
        lemma_takers_ordered(shorter);
        if shorter.subscribers.len() > 0 {
            assert(shorter.subscribers.last() == broadcaster.subscribers[subscribers.len() - 2]);
        }
        let last = subscribers.last();
        let inner = shorter.takers();
        let takers = broadcaster.takers();
        assert(takers == if last.accepts() {
            inner.push(last)
        } else {
            inner
        });
        assert forall|i: int| 0 <= i < takers.len() implies subscribers.contains(
            #[trigger] takers[i],
        ) by {
            if i < inner.len() {
                assert(shorter.subscribers.contains(inner[i]));
                let j = choose|j: int|
                    0 <= j < shorter.subscribers.len() && shorter.subscribers[j] == inner[i];
                assert(subscribers[j] == takers[i]);
            } else {
                assert(subscribers[subscribers.len() - 1] == takers[i]);
            }
        }
        assert forall|j: int|
            0 <= j < subscribers.len() && (
            #[trigger] subscribers[j]).accepts() implies takers.contains(subscribers[j]) by {
            if j < shorter.subscribers.len() {
                assert(shorter.subscribers[j] == subscribers[j]);
                assert(inner.contains(shorter.subscribers[j]));
                let i = choose|i: int| 0 <= i < inner.len() && inner[i] == subscribers[j];
                assert(takers[i] == subscribers[j]);
            } else {
                assert(takers[takers.len() - 1] == subscribers[j]);
            }
        }
    }
}

/// After an eviction cycle the live set holds exactly the subscribers that took
/// the probe: a subscriber whose connection was closed, or whose queue was full,
/// is gone, and everyone who stays has an open connection and the probe as the
/// last message of its queue.
pub proof fn lemma_eviction_drops_refusers(broadcaster: BroadcasterView, probe: Seq<u8>)
    requires
        broadcaster.wf(),
    ensures
        forall|id: u64| #[trigger]
            broadcaster.after_eviction(probe).has(id) <==> broadcaster.has(id)
                && broadcaster.subscriber(id).accepts(),
        forall|id: u64| #[trigger]
            broadcaster.after_eviction(probe).has(id) ==> broadcaster.after_eviction(
                probe,
            ).subscriber(id) == broadcaster.subscriber(id).after_enqueue(probe),
        forall|i: int|
            0 <= i < broadcaster.after_eviction(probe).subscribers.len() ==> {
                let stayed = #[trigger] broadcaster.after_eviction(probe).subscribers[i];
                stayed.open && stayed.pending.last() == probe
            },
{
    lemma_takers_ordered(broadcaster);
    lemma_eviction_keeps_wf(broadcaster, probe);
    let takers = broadcaster.takers();
    let after = broadcaster.after_eviction(probe);
    assert forall|id: u64| #[trigger] after.has(id) implies broadcaster.has(id)
        && broadcaster.subscriber(id).accepts() && after.subscriber(id) == broadcaster.subscriber(
        id,
    ).after_enqueue(probe) by {
        let i = after.position(id);
        assert(after.subscribers[i] == takers[i].after_enqueue(probe));
        assert(broadcaster.subscribers.contains(takers[i]));
        let j = choose|j: int|
            0 <= j < broadcaster.subscribers.len() && broadcaster.subscribers[j] == takers[i];
        assert(broadcaster.subscribers[j].id == id);
        lemma_ids_unique(broadcaster, j, broadcaster.position(id));
    }
    assert forall|id: u64|
        broadcaster.has(id) && broadcaster.subscriber(id).accepts() implies #[trigger] after.has(
        id,
    ) by {
        let j = broadcaster.position(id);
        assert(takers.contains(broadcaster.subscribers[j]));
        let i = choose|i: int| 0 <= i < takers.len() && takers[i] == broadcaster.subscribers[j];
        assert(after.subscribers[i].id == id);
    }
    assert forall|i: int| 0 <= i < after.subscribers.len() implies {
        let stayed = #[trigger] after.subscribers[i];
        stayed.open && stayed.pending.last() == probe
    } by {
        assert(after.subscribers[i] == takers[i].after_enqueue(probe));
    }
}

/// A subscription keeps a broadcaster well-formed while identifiers are left.
pub proof fn lemma_subscribe_keeps_broadcaster_wf(broadcaster: BroadcasterView)
    requires
        broadcaster.wf(),
        broadcaster.next_id < u64::MAX,
    ensures
        broadcaster.after_subscribe().wf(),
        broadcaster.after_subscribe().has(broadcaster.next_id),
{
    let after = broadcaster.after_subscribe();
    let last = broadcaster.subscribers.len() as int;
    assert(after.subscribers[last].id == broadcaster.next_id);
    assert forall|i: int| 0 <= i < after.subscribers.len() implies {
        &&& (#[trigger] after.subscribers[i]).wf()
        &&& after.subscribers[i].capacity == after.capacity
        &&& after.subscribers[i].id < after.next_id
    } by {
        if i < last {
            assert(broadcaster.subscribers[i].id < broadcaster.next_id);
        }
    }
    assert forall|i: int, j: int| 0 <= i < j < after.subscribers.len() implies (
    #[trigger] after.subscribers[i]).id < (#[trigger] after.subscribers[j]).id by {
        if j < last {
            assert(broadcaster.subscribers[i].id < broadcaster.subscribers[j].id);
        } else {
            assert(broadcaster.subscribers[i].id < broadcaster.next_id);
        }
    }
}

/// Draining one subscriber keeps the broadcaster well-formed.
pub proof fn lemma_next_keeps_wf(broadcaster: BroadcasterView, id: u64)
    requires
        broadcaster.wf(),
    ensures
        broadcaster.after_next(id).wf(),
{
    if broadcaster.has(id) {
        assert(broadcaster.subscriber(id).wf());
        lemma_change_keeps_wf(broadcaster, id, broadcaster.subscriber(id).after_next());
    }
}

/// Closing the connection of one subscriber keeps the broadcaster well-formed.
pub proof fn lemma_disconnect_keeps_wf(broadcaster: BroadcasterView, id: u64)
    requires
        broadcaster.wf(),
    ensures
        broadcaster.after_disconnect(id).wf(),
{
    if broadcaster.has(id) {
        assert(broadcaster.subscriber(id).wf());
        lemma_change_keeps_wf(broadcaster, id, broadcaster.subscriber(id).after_close());
    }
}

/// In a well-formed broadcaster two places with the same identifier are the
/// same place.
pub proof fn lemma_ids_unique(broadcaster: BroadcasterView, first: int, second: int)
    requires
        broadcaster.wf(),
        0 <= first < broadcaster.subscribers.len(),
        0 <= second < broadcaster.subscribers.len(),
        broadcaster.subscribers[first].id == broadcaster.subscribers[second].id,
    ensures
        first == second,
{
    if first < second {
        assert(broadcaster.subscribers[first].id < broadcaster.subscribers[second].id);
    } else if second < first {
        assert(broadcaster.subscribers[second].id < broadcaster.subscribers[first].id);
    }
}

/// An identifier that was given out and is no longer in the live set never
/// comes back: no later subscription gets it, and neither publishing nor
/// draining nor evicting touches a subscriber under it.
pub proof fn lemma_evicted_never_returns(
    broadcaster: BroadcasterView,
    id: u64,
    message: Seq<u8>,
    other: u64,
)
    requires
        broadcaster.wf(),
        id < broadcaster.next_id,
        !broadcaster.has(id),
    ensures
        broadcaster.next_id < u64::MAX ==> !broadcaster.after_subscribe().has(id),
        !broadcaster.after_fan_out(message).has(id),
        !broadcaster.after_eviction(message).has(id),
        !broadcaster.after_next(other).has(id),
        !broadcaster.after_disconnect(other).has(id),
        broadcaster.next_for(id) == DrainedView::Ended,
        broadcaster.after_next(id) == broadcaster,
        broadcaster.after_disconnect(id) == broadcaster,
{
    lemma_eviction_drops_refusers(broadcaster, message);
    if broadcaster.next_id < u64::MAX && broadcaster.after_subscribe().has(id) {
        let after = broadcaster.after_subscribe();
        let i = after.position(id);
        if i < broadcaster.subscribers.len() {
            assert(broadcaster.subscribers[i].id == id);
        }
    }
    if broadcaster.after_fan_out(message).has(id) {
        let i = broadcaster.after_fan_out(message).position(id);
        assert(broadcaster.subscribers[i].id == id);
    }
    if broadcaster.after_next(other).has(id) {
        let i = broadcaster.after_next(other).position(id);
        assert(broadcaster.subscribers[i].id == id);
    }
    if broadcaster.after_disconnect(other).has(id) {
        let i = broadcaster.after_disconnect(other).position(id);
        assert(broadcaster.subscribers[i].id == id);
    }
}

/// What publishing does to one subscriber depends on that subscriber alone:
/// it is offered the message whatever the state of the others, so a full or
/// closed queue elsewhere in the live set costs it nothing.
pub proof fn lemma_fan_out_isolation(
    first: BroadcasterView,
    second: BroadcasterView,
    message: Seq<u8>,
    place: int,
)
    requires
        0 <= place < first.subscribers.len(),
        0 <= place < second.subscribers.len(),
        first.subscribers[place] == second.subscribers[place],
    ensures
        first.after_fan_out(message).subscribers[place] == first.subscribers[place].after_enqueue(
            message,
        ),
        first.after_fan_out(message).subscribers[place] == second.after_fan_out(
            message,
        ).subscribers[place],
        first.subscribers[place].accepts() ==> first.after_fan_out(
            message,
        ).subscribers[place].pending == first.subscribers[place].pending.push(message),
{
}

/// Publishing never changes who is in the live set, and keeps a well-formed
/// broadcaster well-formed.
pub proof fn lemma_fan_out_keeps_live_set(broadcaster: BroadcasterView, message: Seq<u8>)
    requires
        broadcaster.wf(),
    ensures
        broadcaster.after_fan_out(message).wf(),
        broadcaster.after_fan_out(message).subscribers.len() == broadcaster.subscribers.len(),
        forall|id: u64| #[trigger]
            broadcaster.after_fan_out(message).has(id) == broadcaster.has(id),
{
    let after = broadcaster.after_fan_out(message);
    assert forall|i: int, j: int| 0 <= i < j < after.subscribers.len() implies (
    #[trigger] after.subscribers[i]).id < (#[trigger] after.subscribers[j]).id by {
        assert(broadcaster.subscribers[i].id < broadcaster.subscribers[j].id);
    }
    assert forall|i: int| 0 <= i < after.subscribers.len() implies {
        &&& (#[trigger] after.subscribers[i]).wf()
        &&& after.subscribers[i].capacity == after.capacity
        &&& after.subscribers[i].id < after.next_id
    } by {
        assert(broadcaster.subscribers[i].wf());
    }
    assert forall|id: u64| #[trigger] after.has(id) == broadcaster.has(id) by {
        if after.has(id) {
            let i = after.position(id);
            assert(broadcaster.subscribers[i].id == id);
        }
        if broadcaster.has(id) {
            let i = broadcaster.position(id);
            assert(after.subscribers[i].id == id);
        }
    }
}

/// A message published while every subscriber has an open connection and room
/// in its queue reaches every one of them exactly once, behind all that was
/// pending before.
pub proof fn lemma_publish_reaches_every_subscriber(broadcaster: BroadcasterView, message: Seq<u8>)
    requires
        broadcaster.wf(),
        forall|i: int|
            0 <= i < broadcaster.subscribers.len() ==> (
            #[trigger] broadcaster.subscribers[i]).accepts(),
    ensures
        broadcaster.takers() == broadcaster.subscribers,
        forall|i: int|
            0 <= i < broadcaster.subscribers.len() ==> (#[trigger] broadcaster.after_fan_out(
                message,
            ).subscribers[i]).pending == broadcaster.subscribers[i].pending + seq![message],
{
    let accepts = |subscriber: SubscriberView| subscriber.accepts();
    lemma_filter_keeps_all(broadcaster.subscribers, accepts);
    assert forall|i: int| 0 <= i < broadcaster.subscribers.len() implies (
    #[trigger] broadcaster.after_fan_out(message).subscribers[i]).pending
        == broadcaster.subscribers[i].pending + seq![message] by {
        assert(broadcaster.subscribers[i].accepts());
        let pending = broadcaster.subscribers[i].pending;
        assert(pending.push(message) =~= pending + seq![message]);
    }
}

/// A filter that every element passes changes nothing.
proof fn lemma_filter_keeps_all<A>(items: Seq<A>, keep: spec_fn(A) -> bool)
    requires
        forall|i: int| 0 <= i < items.len() ==> keep(#[trigger] items[i]),
    ensures
        items.filter(keep) == items,
    decreases items.len(),
{
    reveal(Seq::filter);
    if items.len() > 0 {
        let shorter = items.drop_last();
        assert forall|i: int| 0 <= i < shorter.len() implies keep(#[trigger] shorter[i]) by {
            assert(shorter[i] == items[i]);
        }
        lemma_filter_keeps_all(shorter, keep);
        assert(keep(items[items.len() - 1]));
        assert(shorter.push(items.last()) =~= items);
    } else {
        assert(items.filter(keep) =~= items);
    }
}

/// Two messages published one after the other stand in that order in the queue
/// of every subscriber that took both, with nothing between them.
pub proof fn lemma_publish_order(
    broadcaster: BroadcasterView,
    first: Seq<u8>,
    second: Seq<u8>,
    place: int,
)
    requires
        broadcaster.wf(),
        0 <= place < broadcaster.subscribers.len(),
        broadcaster.subscribers[place].open,
        broadcaster.subscribers[place].pending.len() + 2 <= broadcaster.subscribers[place].capacity,
    ensures
        broadcaster.after_fan_out(first).after_fan_out(second).subscribers[place].pending
            == broadcaster.subscribers[place].pending + seq![first, second],
{
    let before = broadcaster.subscribers[place];
    assert(before.accepts());
    let between = broadcaster.after_fan_out(first).subscribers[place];
    assert(between == before.after_enqueue(first));
    assert(between.accepts());
    assert(before.pending.push(first).push(second) =~= before.pending + seq![first, second]);
}

} // verus!
