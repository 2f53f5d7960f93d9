//! The directory of channels: one broadcaster for each channel name ever used,
//! made when the name is first subscribed to and never removed.

use crate::broadcaster::{
    lemma_disconnect_keeps_wf, lemma_eviction_keeps_wf, lemma_fan_out_keeps_live_set,
    lemma_next_keeps_wf, lemma_subscribe_keeps_broadcaster_wf, Broadcaster, BroadcasterView,
};
use crate::codec::{frame, keepalive_payload};
use crate::subscriber::Drained;
use std::sync::Arc;
use tokio::sync::Notify;
use vstd::prelude::*;

verus! {

/// The queue capacity of a registry made without naming one.
pub const DEFAULT_QUEUE_CAPACITY: usize = 500000;

/// The seconds between two eviction cycles of a broadcaster.
pub const KEEPALIVE_PERIOD_SECS: u64 = 10;

/// Why a message was not published.
#[derive(Clone, Copy, Debug, PartialEq, Eq, Structural)]
pub enum PublishError {
    /// No broadcaster was ever made for the channel name.
    ChannelAbsent,
}

/// Where the broadcaster of a channel is found.
#[derive(Clone, Copy, Debug, PartialEq, Eq, Structural)]
pub struct Opened {
    /// The handle of the channel's broadcaster.
    pub channel: usize,
    /// Whether the broadcaster was made by this call, so that its keepalive
    /// cycle has to be started now.
    pub created: bool,
}

/// What a new subscription is known by.
#[derive(Clone, Copy, Debug, PartialEq, Eq, Structural)]
pub struct Subscription {
    /// The handle of the channel's broadcaster.
    pub channel: usize,
    /// The identifier of the subscriber within that broadcaster.
    pub subscriber: u64,
    /// Whether the broadcaster was made by this subscription.
    pub created: bool,
}

/// One entry of the registry as plain values.
pub struct ChannelView {
    pub name: Seq<char>,
    pub broadcaster: BroadcasterView,
}

/// The state of a registry as plain values.
pub struct RegistryView {
    /// The queue capacity given to every broadcaster.
    pub capacity: nat,
    /// The channels in the order of their creation. The place of a channel is
    /// its handle.
    pub channels: Seq<ChannelView>,
}

impl RegistryView {
    /// A registry in which no channel name was referenced yet.
    pub open spec fn empty(capacity: nat) -> RegistryView {
        RegistryView { capacity, channels: Seq::empty() }
    }

    /// Every broadcaster is well-formed and has the registry's capacity, and no
    /// two channels have the same name.
    pub open spec fn wf(self) -> bool {
        &&& forall|i: int|
            0 <= i < self.channels.len() ==> {
                &&& (#[trigger] self.channels[i]).broadcaster.wf()
                &&& self.channels[i].broadcaster.capacity == self.capacity
            }
        &&& forall|i: int, j: int|
            0 <= i < j < self.channels.len() ==> (#[trigger] self.channels[i]).name != (
            #[trigger] self.channels[j]).name
    }

    /// Whether a broadcaster exists for this name.
    pub open spec fn contains(self, name: Seq<char>) -> bool {
        exists|i: int| 0 <= i < self.channels.len() && (#[trigger] self.channels[i]).name == name
    }

    /// The handle of the channel with this name.
    pub open spec fn handle(self, name: Seq<char>) -> int {
        choose|i: int| 0 <= i < self.channels.len() && (#[trigger] self.channels[i]).name == name
    }

    /// Whether `channel` is the handle of a channel.
    pub open spec fn has_handle(self, channel: int) -> bool {
        0 <= channel < self.channels.len()
    }

    /// The broadcaster of the channel with this name.
    pub open spec fn broadcaster(self, name: Seq<char>) -> BroadcasterView {
        self.channels[self.handle(name)].broadcaster
    }

    /// The channel that is made when `name` is first referenced.
    pub open spec fn new_channel(self, name: Seq<char>) -> ChannelView {
        ChannelView { name, broadcaster: BroadcasterView::empty(self.capacity) }
    }

    /// The state after the broadcaster for `name` was asked for: made and put at
    /// the end where the name was unknown, nothing changed where it was known.
    pub open spec fn after_get_or_create(self, name: Seq<char>) -> RegistryView {
        if self.contains(name) {
            self
        } else {
            RegistryView { channels: self.channels.push(self.new_channel(name)), ..self }
        }
    }

    /// The handle that `name` has once its broadcaster was asked for.
    pub open spec fn handle_after(self, name: Seq<char>) -> int {
        if self.contains(name) {
            self.handle(name)
        } else {
            self.channels.len() as int
        }
    }

    /// The state in which `broadcaster` stands in the place of the one behind
    /// the handle `channel`.
    pub open spec fn with_broadcaster(
        self,
        channel: int,
        broadcaster: BroadcasterView,
    ) -> RegistryView {
        RegistryView {
            channels: self.channels.update(
                channel,
                ChannelView { name: self.channels[channel].name, broadcaster },
            ),
            ..self
        }
    }

    /// Whether a subscription to `name` can be given an identifier.
    pub open spec fn admits(self, name: Seq<char>) -> bool {
        self.contains(name) ==> self.broadcaster(name).next_id < u64::MAX
    }

    /// The state after a subscription to `name`.
    pub open spec fn after_subscribe(self, name: Seq<char>) -> RegistryView {
        let known = self.after_get_or_create(name);
        let channel = self.handle_after(name);
        known.with_broadcaster(channel, known.channels[channel].broadcaster.after_subscribe())
    }

    /// The state after `count` subscriptions to `name`, one after the other.
    pub open spec fn after_subscriptions(self, name: Seq<char>, count: nat) -> RegistryView
        decreases count,
    {
        if count == 0 {
            self
        } else {
            self.after_subscriptions(name, (count - 1) as nat).after_subscribe(name)
        }
    }

    /// The state after `payload` was published to `name`: fanned out where the
    /// channel exists, nothing changed where it does not.
    pub open spec fn after_publish(self, name: Seq<char>, payload: Seq<u8>) -> RegistryView {
        if self.contains(name) {
            self.with_broadcaster(
                self.handle(name),
                self.broadcaster(name).after_fan_out(frame(payload)),
            )
        } else {
            self
        }
    }

    /// The state after the connection of a subscriber asked for its next message.
    pub open spec fn after_next(self, channel: int, subscriber: u64) -> RegistryView {
        if self.has_handle(channel) {
            self.with_broadcaster(
                channel,
                self.channels[channel].broadcaster.after_next(subscriber),
            )
        } else {
            self
        }
    }

    /// The state after the connection of a subscriber was closed.
    pub open spec fn after_disconnect(self, channel: int, subscriber: u64) -> RegistryView {
        if self.has_handle(channel) {
            self.with_broadcaster(
                channel,
                self.channels[channel].broadcaster.after_disconnect(subscriber),
            )
        } else {
            self
        }
    }

    /// The state after one eviction cycle of the broadcaster behind `channel`.
    pub open spec fn after_eviction(self, channel: int) -> RegistryView {
        if self.has_handle(channel) {
            self.with_broadcaster(
                channel,
                self.channels[channel].broadcaster.after_eviction(frame(keepalive_payload())),
            )
        } else {
            self
        }
    }
}

struct Channel {
    name: String,
    broadcaster: Broadcaster,
}

pub struct ChannelRegistry {
    capacity: usize,
    channels: Vec<Channel>,
}

impl View for ChannelRegistry {
    type V = RegistryView;

    closed spec fn view(&self) -> RegistryView {
        RegistryView {
            capacity: self.capacity as nat,
            channels: self.channels@.map_values(
                |channel: Channel|
                    ChannelView { name: channel.name@, broadcaster: channel.broadcaster@ },
            ),
        }
    }
}

impl ChannelRegistry {
    pub open spec fn wf(&self) -> bool {
        self@.wf()
    }

    /// A registry without channels, with the default queue capacity.
    pub fn new() -> (registry: ChannelRegistry)
        ensures
            registry@ == RegistryView::empty(DEFAULT_QUEUE_CAPACITY as nat),
            registry.wf(),
    {
        ChannelRegistry::with_capacity(DEFAULT_QUEUE_CAPACITY)
    }

    /// A registry without channels, whose subscribers will each get a queue of
    /// `capacity` messages.
    pub fn with_capacity(capacity: usize) -> (registry: ChannelRegistry)
        ensures
            registry@ == RegistryView::empty(capacity as nat),
            registry.wf(),
    {
        let registry = ChannelRegistry { capacity, channels: Vec::new() };
        assert(registry@.channels =~= Seq::empty());
        registry
    }

    /// The queue capacity that every subscriber gets.
    pub fn capacity(&self) -> (capacity: usize)
        ensures
            capacity == self@.capacity,
    {
        self.capacity
    }

    /// The number of channels ever referenced.
    pub fn channel_count(&self) -> (count: usize)
        ensures
            count == self@.channels.len(),
    {
        self.channels.len()
    }

    /// The handle of the broadcaster for `name`, if one was ever made. Never
    /// makes one.
    pub fn lookup(&self, name: &str) -> (found: Option<usize>)
        requires
            self.wf(),
        ensures
            found.is_some() == self@.contains(name@),
            found matches Some(channel) ==> channel == self@.handle(name@) && self@.has_handle(
                channel as int,
            ),
    {
        let wanted = name.to_owned();
        let mut at: usize = 0;
        while at < self.channels.len()
            invariant
                self.wf(),
                wanted@ == name@,
                at <= self.channels.len(),
                forall|j: int| 0 <= j < at ==> (#[trigger] self@.channels[j]).name != name@,
            decreases self.channels.len() - at,
        {
            if self.channels[at].name == wanted {
                proof {
                    assert(self@.channels[at as int].name == name@);
                    lemma_names_unique(self@, at as int, self@.handle(name@));
                }
                return Some(at);
            }
            at += 1;
        }
        None
    }

    /// The broadcaster behind a handle, to be read.
    pub fn broadcaster(&self, channel: usize) -> (found: Option<&Broadcaster>)
        ensures
            found.is_some() == self@.has_handle(channel as int),
            found matches Some(broadcaster) ==> broadcaster@
                == self@.channels[channel as int].broadcaster,
    {
        if channel < self.channels.len() {
            Some(&self.channels[channel].broadcaster)
        } else {
            None
        }
    }

    /// The handle of the broadcaster for `name`, which is made first where the
    /// name was never referenced. A name has one broadcaster, whatever the
    /// number of calls.
    pub fn get_or_create(&mut self, name: &str) -> (opened: Opened)
        requires
            old(self).wf(),
        ensures
            final(self)@ == old(self)@.after_get_or_create(name@),
            opened.channel == old(self)@.handle_after(name@),
            opened.created == !old(self)@.contains(name@),
            final(self).wf(),
    {
        proof {
            lemma_get_or_create_keeps_wf(self@, name@);
        }
        match self.lookup(name) {
            Some(channel) => Opened { channel, created: false },
            None => {
                let channel = self.channels.len();
                self.channels.push(
                    Channel { name: name.to_owned(), broadcaster: Broadcaster::new(self.capacity) },
                );
                assert(self@.channels =~= old(self)@.after_get_or_create(name@).channels);
                Opened { channel, created: true }
            },
        }
    }

    /// Whether `subscribe` can be called for `name`: whether its broadcaster, if
    /// there is one, has an identifier left to give.
    pub fn admits(&self, name: &str) -> (room: bool)
        requires
            self.wf(),
        ensures
            room == self@.admits(name@),
    {
        match self.lookup(name) {
            Some(channel) => self.channels[channel].broadcaster.has_room(),
            None => true,
        }
    }

    /// Attaches a new subscriber to the channel `name`, making the channel where
    /// the name was never referenced.
    pub fn subscribe(&mut self, name: &str) -> (subscription: Subscription)
        requires
            old(self).wf(),
            old(self)@.admits(name@),
        ensures
            final(self)@ == old(self)@.after_subscribe(name@),
            subscription.channel == old(self)@.handle_after(name@),
            subscription.created == !old(self)@.contains(name@),
            subscription.subscriber == old(self)@.after_get_or_create(name@).broadcaster(
                name@,
            ).next_id,
            final(self).wf(),
    {
        let opened = self.get_or_create(name);
        let channel = opened.channel;
        let ghost known = self@;
        proof {
            lemma_get_or_create_keeps_wf(old(self)@, name@);
            assert(known.channels[channel as int].broadcaster.wf());
            if old(self)@.contains(name@) {
                assert(known.channels[channel as int].broadcaster == old(self)@.broadcaster(name@));
            }
        }
        let subscriber = self.channels[channel].broadcaster.subscribe();
        proof {
            let changed = known.channels[channel as int].broadcaster.after_subscribe();
            assert(self@.channels =~= known.with_broadcaster(channel as int, changed).channels);
            lemma_exchange_keeps_wf(known, channel as int, changed);
        }
        Subscription { channel, subscriber, created: opened.created }
    }

    /// Publishes `payload` to the channel `name`: offers its event to every
    /// subscriber of the channel and returns how many took it. A name that was
    /// never subscribed to has no channel; nothing changes then.
    pub fn publish(&mut self, name: &str, payload: &[u8]) -> (outcome: Result<
        usize,
        PublishError,
    >)
        requires
            old(self).wf(),
        ensures
            final(self)@ == old(self)@.after_publish(name@, payload@),
            outcome == if old(self)@.contains(name@) {
                Ok::<usize, PublishError>(old(self)@.broadcaster(name@).takers().len() as usize)
            } else {
                Err::<usize, PublishError>(PublishError::ChannelAbsent)
            },
            final(self).wf(),
    {
        match self.lookup(name) {
            Some(channel) => {
                let delivered = self.channels[channel].broadcaster.publish(payload);
                proof {
                    let changed = old(self)@.broadcaster(name@).after_fan_out(frame(payload@));
                    assert(self@.channels =~= old(self)@.with_broadcaster(
                        channel as int,
                        changed,
                    ).channels);
                    lemma_exchange_keeps_wf(old(self)@, channel as int, changed);
                }
                Ok(delivered)
            },
            None => Err(PublishError::ChannelAbsent),
        }
    }

    /// The signal on which the connection of a subscriber waits while nothing is
    /// pending, if the subscriber is in the live set of the channel.
    pub fn signal(&self, channel: usize, subscriber: u64) -> (signal: Option<Arc<Notify>>)
        requires
            self.wf(),
        ensures
            signal.is_some() == (self@.has_handle(channel as int)
                && self@.channels[channel as int].broadcaster.has(subscriber)),
    {
        if channel < self.channels.len() {
            assert(self@.channels[channel as int].broadcaster.wf());
            self.channels[channel].broadcaster.signal(subscriber)
        } else {
            None
        }
    }

    /// Hands the connection of a subscriber its oldest pending message. An
    /// unknown handle or subscriber finds its stream ended.
    pub fn poll_next(&mut self, channel: usize, subscriber: u64) -> (drained: Drained)
        requires
            old(self).wf(),
        ensures
            drained@ == if old(self)@.has_handle(channel as int) {
                old(self)@.channels[channel as int].broadcaster.next_for(subscriber)
            } else {
                crate::subscriber::DrainedView::Ended
            },
            final(self)@ == old(self)@.after_next(channel as int, subscriber),
            final(self).wf(),
    {
        if channel >= self.channels.len() {
            return Drained::Ended;
        }
        assert(self@.channels[channel as int].broadcaster.wf());
        let drained = self.channels[channel].broadcaster.poll_next(subscriber);
        proof {
            let changed = old(self)@.channels[channel as int].broadcaster.after_next(subscriber);
            assert(self@.channels =~= old(self)@.with_broadcaster(channel as int, changed).channels);
            lemma_exchange_keeps_wf(old(self)@, channel as int, changed);
        }
        drained
    }

    /// Records that the connection of a subscriber is gone.
    pub fn disconnect(&mut self, channel: usize, subscriber: u64)
        requires
            old(self).wf(),
        ensures
            final(self)@ == old(self)@.after_disconnect(channel as int, subscriber),
            final(self).wf(),
    {
        if channel < self.channels.len() {
            assert(self@.channels[channel as int].broadcaster.wf());
            self.channels[channel].broadcaster.disconnect(subscriber);
            proof {
                let changed = old(self)@.channels[channel as int].broadcaster.after_disconnect(
                    subscriber,
                );
                assert(self@.channels =~= old(self)@.with_broadcaster(
                    channel as int,
                    changed,
                ).channels);
                lemma_exchange_keeps_wf(old(self)@, channel as int, changed);
            }
        }
    }

    /// One eviction cycle of the broadcaster behind `channel`. Returns how many
    /// subscribers left its live set.
    pub fn evict_stale(&mut self, channel: usize) -> (evicted: usize)
        requires
            old(self).wf(),
        ensures
            final(self)@ == old(self)@.after_eviction(channel as int),
            evicted == if old(self)@.has_handle(channel as int) {
                old(self)@.channels[channel as int].broadcaster.subscribers.len() - old(
                    self,
                )@.channels[channel as int].broadcaster.takers().len()
            } else {
                0
            },
            final(self).wf(),
    {
        if channel >= self.channels.len() {
            return 0;
        }
        assert(self@.channels[channel as int].broadcaster.wf());
        let evicted = self.channels[channel].broadcaster.evict_stale();
        proof {
            let changed = old(self)@.channels[channel as int].broadcaster.after_eviction(
                frame(keepalive_payload()),
            );
            assert(self@.channels =~= old(self)@.with_broadcaster(channel as int, changed).channels);
            lemma_exchange_keeps_wf(old(self)@, channel as int, changed);
        }
        evicted
    }
}

/// Putting a well-formed broadcaster of the registry's capacity in the place of
/// another keeps the registry well-formed and every name at its handle.
pub proof fn lemma_exchange_keeps_wf(
    registry: RegistryView,
    channel: int,
    broadcaster: BroadcasterView,
)
    requires
        registry.wf(),
        registry.has_handle(channel),
        broadcaster.wf(),
        broadcaster.capacity == registry.capacity,
    ensures
        registry.with_broadcaster(channel, broadcaster).wf(),
        registry.with_broadcaster(channel, broadcaster).channels.len() == registry.channels.len(),
        forall|name: Seq<char>|
            registry.with_broadcaster(channel, broadcaster).contains(name) == registry.contains(
                name,
            ),
        forall|name: Seq<char>|
            registry.contains(name) ==> registry.with_broadcaster(channel, broadcaster).handle(name)
                == registry.handle(name),
{
    let after = registry.with_broadcaster(channel, broadcaster);
    assert forall|i: int| 0 <= i < after.channels.len() implies (#[trigger] after.channels[i]).name
        == registry.channels[i].name by {}
    assert forall|i: int, j: int| 0 <= i < j < after.channels.len() implies (
    #[trigger] after.channels[i]).name != (#[trigger] after.channels[j]).name by {
        assert(registry.channels[i].name != registry.channels[j].name);
    }
    assert forall|name: Seq<char>| after.contains(name) == registry.contains(name) by {
        if registry.contains(name) {
            let at = registry.handle(name);
            assert(after.channels[at].name == name);
        }
        if after.contains(name) {
            let at = after.handle(name);
            assert(registry.channels[at].name == name);
        }
    }
    assert forall|name: Seq<char>| registry.contains(name) implies after.handle(name)
        == registry.handle(name) by {
        let at = registry.handle(name);
        assert(after.channels[at].name == name);
        let chosen = after.handle(name);
        assert(registry.channels[chosen].name == name);
        lemma_names_unique(registry, at, chosen);
    }
}

/// In a well-formed registry two handles with the same name are the same handle.
pub proof fn lemma_names_unique(registry: RegistryView, first: int, second: int)
    requires
        registry.wf(),
        registry.has_handle(first),
        registry.has_handle(second),
        registry.channels[first].name == registry.channels[second].name,
    ensures
        first == second,
{
    if first < second {
        assert(registry.channels[first].name != registry.channels[second].name);
    } else if second < first {
        assert(registry.channels[second].name != registry.channels[first].name);
    }
}

/// Asking for the broadcaster of a name keeps the registry well-formed, makes the
/// name known at the handle foretold, and moves no other channel.
pub proof fn lemma_get_or_create_keeps_wf(registry: RegistryView, name: Seq<char>)
    requires
        registry.wf(),
    ensures
        registry.after_get_or_create(name).wf(),
        registry.after_get_or_create(name).contains(name),
        registry.after_get_or_create(name).handle(name) == registry.handle_after(name),
        registry.after_get_or_create(name).has_handle(registry.handle_after(name)),
        forall|i: int|
            0 <= i < registry.channels.len() ==> registry.after_get_or_create(name).channels[i]
                == registry.channels[i],
{
    let after = registry.after_get_or_create(name);
    let at = registry.handle_after(name);
    if !registry.contains(name) {
        assert forall|i: int, j: int| 0 <= i < j < after.channels.len() implies (
        #[trigger] after.channels[i]).name != (#[trigger] after.channels[j]).name by {
            if j < registry.channels.len() {
                assert(registry.channels[i].name != registry.channels[j].name);
            } else {
                assert(registry.channels[i].name != name);
            }
        }
    }
    assert(after.channels[at].name == name);
    lemma_names_unique(after, at, after.handle(name));
}

/// Asking for the broadcaster of a name a second time changes nothing and gives
/// the same handle: of two callers who race for a new name, whoever comes
/// second finds the broadcaster that the first one made.
pub proof fn lemma_get_or_create_is_idempotent(registry: RegistryView, name: Seq<char>)
    requires
        registry.wf(),
    ensures
        registry.after_get_or_create(name).after_get_or_create(name)
            == registry.after_get_or_create(name),
        registry.after_get_or_create(name).handle_after(name) == registry.handle_after(name),
        registry.after_get_or_create(name).channels.len() <= registry.channels.len() + 1,
{
    lemma_get_or_create_keeps_wf(registry, name);
}

/// A subscription keeps the registry well-formed, makes the name known at the
/// handle foretold, and leaves every other channel as it was.
pub proof fn lemma_subscribe_keeps_wf(registry: RegistryView, name: Seq<char>)
    requires
        registry.wf(),
        registry.admits(name),
    ensures
        registry.after_subscribe(name).wf(),
        registry.after_subscribe(name).contains(name),
        registry.after_subscribe(name).handle(name) == registry.handle_after(name),
        registry.after_subscribe(name).channels.len() == registry.after_get_or_create(
            name,
        ).channels.len(),
        registry.after_subscribe(name).broadcaster(name) == registry.after_get_or_create(
            name,
        ).broadcaster(name).after_subscribe(),
        forall|i: int|
            0 <= i < registry.channels.len() && i != registry.handle_after(name)
                ==> registry.after_subscribe(name).channels[i] == registry.channels[i],
{
    lemma_get_or_create_keeps_wf(registry, name);
    let known = registry.after_get_or_create(name);
    let channel = registry.handle_after(name);
    let changed = known.channels[channel].broadcaster.after_subscribe();
    assert(known.channels[channel].broadcaster.wf());
    if registry.contains(name) {
        assert(known.channels[channel].broadcaster == registry.broadcaster(name));
    }
    lemma_subscribe_keeps_broadcaster_wf(known.channels[channel].broadcaster);
    lemma_exchange_keeps_wf(known, channel, changed);
}

/// A name that was never referenced has no broadcaster: publishing to it
/// changes nothing, and nothing but asking for its broadcaster, or subscribing
/// to it, makes it known. Once that was done, the name is known.
pub proof fn lemma_unknown_channel(
    registry: RegistryView,
    name: Seq<char>,
    other: Seq<char>,
    payload: Seq<u8>,
)
    requires
        registry.wf(),
        !registry.contains(name),
        other != name,
    ensures
        !RegistryView::empty(registry.capacity).contains(name),
        registry.after_publish(name, payload) == registry,
        !registry.after_publish(other, payload).contains(name),
        !registry.after_get_or_create(other).contains(name),
        registry.admits(other) ==> !registry.after_subscribe(other).contains(name),
        registry.after_get_or_create(name).contains(name),
        registry.after_subscribe(name).contains(name),
{
    lemma_get_or_create_keeps_wf(registry, name);
    lemma_get_or_create_keeps_wf(registry, other);
    lemma_subscribe_keeps_wf(registry, name);
    if registry.contains(other) {
        let changed = registry.broadcaster(other).after_fan_out(frame(payload));
        lemma_fan_out_keeps_live_set(
            registry.broadcaster(other),
            frame(payload),
        );
        lemma_exchange_keeps_wf(registry, registry.handle(other), changed);
    }
    let known = registry.after_get_or_create(other);
    if known.contains(name) {
        let at = known.handle(name);
        if at < registry.channels.len() {
            assert(registry.channels[at].name == name);
        }
    }
    if registry.admits(other) {
        let channel = registry.handle_after(other);
        let changed = known.channels[channel].broadcaster.after_subscribe();
        if registry.contains(other) {
            assert(known.channels[channel].broadcaster == registry.broadcaster(other));
        }
        lemma_subscribe_keeps_broadcaster_wf(known.channels[channel].broadcaster);
        lemma_exchange_keeps_wf(known, channel, changed);
    }
}

/// A channel, once made, stays: whatever is done to the registry afterwards,
/// the name is known and has the handle that it had.
pub proof fn lemma_channels_are_permanent(
    registry: RegistryView,
    name: Seq<char>,
    other: Seq<char>,
    payload: Seq<u8>,
    channel: int,
    subscriber: u64,
)
    requires
        registry.wf(),
        registry.contains(name),
    ensures
        registry.after_get_or_create(other).contains(name) && registry.after_get_or_create(
            other,
        ).handle(name) == registry.handle(name),
        registry.admits(other) ==> registry.after_subscribe(other).contains(name)
            && registry.after_subscribe(other).handle(name) == registry.handle(name),
        registry.after_publish(other, payload).contains(name) && registry.after_publish(
            other,
            payload,
        ).handle(name) == registry.handle(name),
        registry.after_next(channel, subscriber).contains(name) && registry.after_next(
            channel,
            subscriber,
        ).handle(name) == registry.handle(name),
        registry.after_disconnect(channel, subscriber).contains(name) && registry.after_disconnect(
            channel,
            subscriber,
        ).handle(name) == registry.handle(name),
        registry.after_eviction(channel).contains(name) && registry.after_eviction(channel).handle(
            name,
        ) == registry.handle(name),
{
    let at = registry.handle(name);
    lemma_get_or_create_keeps_wf(registry, other);
    let known = registry.after_get_or_create(other);
    assert(known.channels[at].name == name);
    lemma_names_unique(known, at, known.handle(name));
    if registry.admits(other) {
        let target = registry.handle_after(other);
        if registry.contains(other) {
            assert(known.channels[target].broadcaster == registry.broadcaster(other));
        }
        lemma_subscribe_keeps_broadcaster_wf(known.channels[target].broadcaster);
        lemma_exchange_keeps_wf(known, target, known.channels[target].broadcaster.after_subscribe());
        assert(known.contains(name));
        assert(registry.after_subscribe(other).contains(name));
        assert(registry.after_subscribe(other).handle(name) == known.handle(name));
    }
    if registry.contains(other) {
        lemma_fan_out_keeps_live_set(
            registry.broadcaster(other),
            frame(payload),
        );
        lemma_exchange_keeps_wf(
            registry,
            registry.handle(other),
            registry.broadcaster(other).after_fan_out(frame(payload)),
        );
    }
    if registry.has_handle(channel) {
        let broadcaster = registry.channels[channel].broadcaster;
        assert(broadcaster.wf());
        lemma_next_keeps_wf(broadcaster, subscriber);
        lemma_exchange_keeps_wf(registry, channel, broadcaster.after_next(subscriber));
        lemma_disconnect_keeps_wf(broadcaster, subscriber);
        lemma_exchange_keeps_wf(registry, channel, broadcaster.after_disconnect(subscriber));
        lemma_eviction_keeps_wf(broadcaster, frame(keepalive_payload()));
        lemma_exchange_keeps_wf(
            registry,
            channel,
            broadcaster.after_eviction(frame(keepalive_payload())),
        );
    }
}

/// However many subscriptions to a name that was never referenced follow one
/// another, exactly one broadcaster is made for it: the registry grows by one
/// channel, which holds all the subscribers, and no other channel changes.
pub proof fn lemma_one_broadcaster_per_name(registry: RegistryView, name: Seq<char>, count: nat)
    requires
        registry.wf(),
        !registry.contains(name),
        1 <= count <= u64::MAX,
    ensures
        registry.after_subscriptions(name, count).wf(),
        registry.after_subscriptions(name, count).channels.len() == registry.channels.len() + 1,
        registry.after_subscriptions(name, count).contains(name),
        registry.after_subscriptions(name, count).handle(name) == registry.channels.len(),
        registry.after_subscriptions(name, count).broadcaster(name).subscribers.len() == count,
        registry.after_subscriptions(name, count).broadcaster(name).next_id == count,
        forall|i: int|
            0 <= i < registry.channels.len() ==> registry.after_subscriptions(
                name,
                count,
            ).channels[i] == registry.channels[i],
    decreases count,
{
    if count == 1 {
        assert(registry.after_subscriptions(name, 0) == registry);
        lemma_subscribe_keeps_wf(registry, name);
        lemma_get_or_create_keeps_wf(registry, name);
    } else {
        lemma_one_broadcaster_per_name(registry, name, (count - 1) as nat);
        let before = registry.after_subscriptions(name, (count - 1) as nat);
        lemma_subscribe_keeps_wf(before, name);
        lemma_get_or_create_keeps_wf(before, name);
    }
}

} // verus!
