use futures::FutureExt;
use sse_pubsub::registry::{
    ChannelRegistry, Opened, PublishError, Subscription, DEFAULT_QUEUE_CAPACITY,
    KEEPALIVE_PERIOD_SECS,
};
use sse_pubsub::subscriber::Drained;

fn next(registry: &mut ChannelRegistry, subscription: Subscription) -> Option<Vec<u8>> {
    match registry.poll_next(subscription.channel, subscription.subscriber) {
        Drained::Message(bytes) => Some(bytes.to_vec()),
        Drained::Pending => None,
        Drained::Ended => panic!("stream ended"),
    }
}

fn drain(registry: &mut ChannelRegistry, subscription: Subscription) -> Vec<Vec<u8>> {
    let mut messages = Vec::new();
    while let Some(bytes) = next(registry, subscription) {
        messages.push(bytes);
    }
    messages
}

#[test]
fn reference_policy_constants() {
    assert_eq!(DEFAULT_QUEUE_CAPACITY, 500000);
    assert_eq!(KEEPALIVE_PERIOD_SECS, 10);
}

#[test]
fn unknown_channel_is_absent_until_asked_for() {
    let mut registry = ChannelRegistry::new();
    assert_eq!(registry.channel_count(), 0);
    assert_eq!(registry.lookup("room1"), None);
    assert_eq!(registry.publish("room1", b"x"), Err(PublishError::ChannelAbsent));
    assert_eq!(registry.lookup("room1"), None);
    assert_eq!(registry.channel_count(), 0);
    assert_eq!(registry.get_or_create("room1"), Opened { channel: 0, created: true });
    assert_eq!(registry.lookup("room1"), Some(0));
    assert_eq!(registry.publish("room1", b"x"), Ok(0));
    assert_eq!(registry.channel_count(), 1);
}

#[test]
fn get_or_create_makes_one_broadcaster_per_name() {
    let mut registry = ChannelRegistry::with_capacity(4);
    assert_eq!(registry.get_or_create("a"), Opened { channel: 0, created: true });
    for _ in 0..10 {
        assert_eq!(registry.get_or_create("a"), Opened { channel: 0, created: false });
    }
    assert_eq!(registry.get_or_create("b"), Opened { channel: 1, created: true });
    assert_eq!(registry.get_or_create("a"), Opened { channel: 0, created: false });
    assert_eq!(registry.channel_count(), 2);
    assert_eq!(registry.capacity(), 4);
    assert_eq!(registry.broadcaster(1).expect("made").capacity(), 4);
}

#[test]
fn many_first_subscriptions_share_one_broadcaster() {
    let mut registry = ChannelRegistry::with_capacity(4);
    let subscriptions: Vec<Subscription> = (0..50).map(|_| registry.subscribe("room")).collect();
    assert_eq!(registry.channel_count(), 1);
    for (place, subscription) in subscriptions.iter().enumerate() {
        assert_eq!(subscription.channel, 0);
        assert_eq!(subscription.subscriber, place as u64);
        assert_eq!(subscription.created, place == 0);
    }
    assert_eq!(registry.broadcaster(0).expect("made").subscriber_count(), 50);
    assert_eq!(registry.publish("room", b"m"), Ok(50));
}

#[test]
fn channel_names_are_case_sensitive_and_unchecked() {
    let mut registry = ChannelRegistry::with_capacity(4);
    assert_eq!(registry.get_or_create("Room").channel, 0);
    assert_eq!(registry.get_or_create("room").channel, 1);
    assert_eq!(registry.get_or_create("").channel, 2);
    assert_eq!(registry.get_or_create("room ").channel, 3);
    assert_eq!(registry.get_or_create("r\u{f6}\u{f6}m/\n").channel, 4);
    assert_eq!(registry.lookup("ROOM"), None);
    assert_eq!(registry.lookup(""), Some(2));
    assert_eq!(registry.lookup("r\u{f6}\u{f6}m/\n"), Some(4));
}

#[test]
fn subscribe_publish_and_absent_channel() {
    let mut registry = ChannelRegistry::new();
    let subscription = registry.subscribe("room1");
    assert!(subscription.created);
    assert_eq!(next(&mut registry, subscription), Some(b"data: connected\n\n".to_vec()));
    assert_eq!(next(&mut registry, subscription), None);
    assert_eq!(registry.publish("room1", b"hello"), Ok(1));
    assert_eq!(next(&mut registry, subscription), Some(b"data: hello\n\n".to_vec()));
    assert_eq!(registry.publish("room2", b"x"), Err(PublishError::ChannelAbsent));
    assert_eq!(next(&mut registry, subscription), None);
    assert_eq!(registry.lookup("room2"), None);
}

#[test]
fn two_subscribers_observe_publish_order() {
    let mut registry = ChannelRegistry::new();
    let first = registry.subscribe("room1");
    let second = registry.subscribe("room1");
    assert_eq!(registry.publish("room1", b"A"), Ok(2));
    assert_eq!(registry.publish("room1", b"B"), Ok(2));
    for subscription in [first, second] {
        assert_eq!(
            drain(&mut registry, subscription),
            vec![b"data: connected\n\n".to_vec(), b"data: A\n\n".to_vec(), b"data: B\n\n".to_vec()]
        );
    }
}

#[test]
fn channels_do_not_see_each_other() {
    let mut registry = ChannelRegistry::with_capacity(8);
    let one = registry.subscribe("one");
    let two = registry.subscribe("two");
    assert_eq!((one.channel, two.channel), (0, 1));
    assert_eq!((one.subscriber, two.subscriber), (0, 0));
    assert_eq!(registry.publish("one", b"1"), Ok(1));
    assert_eq!(registry.publish("two", b"2"), Ok(1));
    assert_eq!(
        drain(&mut registry, one),
        vec![b"data: connected\n\n".to_vec(), b"data: 1\n\n".to_vec()]
    );
    assert_eq!(
        drain(&mut registry, two),
        vec![b"data: connected\n\n".to_vec(), b"data: 2\n\n".to_vec()]
    );
}

#[test]
fn closed_subscriber_is_gone_after_one_eviction_cycle() {
    let mut registry = ChannelRegistry::with_capacity(8);
    let gone = registry.subscribe("room");
    let stays = registry.subscribe("room");
    registry.disconnect(gone.channel, gone.subscriber);
    assert_eq!(registry.publish("room", b"m"), Ok(1));
    assert_eq!(registry.broadcaster(0).expect("made").subscriber_count(), 2);
    assert_eq!(registry.evict_stale(gone.channel), 1);
    let broadcaster = registry.broadcaster(0).expect("made");
    assert_eq!(broadcaster.subscriber_count(), 1);
    assert!(!broadcaster.is_subscribed(gone.subscriber));
    assert!(broadcaster.is_subscribed(stays.subscriber));
    assert!(matches!(registry.poll_next(gone.channel, gone.subscriber), Drained::Ended));
    assert_eq!(
        drain(&mut registry, stays),
        vec![
            b"data: connected\n\n".to_vec(),
            b"data: m\n\n".to_vec(),
            b"data: ping\n\n".to_vec(),
        ]
    );
}

#[test]
fn channel_outlives_its_subscribers() {
    let mut registry = ChannelRegistry::with_capacity(8);
    let only = registry.subscribe("room");
    registry.disconnect(only.channel, only.subscriber);
    assert_eq!(registry.evict_stale(only.channel), 1);
    assert_eq!(registry.lookup("room"), Some(0));
    assert_eq!(registry.publish("room", b"m"), Ok(0));
    let again = registry.subscribe("room");
    assert!(!again.created);
    assert_eq!(again.channel, 0);
    assert_eq!(again.subscriber, 1);
}

#[test]
fn unknown_handle_is_harmless() {
    let mut registry = ChannelRegistry::with_capacity(8);
    let subscription = registry.subscribe("room");
    assert!(registry.broadcaster(5).is_none());
    assert!(registry.signal(5, 0).is_none());
    assert!(registry.signal(0, 5).is_none());
    assert!(matches!(registry.poll_next(5, 0), Drained::Ended));
    registry.disconnect(5, 0);
    assert_eq!(registry.evict_stale(5), 0);
    assert_eq!(drain(&mut registry, subscription).len(), 1);
}

#[test]
fn admits_while_identifiers_are_left() {
    let mut registry = ChannelRegistry::with_capacity(8);
    assert!(registry.admits("room"));
    registry.subscribe("room");
    assert!(registry.admits("room"));
    assert!(registry.admits("other"));
}

#[test]
fn full_queue_does_not_fail_publish_for_others() {
    let mut registry = ChannelRegistry::with_capacity(1);
    let slow = registry.subscribe("room");
    let quick = registry.subscribe("room");
    assert_eq!(drain(&mut registry, quick).len(), 1);
    assert_eq!(registry.publish("room", b"m"), Ok(1));
    assert_eq!(drain(&mut registry, quick), vec![b"data: m\n\n".to_vec()]);
    assert_eq!(drain(&mut registry, slow), vec![b"data: connected\n\n".to_vec()]);
}

#[test]
fn keepalive_is_not_told_apart_from_a_published_ping() {
    let mut registry = ChannelRegistry::with_capacity(8);
    let subscription = registry.subscribe("room");
    assert_eq!(drain(&mut registry, subscription).len(), 1);
    assert_eq!(registry.publish("room", b"ping"), Ok(1));
    assert_eq!(registry.evict_stale(subscription.channel), 0);
    let seen = drain(&mut registry, subscription);
    assert_eq!(seen.len(), 2);
    assert_eq!(seen[0], seen[1]);
}

#[test]
fn registry_signal_wakes_on_publish() {
    let mut registry = ChannelRegistry::with_capacity(8);
    let subscription = registry.subscribe("room");
    let signal = registry.signal(subscription.channel, subscription.subscriber).expect("live");
    assert!(signal.notified().now_or_never().is_some());
    assert!(signal.notified().now_or_never().is_none());
    assert_eq!(registry.publish("other", b"m"), Err(PublishError::ChannelAbsent));
    assert!(signal.notified().now_or_never().is_none());
    assert_eq!(registry.publish("room", b"m"), Ok(1));
    assert!(signal.notified().now_or_never().is_some());
}
