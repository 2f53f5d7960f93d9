use futures::FutureExt;
use sse_pubsub::broadcaster::Broadcaster;
use sse_pubsub::subscriber::Drained;

fn next(broadcaster: &mut Broadcaster, id: u64) -> Option<Vec<u8>> {
    match broadcaster.poll_next(id) {
        Drained::Message(bytes) => Some(bytes.to_vec()),
        Drained::Pending => None,
        Drained::Ended => panic!("stream of {} ended", id),
    }
}

fn drain(broadcaster: &mut Broadcaster, id: u64) -> Vec<Vec<u8>> {
    let mut messages = Vec::new();
    while let Some(bytes) = next(broadcaster, id) {
        messages.push(bytes);
    }
    messages
}

#[test]
fn new_broadcaster_has_no_subscribers() {
    let mut broadcaster = Broadcaster::new(4);
    assert_eq!(broadcaster.subscriber_count(), 0);
    assert!(broadcaster.has_room());
    assert_eq!(broadcaster.publish(b"lost"), 0);
    assert_eq!(broadcaster.evict_stale(), 0);
    assert!(!broadcaster.is_subscribed(0));
    assert!(matches!(broadcaster.poll_next(0), Drained::Ended));
}

#[test]
fn subscribe_gives_growing_identifiers_and_greets() {
    let mut broadcaster = Broadcaster::new(4);
    assert_eq!(broadcaster.subscribe(), 0);
    assert_eq!(broadcaster.subscribe(), 1);
    assert_eq!(broadcaster.subscribe(), 2);
    assert_eq!(broadcaster.subscriber_count(), 3);
    for id in 0..3 {
        assert!(broadcaster.is_subscribed(id));
        assert_eq!(drain(&mut broadcaster, id), vec![b"data: connected\n\n".to_vec()]);
    }
}

#[test]
fn publish_reaches_every_subscriber_once_and_in_order() {
    let mut broadcaster = Broadcaster::new(8);
    let ids = [broadcaster.subscribe(), broadcaster.subscribe(), broadcaster.subscribe()];
    assert_eq!(broadcaster.publish(b"one"), 3);
    assert_eq!(broadcaster.publish(b"two"), 3);
    assert_eq!(broadcaster.publish(b"three"), 3);
    for id in ids {
        assert_eq!(
            drain(&mut broadcaster, id),
            vec![
                b"data: connected\n\n".to_vec(),
                b"data: one\n\n".to_vec(),
                b"data: two\n\n".to_vec(),
                b"data: three\n\n".to_vec(),
            ]
        );
    }
}

#[test]
fn full_queue_loses_the_message_and_nobody_else_does() {
    let mut broadcaster = Broadcaster::new(2);
    let slow = broadcaster.subscribe();
    let quick = broadcaster.subscribe();
    assert_eq!(drain(&mut broadcaster, quick).len(), 1);
    assert_eq!(broadcaster.publish(b"a"), 2);
    assert_eq!(broadcaster.publish(b"b"), 1);
    assert_eq!(broadcaster.subscriber_count(), 2);
    assert_eq!(drain(&mut broadcaster, quick), vec![b"data: a\n\n".to_vec(), b"data: b\n\n".to_vec()]);
    assert_eq!(
        drain(&mut broadcaster, slow),
        vec![b"data: connected\n\n".to_vec(), b"data: a\n\n".to_vec()]
    );
}

#[test]
fn publish_does_not_shrink_the_live_set() {
    let mut broadcaster = Broadcaster::new(1);
    let id = broadcaster.subscribe();
    broadcaster.disconnect(id);
    assert_eq!(broadcaster.publish(b"a"), 0);
    assert_eq!(broadcaster.subscriber_count(), 1);
    assert!(broadcaster.is_subscribed(id));
}

#[test]
fn eviction_drops_closed_and_full_and_pings_the_rest() {
    let mut broadcaster = Broadcaster::new(2);
    let closed = broadcaster.subscribe();
    let full = broadcaster.subscribe();
    let live = broadcaster.subscribe();
    broadcaster.disconnect(closed);
    assert_eq!(broadcaster.publish(b"a"), 2);
    assert_eq!(drain(&mut broadcaster, live).len(), 2);
    assert_eq!(broadcaster.evict_stale(), 2);
    assert_eq!(broadcaster.subscriber_count(), 1);
    assert!(!broadcaster.is_subscribed(closed));
    assert!(!broadcaster.is_subscribed(full));
    assert!(broadcaster.is_subscribed(live));
    assert_eq!(drain(&mut broadcaster, live), vec![b"data: ping\n\n".to_vec()]);
    assert!(matches!(broadcaster.poll_next(closed), Drained::Ended));
    assert!(matches!(broadcaster.poll_next(full), Drained::Ended));
}

#[test]
fn eviction_keeps_the_order_of_those_who_stay() {
    let mut broadcaster = Broadcaster::new(4);
    let ids: Vec<u64> = (0..5).map(|_| broadcaster.subscribe()).collect();
    broadcaster.disconnect(ids[1]);
    broadcaster.disconnect(ids[3]);
    assert_eq!(broadcaster.evict_stale(), 2);
    assert_eq!(broadcaster.subscriber_count(), 3);
    assert_eq!(broadcaster.publish(b"m"), 3);
    for id in [ids[0], ids[2], ids[4]] {
        assert_eq!(
            drain(&mut broadcaster, id),
            vec![
                b"data: connected\n\n".to_vec(),
                b"data: ping\n\n".to_vec(),
                b"data: m\n\n".to_vec(),
            ]
        );
    }
}

#[test]
fn evicted_identifier_is_never_given_again() {
    let mut broadcaster = Broadcaster::new(4);
    let first = broadcaster.subscribe();
    broadcaster.disconnect(first);
    assert_eq!(broadcaster.evict_stale(), 1);
    let second = broadcaster.subscribe();
    assert_ne!(first, second);
    assert_eq!(second, 1);
    assert_eq!(broadcaster.publish(b"m"), 1);
    assert!(matches!(broadcaster.poll_next(first), Drained::Ended));
}

#[test]
fn disconnect_of_unknown_subscriber_changes_nothing() {
    let mut broadcaster = Broadcaster::new(4);
    let id = broadcaster.subscribe();
    broadcaster.disconnect(99);
    assert_eq!(broadcaster.subscriber_count(), 1);
    assert_eq!(broadcaster.publish(b"m"), 1);
    assert_eq!(drain(&mut broadcaster, id).len(), 2);
}

#[test]
fn disconnected_stream_has_ended_before_eviction() {
    let mut broadcaster = Broadcaster::new(4);
    let id = broadcaster.subscribe();
    broadcaster.disconnect(id);
    assert!(matches!(broadcaster.poll_next(id), Drained::Ended));
    assert!(broadcaster.is_subscribed(id));
}

#[test]
fn capacity_zero_drops_greeting_and_subscriber_is_evicted() {
    let mut broadcaster = Broadcaster::new(0);
    let id = broadcaster.subscribe();
    assert!(matches!(broadcaster.poll_next(id), Drained::Pending));
    assert_eq!(broadcaster.publish(b"m"), 0);
    assert_eq!(broadcaster.evict_stale(), 1);
    assert_eq!(broadcaster.subscriber_count(), 0);
}

#[test]
fn signal_is_raised_by_publish_and_by_eviction() {
    let mut broadcaster = Broadcaster::new(1);
    let id = broadcaster.subscribe();
    let signal = broadcaster.signal(id).expect("subscribed");
    assert!(broadcaster.signal(id + 1).is_none());
    assert!(signal.notified().now_or_never().is_some());
    assert!(signal.notified().now_or_never().is_none());
    assert_eq!(broadcaster.publish(b"dropped"), 0);
    assert!(signal.notified().now_or_never().is_none());
    assert_eq!(drain(&mut broadcaster, id).len(), 1);
    assert_eq!(broadcaster.publish(b"taken"), 1);
    assert!(signal.notified().now_or_never().is_some());
    assert_eq!(broadcaster.evict_stale(), 1);
    assert!(signal.notified().now_or_never().is_some());
    assert!(broadcaster.signal(id).is_none());
}
