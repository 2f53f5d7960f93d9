//! The wire framing of one event: a line `data: <payload>` and a blank line.

use crate::message::{as_slice, contents, freeze};
use bytes::Bytes;
use vstd::prelude::*;

verus! {

/// The bytes of `data: `, which open every event.
pub open spec fn event_prefix() -> Seq<u8> {
    seq![100u8, 97u8, 116u8, 97u8, 58u8, 32u8]
}

/// The bytes of two line feeds, which close every event.
pub open spec fn event_terminator() -> Seq<u8> {
    seq![10u8, 10u8]
}

/// The payload `ping` of a keepalive event.
pub open spec fn keepalive_payload() -> Seq<u8> {
    seq![112u8, 105u8, 110u8, 103u8]
}

/// The payload `connected` of the event that greets a new subscriber.
pub open spec fn connected_payload() -> Seq<u8> {
    seq![99u8, 111u8, 110u8, 110u8, 101u8, 99u8, 116u8, 101u8, 100u8]
}

/// The event that carries `payload`.
pub open spec fn frame(payload: Seq<u8>) -> Seq<u8> {
    event_prefix() + payload + event_terminator()
}

/// Whether `bytes` opens with the prefix and closes with the terminator, the two
/// not overlapping.
pub open spec fn is_frame(bytes: Seq<u8>) -> bool {
    &&& bytes.len() >= event_prefix().len() + event_terminator().len()
    &&& bytes.subrange(0, event_prefix().len() as int) == event_prefix()
    &&& bytes.subrange(bytes.len() - event_terminator().len(), bytes.len() as int)
        == event_terminator()
}

/// The payload between prefix and terminator, where `bytes` is an event.
pub open spec fn unframe(bytes: Seq<u8>) -> Option<Seq<u8>> {
    if is_frame(bytes) {
        Some(
            bytes.subrange(
                event_prefix().len() as int,
                bytes.len() - event_terminator().len(),
            ),
        )
    } else {
        None
    }
}

/// Unframing an event gives back its payload, whatever the payload holds: the
/// payload is cut out by position, so a prefix or a blank line inside it is kept.
pub proof fn lemma_unframe_frame(payload: Seq<u8>)
    ensures
        is_frame(frame(payload)),
        unframe(frame(payload)) == Some(payload),
{
    let event = frame(payload);
    let start = event_prefix().len() as int;
    let end = event.len() - event_terminator().len();
    assert(event.subrange(0, start) =~= event_prefix());
    assert(event.subrange(end, event.len() as int) =~= event_terminator());
    assert(event.subrange(start, end) =~= payload);
}

/// Framing what was unframed gives back the event: `frame` and `unframe` are
/// inverse to each other on events.
pub proof fn lemma_frame_unframe(bytes: Seq<u8>)
    requires
        is_frame(bytes),
    ensures
        frame(unframe(bytes).unwrap()) == bytes,
{
    let start = event_prefix().len() as int;
    let end = bytes.len() - event_terminator().len();
    assert(bytes =~= bytes.subrange(0, start) + bytes.subrange(start, end) + bytes.subrange(
        end,
        bytes.len() as int,
    ));
}

/// Two payloads with the same event are the same payload.
pub proof fn lemma_frame_injective(first: Seq<u8>, second: Seq<u8>)
    requires
        frame(first) == frame(second),
    ensures
        first == second,
{
    lemma_unframe_frame(first);
    lemma_unframe_frame(second);
}

fn push_prefix(bytes: &mut Vec<u8>)
    ensures
        final(bytes)@ == old(bytes)@ + event_prefix(),
{
    bytes.push(100u8);
    bytes.push(97u8);
    bytes.push(116u8);
    bytes.push(97u8);
    bytes.push(58u8);
    bytes.push(32u8);
    assert(bytes@ =~= old(bytes)@ + event_prefix());
}

fn push_terminator(bytes: &mut Vec<u8>)
    ensures
        final(bytes)@ == old(bytes)@ + event_terminator(),
{
    bytes.push(10u8);
    bytes.push(10u8);
    assert(bytes@ =~= old(bytes)@ + event_terminator());
}

/// Frames `payload` as one event, in a vector.
pub fn frame_bytes(payload: &[u8]) -> (event: Vec<u8>)
    ensures
        event@ == frame(payload@),
        unframe(event@) == Some(payload@),
{
    proof {
        lemma_unframe_frame(payload@);
    }
    let mut event: Vec<u8> = Vec::new();
    push_prefix(&mut event);
    let mut at: usize = 0;
    while at < payload.len()
        invariant
            at <= payload@.len(),
            event@ == event_prefix() + payload@.subrange(0, at as int),
        decreases payload@.len() - at,
    {
        event.push(payload[at]);
        at += 1;
        assert(event@ =~= event_prefix() + payload@.subrange(0, at as int));
    }
    assert(payload@.subrange(0, at as int) =~= payload@);
    push_terminator(&mut event);
    event
}

/// Frames `payload` as the message that is handed to subscribers.
pub fn encode(payload: &[u8]) -> (message: Bytes)
    ensures
        contents(message) == frame(payload@),
        unframe(contents(message)) == Some(payload@),
{
    freeze(frame_bytes(payload))
}

/// The keepalive event. It differs from a published `ping` in nothing.
pub fn encode_keepalive() -> (message: Bytes)
    ensures
        contents(message) == frame(keepalive_payload()),
{
    let payload: [u8; 4] = [112u8, 105u8, 110u8, 103u8];
    assert(payload@ =~= keepalive_payload());
    encode(payload.as_slice())
}

/// The event that acknowledges a new subscription.
pub fn encode_connected() -> (message: Bytes)
    ensures
        contents(message) == frame(connected_payload()),
{
    let payload: [u8; 9] = [99u8, 111u8, 110u8, 110u8, 101u8, 99u8, 116u8, 101u8, 100u8];
    assert(payload@ =~= connected_payload());
    encode(payload.as_slice())
}

/// Reads the payload out of an event; `None` where `event` is not one.
pub fn decode(event: &[u8]) -> (payload: Option<Vec<u8>>)
    ensures
        payload.is_some() == is_frame(event@),
        payload matches Some(bytes) ==> Some(bytes@) == unframe(event@),
{
    let length = event.len();
    if length < 8 {
        return None;
    }
    let end: usize = length - 2;
    if event[0] != 100u8 || event[1] != 97u8 || event[2] != 116u8 || event[3] != 97u8 || event[4]
        != 58u8 || event[5] != 32u8 || event[end] != 10u8 || event[end + 1] != 10u8 {
        proof {
            if is_frame(event@) {
                let head = event@.subrange(0, 6);
                let tail = event@.subrange(length - 2, length as int);
                assert(head[0] == event@[0] && head[1] == event@[1] && head[2] == event@[2]);
                assert(head[3] == event@[3] && head[4] == event@[4] && head[5] == event@[5]);
                assert(tail[0] == event@[length - 2] && tail[1] == event@[length - 1]);
            }
        }
        return None;
    }
    assert(event@.subrange(0, 6) =~= event_prefix());
    assert(event@.subrange(length - 2, length as int) =~= event_terminator());
    let mut bytes: Vec<u8> = Vec::new();
    let mut at: usize = 6;
    while at < end
        invariant
            6 <= at <= end,
            end == event@.len() - 2,
            bytes@ == event@.subrange(6, at as int),
        decreases end - at,
    {
        bytes.push(event[at]);
        at += 1;
        assert(bytes@ =~= event@.subrange(6, at as int));
    }
    Some(bytes)
}

/// Reads the payload out of a message; `None` where the message is no event.
/// A message made by `encode` gives back the payload it was made from.
pub fn decode_message(message: &Bytes) -> (payload: Option<Vec<u8>>)
    ensures
        payload.is_some() == is_frame(contents(*message)),
        payload matches Some(bytes) ==> Some(bytes@) == unframe(contents(*message)),
{
    decode(as_slice(message))
}

} // verus!
