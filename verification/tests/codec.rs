use bytes::Bytes;
use sse_pubsub::codec::{
    decode, decode_message, encode, encode_connected, encode_keepalive, frame_bytes,
};

#[test]
fn encode_wraps_payload_in_event_framing() {
    let message = encode(b"hello");
    assert_eq!(&message[..], b"data: hello\n\n");
}

#[test]
fn encode_of_empty_payload_is_prefix_and_terminator() {
    assert_eq!(&encode(b"")[..], b"data: \n\n");
    assert_eq!(frame_bytes(b""), b"data: \n\n".to_vec());
}

#[test]
fn keepalive_event_carries_ping() {
    assert_eq!(&encode_keepalive()[..], b"data: ping\n\n");
    assert_eq!(&encode_keepalive()[..], &encode(b"ping")[..]);
}

#[test]
fn connected_event_carries_connected() {
    assert_eq!(&encode_connected()[..], b"data: connected\n\n");
}

#[test]
fn decode_gives_back_the_payload() {
    assert_eq!(decode(&encode(b"hello")), Some(b"hello".to_vec()));
    assert_eq!(decode(&encode(b"")), Some(Vec::new()));
}

#[test]
fn decode_keeps_delimiters_inside_the_payload() {
    let payloads: [&[u8]; 5] = [b"\n\n", b"data: ", b"a\n\ndata: b\n\n", b"\n", b"data: x\n\n\n\n"];
    for payload in payloads {
        assert_eq!(decode(&encode(payload)), Some(payload.to_vec()));
    }
}

#[test]
fn decode_refuses_what_is_no_event() {
    assert_eq!(decode(b""), None);
    assert_eq!(decode(b"data: \n"), None);
    assert_eq!(decode(b"data:  x\n"), None);
    assert_eq!(decode(b"Data: x\n\n"), None);
    assert_eq!(decode(b"data:x\n\n\n"), None);
    assert_eq!(decode(b"data: x\n "), None);
    assert_eq!(decode(b"data: x \n"), None);
}

#[test]
fn decode_of_shortest_event_is_empty_payload() {
    assert_eq!(decode(b"data: \n\n"), Some(Vec::new()));
}

#[test]
fn decode_message_reads_what_encode_wrote() {
    assert_eq!(decode_message(&encode(b"hello")), Some(b"hello".to_vec()));
    assert_eq!(decode_message(&encode(b"")), Some(Vec::new()));
    assert_eq!(decode_message(&encode(b"\n\ndata: ")), Some(b"\n\ndata: ".to_vec()));
    assert_eq!(decode_message(&encode_keepalive()), Some(b"ping".to_vec()));
    assert_eq!(decode_message(&encode_connected()), Some(b"connected".to_vec()));
}

#[test]
fn decode_message_refuses_what_is_no_event() {
    assert_eq!(decode_message(&Bytes::from_static(b"hello")), None);
    assert_eq!(decode_message(&Bytes::new()), None);
}
