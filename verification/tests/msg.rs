use bytes::{Bytes, BytesMut};
use ocypode::common::wire::WireEncode;
use ocypode::protocol::error::DecodeError;
use ocypode::protocol::message::msg::Msg;
use ocypode::protocol::message::publish::{HAS_HEADER_BIT, HAS_REPLY_TO_BIT};
use ocypode::protocol::wire::{CommandCodec, Headers};
use ocypode::protocol::Command;
use ocypode::topic::{Topic, TopicError};

fn make_topic(raw: &[u8]) -> Topic {
    let mut buf = BytesMut::new();
    buf.put_length_prefixed_u16(raw);
    Topic::decode(&mut buf.freeze()).unwrap()
}

fn encode_msg(message: &Msg) -> Bytes {
    let mut buf = BytesMut::new();
    message.encode(&mut buf);
    buf.freeze()
}

#[test]
fn msg_minimal_roundtrip() {
    let original = Msg {
        topic: make_topic(b"events/orders"),
        subscription_id: Bytes::from_static(b"sub-7"),
        reply_to: None,
        header: None,
        payload: Bytes::from_static(b"hello"),
    };
    assert_eq!(Msg::command(), Command::MSG);
    assert_eq!(original.flags(), 0);
    let mut bytes = encode_msg(&original);
    let decoded = Msg::decode(original.flags(), &mut bytes).unwrap();
    assert_eq!(decoded.topic.as_bytes(), &Bytes::from_static(b"events/orders"));
    assert_eq!(decoded.subscription_id, Bytes::from_static(b"sub-7"));
    assert!(decoded.reply_to.is_none());
    assert!(decoded.header.is_none());
    assert_eq!(decoded.payload, Bytes::from_static(b"hello"));
    assert!(bytes.is_empty());
}

#[test]
fn msg_full_roundtrip_keeps_header_order_and_duplicates() {
    let mut header = Headers::new();
    header.insert(Bytes::from_static(b"k"), Bytes::from_static(b"first"));
    header.insert(Bytes::from_static(b"other"), Bytes::new());
    header.insert(Bytes::from_static(b"k"), Bytes::from_static(b"second"));
    let original = Msg {
        topic: make_topic(b"a/b/c"),
        subscription_id: Bytes::from_static(b"s"),
        reply_to: Some(make_topic(b"inbox/1")),
        header: Some(header),
        payload: Bytes::new(),
    };
    assert_eq!(original.flags(), HAS_REPLY_TO_BIT | HAS_HEADER_BIT);
    let mut bytes = encode_msg(&original);
    let decoded = Msg::decode(original.flags(), &mut bytes).unwrap();
    assert_eq!(decoded.topic.layer_count(), 3);
    assert_eq!(decoded.topic.layer(2), b"c");
    assert_eq!(decoded.reply_to.unwrap().as_bytes(), &Bytes::from_static(b"inbox/1"));
    let header = decoded.header.unwrap();
    let entries = header.entries();
    assert_eq!(entries.len(), 3);
    assert_eq!(entries[0], (Bytes::from_static(b"k"), Bytes::from_static(b"first")));
    assert_eq!(entries[1], (Bytes::from_static(b"other"), Bytes::new()));
    assert_eq!(entries[2], (Bytes::from_static(b"k"), Bytes::from_static(b"second")));
    assert!(decoded.payload.is_empty());
}

#[test]
fn msg_bytes_are_exact() {
    let mut header = Headers::new();
    header.insert(Bytes::from_static(b"k"), Bytes::from_static(b"v"));
    let message = Msg {
        topic: make_topic(b"t"),
        subscription_id: Bytes::from_static(b"id"),
        reply_to: Some(make_topic(b"r")),
        header: Some(header),
        payload: Bytes::from_static(b"p"),
    };
    let bytes = encode_msg(&message);
    let expected: Vec<u8> = vec![
        0, 1, b't', // topic
        0, 2, b'i', b'd', // subscription id
        0, 1, b'r', // reply_to
        0, 5, 1, b'k', 0, 1, b'v', // headers block
        1, b'p', // payload
    ];
    assert_eq!(bytes.as_ref(), expected.as_slice());
}

#[test]
fn msg_decode_reports_errors() {
    let mut wildcard = Bytes::from_static(&[0, 1, b'#', 0, 0, 0]);
    assert!(matches!(
        Msg::decode(0, &mut wildcard),
        Err(DecodeError::InvalidTopic(TopicError::WildcardInPublishTopic))
    ));
    let mut cut_id = Bytes::from_static(&[0, 1, b't', 0, 4, b'i']);
    assert!(matches!(
        Msg::decode(0, &mut cut_id),
        Err(DecodeError::BufferTooShort { expected: 4, actual: 1 })
    ));
    let mut no_payload = Bytes::from_static(&[0, 1, b't', 0, 0]);
    assert!(matches!(
        Msg::decode(0, &mut no_payload),
        Err(DecodeError::BufferTooShort { expected: 1, actual: 0 })
    ));
}
