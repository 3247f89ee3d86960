use bytes::{Bytes, BytesMut};
use ocypode::common::wire::WireEncode;
use ocypode::protocol::error::DecodeError;
use ocypode::protocol::message::publish::{Pub, HAS_HEADER_BIT, HAS_REPLY_TO_BIT};
use ocypode::protocol::wire::{CommandCodec, Headers};
use ocypode::protocol::Command;
use ocypode::topic::{Topic, TopicError};

fn make_topic(raw: &[u8]) -> Topic {
    let mut buf = BytesMut::new();
    buf.put_length_prefixed_u16(raw);
    Topic::decode(&mut buf.freeze()).unwrap()
}

fn encode_pub(message: &Pub) -> Bytes {
    let mut buf = BytesMut::new();
    message.encode(&mut buf);
    buf.freeze()
}

fn make_header(key: &'static [u8], value: &'static [u8]) -> Headers {
    let mut h = Headers::new();
    h.insert(Bytes::from_static(key), Bytes::from_static(value));
    h
}

#[test]
fn encode_decode_minimal_roundtrip() {
    let original = Pub {
        topic: make_topic(b"events/orders"),
        reply_to: None,
        header: None,
        payload: Bytes::from_static(b"hello"),
    };
    let mut bytes = encode_pub(&original);
    let decoded = Pub::decode(original.flags(), &mut bytes).unwrap();

    assert_eq!(decoded.topic.as_bytes(), &Bytes::from_static(b"events/orders"));
    assert!(decoded.reply_to.is_none());
    assert!(decoded.header.is_none());
    assert_eq!(decoded.payload, Bytes::from_static(b"hello"));
}

#[test]
fn has_reply_to_flag_set() {
    let message = Pub {
        topic: make_topic(b"topic"),
        reply_to: Some(make_topic(b"reply")),
        header: None,
        payload: Bytes::new(),
    };
    assert_eq!(message.flags() & HAS_REPLY_TO_BIT, HAS_REPLY_TO_BIT);
}

#[test]
fn has_reply_to_flag_unset() {
    let message = Pub {
        topic: make_topic(b"topic"),
        reply_to: None,
        header: None,
        payload: Bytes::new(),
    };
    assert_eq!(message.flags() & HAS_REPLY_TO_BIT, 0);
}

#[test]
fn has_header_flag_set() {
    let message = Pub {
        topic: make_topic(b"topic"),
        reply_to: None,
        header: Some(make_header(b"key", b"value")),
        payload: Bytes::new(),
    };
    assert_eq!(message.flags() & HAS_HEADER_BIT, HAS_HEADER_BIT);
}

#[test]
fn has_header_flag_unset() {
    let message = Pub {
        topic: make_topic(b"topic"),
        reply_to: None,
        header: None,
        payload: Bytes::new(),
    };
    assert_eq!(message.flags() & HAS_HEADER_BIT, 0);
}

#[test]
fn encode_decode_with_reply_to_roundtrip() {
    let original = Pub {
        topic: make_topic(b"requests"),
        reply_to: Some(make_topic(b"replies/123")),
        header: None,
        payload: Bytes::from_static(b"ping"),
    };
    let mut bytes = encode_pub(&original);
    let decoded = Pub::decode(original.flags(), &mut bytes).unwrap();

    assert_eq!(decoded.topic.as_bytes(), &Bytes::from_static(b"requests"));
    assert_eq!(decoded.reply_to.unwrap().as_bytes(), &Bytes::from_static(b"replies/123"));
    assert!(decoded.header.is_none());
    assert_eq!(decoded.payload, Bytes::from_static(b"ping"));
}

#[test]
fn encode_decode_with_single_header_roundtrip() {
    let mut header = Headers::new();
    header.insert(Bytes::from_static(b"content-type"), Bytes::from_static(b"application/json"));
    let original = Pub {
        topic: make_topic(b"metrics"),
        reply_to: None,
        header: Some(header),
        payload: Bytes::from_static(b"{\"value\":42}"),
    };
    let mut bytes = encode_pub(&original);
    let decoded = Pub::decode(original.flags(), &mut bytes).unwrap();

    assert_eq!(decoded.topic.as_bytes(), &Bytes::from_static(b"metrics"));
    assert!(decoded.reply_to.is_none());
    assert_eq!(decoded.payload, Bytes::from_static(b"{\"value\":42}"));
    let entries = decoded.header.unwrap();
    let entries = entries.entries();
    assert_eq!(entries[0].0, Bytes::from_static(b"content-type"));
    assert_eq!(entries[0].1, Bytes::from_static(b"application/json"));
}

#[test]
fn encode_decode_with_multiple_headers_preserves_order() {
    let mut header = Headers::new();
    header.insert(Bytes::from_static(b"trace-id"), Bytes::from_static(b"xyz"));
    header.insert(Bytes::from_static(b"content-type"), Bytes::from_static(b"application/json"));
    let original = Pub {
        topic: make_topic(b"rpc/add"),
        reply_to: Some(make_topic(b"inbox/abc")),
        header: Some(header),
        payload: Bytes::from_static(b"1+2"),
    };
    let mut bytes = encode_pub(&original);
    let decoded = Pub::decode(original.flags(), &mut bytes).unwrap();

    assert_eq!(decoded.topic.as_bytes(), &Bytes::from_static(b"rpc/add"));
    assert_eq!(decoded.reply_to.unwrap().as_bytes(), &Bytes::from_static(b"inbox/abc"));
    assert_eq!(decoded.payload, Bytes::from_static(b"1+2"));
    let entries = decoded.header.unwrap();
    let entries = entries.entries();
    assert_eq!(entries[0], (Bytes::from_static(b"trace-id"), Bytes::from_static(b"xyz")));
    assert_eq!(
        entries[1],
        (Bytes::from_static(b"content-type"), Bytes::from_static(b"application/json"))
    );
}

#[test]
fn pub_command_and_flag_values() {
    assert_eq!(Pub::command(), Command::PUB);
    let both = Pub {
        topic: make_topic(b"t"),
        reply_to: Some(make_topic(b"r")),
        header: Some(Headers::new()),
        payload: Bytes::new(),
    };
    assert_eq!(both.flags(), 3);
    let header_only = Pub {
        topic: make_topic(b"t"),
        reply_to: None,
        header: Some(Headers::new()),
        payload: Bytes::new(),
    };
    assert_eq!(header_only.flags(), 2);
}

#[test]
fn pub_bytes_are_exact() {
    let message = Pub {
        topic: make_topic(b"a/b"),
        reply_to: Some(make_topic(b"r")),
        header: Some(make_header(b"k", b"vv")),
        payload: Bytes::from_static(b"xyz"),
    };
    let bytes = encode_pub(&message);
    let expected: Vec<u8> = vec![
        0, 3, b'a', b'/', b'b', // topic
        0, 1, b'r', // reply_to
        0, 6, 1, b'k', 0, 2, b'v', b'v', // headers block
        3, b'x', b'y', b'z', // payload
    ];
    assert_eq!(bytes.as_ref(), expected.as_slice());
}

#[test]
fn pub_roundtrip_with_empty_payload_and_empty_headers() {
    let original = Pub {
        topic: make_topic(b"t"),
        reply_to: None,
        header: Some(Headers::new()),
        payload: Bytes::new(),
    };
    let mut bytes = encode_pub(&original);
    assert_eq!(bytes.as_ref(), &[0, 1, b't', 0, 0, 0]);
    let decoded = Pub::decode(original.flags(), &mut bytes).unwrap();
    assert!(decoded.header.unwrap().entries().is_empty());
    assert!(decoded.payload.is_empty());
    assert!(bytes.is_empty());
}

#[test]
fn pub_roundtrip_with_two_byte_payload_length() {
    let payload = Bytes::from(vec![7u8; 300]);
    let original =
        Pub { topic: make_topic(b"t"), reply_to: None, header: None, payload: payload.clone() };
    let mut bytes = encode_pub(&original);
    assert_eq!(&bytes[3..5], &[0xAC, 0x02]);
    let decoded = Pub::decode(0, &mut bytes).unwrap();
    assert_eq!(decoded.payload, payload);
}

#[test]
fn pub_decode_rejects_wildcard_topics() {
    let mut buf = BytesMut::new();
    buf.put_length_prefixed_u16(b"a/+/b");
    buf.put_varint(0);
    assert!(matches!(
        Pub::decode(0, &mut buf.freeze()),
        Err(DecodeError::InvalidTopic(TopicError::WildcardInPublishTopic))
    ));
    let mut buf = BytesMut::new();
    buf.put_length_prefixed_u16(b"a");
    buf.put_length_prefixed_u16(b"r/#");
    buf.put_varint(0);
    assert!(matches!(
        Pub::decode(HAS_REPLY_TO_BIT, &mut buf.freeze()),
        Err(DecodeError::InvalidTopic(TopicError::WildcardInPublishTopic))
    ));
}

#[test]
fn pub_decode_rejects_cut_payload() {
    let mut bytes = Bytes::from_static(&[0, 1, b't', 5, b'a', b'b']);
    assert!(matches!(
        Pub::decode(0, &mut bytes),
        Err(DecodeError::BufferTooShort { expected: 5, actual: 2 })
    ));
}

#[test]
fn pub_decode_rejects_cut_header_entry() {
    let mut bytes = Bytes::from_static(&[0, 1, b't', 0, 3, 1, b'k', 0, 0]);
    assert!(matches!(
        Pub::decode(HAS_HEADER_BIT, &mut bytes),
        Err(DecodeError::BufferTooShort { expected: 2, actual: 1 })
    ));
}

#[test]
fn pub_decode_rejects_long_payload_length() {
    let mut bytes = Bytes::from_static(&[0, 1, b't', 0x80, 0x80, 0x80, 0x80, 0x01]);
    assert!(matches!(Pub::decode(0, &mut bytes), Err(DecodeError::VariableLengthOverflow)));
}
