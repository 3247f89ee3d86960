use bytes::{Bytes, BytesMut};
use ocypode::common::wire::WireEncode;
use ocypode::topic::{Topic, TopicError, TopicFilter, WildcardKind};

fn make_wire_bytes(topic: &[u8]) -> Bytes {
    let mut buf = BytesMut::new();
    buf.put_length_prefixed_u16(topic);
    buf.freeze()
}

#[test]
fn topic_decode_simple() {
    let mut src = make_wire_bytes(b"sensor/data");
    let topic = Topic::decode(&mut src).unwrap();
    assert_eq!(topic.as_bytes(), &Bytes::from_static(b"sensor/data"));
    assert_eq!(topic.layer_count(), 2);
    assert_eq!(topic.layer(0), b"sensor");
    assert_eq!(topic.layer(1), b"data");
}

#[test]
fn topic_decode_single_layer() {
    let mut src = make_wire_bytes(b"events");
    let topic = Topic::decode(&mut src).unwrap();
    assert_eq!(topic.layer_count(), 1);
    assert_eq!(topic.layer(0), b"events");
}

#[test]
fn topic_decode_max_layers() {
    let mut src = make_wire_bytes(b"a/b/c/d/e/f/g/h");
    let topic = Topic::decode(&mut src).unwrap();
    assert_eq!(topic.layer_count(), 8);
}

#[test]
fn topic_encode_roundtrip() {
    let mut src = make_wire_bytes(b"sensor/data/temperature");
    let topic = Topic::decode(&mut src).unwrap();
    let mut dst = BytesMut::new();
    topic.encode_to(&mut dst);
    let mut roundtripped = dst.freeze();
    let decoded = Topic::decode(&mut roundtripped).unwrap();
    assert_eq!(decoded.as_bytes(), &Bytes::from_static(b"sensor/data/temperature"));
}

#[test]
fn topic_rejects_leading_slash() {
    let mut src = make_wire_bytes(b"/sensor/data");
    assert!(matches!(Topic::decode(&mut src), Err(TopicError::LeadingSlash)));
}

#[test]
fn topic_rejects_trailing_slash() {
    let mut src = make_wire_bytes(b"sensor/data/");
    assert!(matches!(Topic::decode(&mut src), Err(TopicError::TrailingSlash)));
}

#[test]
fn topic_rejects_empty_layer() {
    let mut src = make_wire_bytes(b"sensor//data");
    assert!(matches!(Topic::decode(&mut src), Err(TopicError::EmptyLayer)));
}

#[test]
fn topic_rejects_too_many_layers() {
    let mut src = make_wire_bytes(b"a/b/c/d/e/f/g/h/i");
    assert!(matches!(Topic::decode(&mut src), Err(TopicError::ExceedsMaxLayerCount { .. })));
}

#[test]
fn topic_rejects_exceeds_max_length() {
    let long = vec![b'a'; 257];
    let mut src = make_wire_bytes(&long);
    assert!(matches!(Topic::decode(&mut src), Err(TopicError::ExceedsMaxLength { .. })));
}

#[test]
fn topic_rejects_wildcard_plus() {
    let mut src = make_wire_bytes(b"sensor/+/data");
    assert!(matches!(Topic::decode(&mut src), Err(TopicError::WildcardInPublishTopic)));
}

#[test]
fn topic_rejects_wildcard_hash() {
    let mut src = make_wire_bytes(b"sensor/#");
    assert!(matches!(Topic::decode(&mut src), Err(TopicError::WildcardInPublishTopic)));
}

#[test]
fn topic_filter_exact_no_wildcard() {
    let mut src = make_wire_bytes(b"sensor/data");
    let filter = TopicFilter::decode(&mut src).unwrap();
    assert_eq!(filter.wildcard(), WildcardKind::NoWildcard);
}

#[test]
fn topic_filter_single_layer_wildcard() {
    let mut src = make_wire_bytes(b"sensor/+/data");
    let filter = TopicFilter::decode(&mut src).unwrap();
    assert_eq!(filter.wildcard(), WildcardKind::SingleLayer);
}

#[test]
fn topic_filter_multi_layer_wildcard() {
    let mut src = make_wire_bytes(b"sensor/data/#");
    let filter = TopicFilter::decode(&mut src).unwrap();
    assert_eq!(filter.wildcard(), WildcardKind::MultiLayer);
    assert_eq!(filter.layer_count(), 3);
}

#[test]
fn topic_filter_both_wildcards() {
    let mut src = make_wire_bytes(b"sensor/+/data/#");
    let filter = TopicFilter::decode(&mut src).unwrap();
    assert_eq!(filter.wildcard(), WildcardKind::Both);
}

#[test]
fn topic_filter_rejects_hash_non_terminal() {
    let mut src = make_wire_bytes(b"sensor/#/data");
    assert!(matches!(
        TopicFilter::decode(&mut src),
        Err(TopicError::MultiLayerWildcardNotTerminal)
    ));
}

#[test]
fn topic_filter_encode_roundtrip() {
    let mut src = make_wire_bytes(b"sensor/+/#");
    let filter = TopicFilter::decode(&mut src).unwrap();
    let mut dst = BytesMut::new();
    filter.encode_to(&mut dst);
    let mut roundtripped = dst.freeze();
    let decoded = TopicFilter::decode(&mut roundtripped).unwrap();
    assert_eq!(decoded.as_bytes(), &Bytes::from_static(b"sensor/+/#"));
    assert_eq!(decoded.wildcard(), WildcardKind::Both);
}
