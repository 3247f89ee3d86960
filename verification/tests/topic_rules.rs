use bytes::{Bytes, BytesMut};
use ocypode::common::error::WireError;
use ocypode::common::wire::WireEncode;
use ocypode::topic::{Topic, TopicError, TopicFilter, WildcardKind};

fn wire(topic: &[u8]) -> Bytes {
    let mut buf = BytesMut::new();
    buf.put_length_prefixed_u16(topic);
    buf.freeze()
}

fn topic(raw: &[u8]) -> Result<Topic, TopicError> {
    Topic::decode(&mut wire(raw))
}

fn filter(raw: &[u8]) -> Result<TopicFilter, TopicError> {
    TopicFilter::decode(&mut wire(raw))
}

fn topic_error(raw: &[u8]) -> TopicError {
    match topic(raw) {
        Ok(_) => panic!("expected an error"),
        Err(error) => error,
    }
}

fn filter_error(raw: &[u8]) -> TopicError {
    match filter(raw) {
        Ok(_) => panic!("expected an error"),
        Err(error) => error,
    }
}

#[test]
fn two_layer_topic_has_its_layers() {
    let topic = topic(b"a/b").unwrap();
    assert_eq!(topic.layer_count(), 2);
    assert_eq!(topic.layer(0), b"a");
    assert_eq!(topic.layer(1), b"b");
    assert_eq!(topic.as_bytes().as_ref(), b"a/b");
}

#[test]
fn topic_rules_name_their_errors() {
    assert_eq!(topic_error(b"/a"), TopicError::LeadingSlash);
    assert_eq!(topic_error(b"a/"), TopicError::TrailingSlash);
    assert_eq!(topic_error(b"a//b"), TopicError::EmptyLayer);
    assert_eq!(topic_error(b"a/b/c/d/e/f/g/h/i"), TopicError::ExceedsMaxLayerCount { count: 9 });
    assert_eq!(topic_error(&[b'a'; 257]), TopicError::ExceedsMaxLength { length: 257 });
    assert_eq!(topic_error(b"a/+/b"), TopicError::WildcardInPublishTopic);
}

#[test]
fn filter_shares_the_layer_rules() {
    assert_eq!(filter_error(b"/a"), TopicError::LeadingSlash);
    assert_eq!(filter_error(b"a/"), TopicError::TrailingSlash);
    assert_eq!(filter_error(b"a//b"), TopicError::EmptyLayer);
    assert_eq!(filter_error(b"a/b/c/d/e/f/g/h/i"), TopicError::ExceedsMaxLayerCount { count: 9 });
    assert_eq!(filter_error(&[b'a'; 257]), TopicError::ExceedsMaxLength { length: 257 });
}

#[test]
fn empty_topic_exceeds_length() {
    assert_eq!(topic_error(b""), TopicError::ExceedsMaxLength { length: 0 });
    assert_eq!(filter_error(b""), TopicError::ExceedsMaxLength { length: 0 });
}

#[test]
fn longest_topic_is_accepted() {
    let raw = vec![b'x'; 256];
    let topic = topic(&raw).unwrap();
    assert_eq!(topic.layer_count(), 1);
    assert_eq!(topic.layer(0), raw.as_slice());
}

#[test]
fn longest_topic_with_separator_at_the_last_places() {
    let mut raw = vec![b'x'; 256];
    raw[254] = b'/';
    let topic = topic(&raw).unwrap();
    assert_eq!(topic.layer_count(), 2);
    assert_eq!(topic.layer(0).len(), 254);
    assert_eq!(topic.layer(1), b"x");
}

#[test]
fn lone_separator_is_a_leading_slash() {
    assert_eq!(topic_error(b"/"), TopicError::LeadingSlash);
}

#[test]
fn first_broken_rule_wins() {
    assert_eq!(topic_error(b"/a//b/"), TopicError::LeadingSlash);
    assert_eq!(topic_error(b"a//b/"), TopicError::TrailingSlash);
    assert_eq!(topic_error(b"a//+"), TopicError::EmptyLayer);
    assert_eq!(
        topic_error(b"a/b/c/d/e/f/g/h//i"),
        TopicError::ExceedsMaxLayerCount { count: 9 }
    );
    assert_eq!(topic_error(b"a//b/c/d/e/f/g/h/i"), TopicError::EmptyLayer);
    assert_eq!(topic_error(b"+/b/c/d/e/f/g/h/i"), TopicError::ExceedsMaxLayerCount { count: 9 });
    let mut long = vec![b'/'; 300];
    long[0] = b'a';
    assert_eq!(topic_error(&long), TopicError::ExceedsMaxLength { length: 300 });
    assert_eq!(filter_error(b"a/#//b"), TopicError::EmptyLayer);
}

#[test]
fn every_layer_of_a_full_topic_is_found() {
    let topic = topic(b"alpha/b/cc/d/eee/f/g/hh").unwrap();
    assert_eq!(topic.layer_count(), 8);
    let expected: [&[u8]; 8] = [b"alpha", b"b", b"cc", b"d", b"eee", b"f", b"g", b"hh"];
    for (index, layer) in expected.iter().enumerate() {
        assert_eq!(topic.layer(index as u8), *layer);
    }
}

#[test]
fn filter_kinds() {
    assert_eq!(filter(b"a/b").unwrap().wildcard(), WildcardKind::NoWildcard);
    assert_eq!(filter(b"a/+/b").unwrap().wildcard(), WildcardKind::SingleLayer);
    let multi = filter(b"a/b/#").unwrap();
    assert_eq!(multi.wildcard(), WildcardKind::MultiLayer);
    assert_eq!(multi.layer_count(), 3);
    assert_eq!(multi.layer(2), b"#");
    assert_eq!(filter(b"a/+/#").unwrap().wildcard(), WildcardKind::Both);
    assert_eq!(filter_error(b"a/#/b"), TopicError::MultiLayerWildcardNotTerminal);
}

#[test]
fn filter_of_one_layer() {
    assert_eq!(filter(b"#").unwrap().wildcard(), WildcardKind::MultiLayer);
    assert_eq!(filter(b"+").unwrap().wildcard(), WildcardKind::SingleLayer);
    assert_eq!(filter(b"+#").unwrap().wildcard(), WildcardKind::Both);
}

#[test]
fn hash_beside_other_bytes_counts_as_wildcard() {
    assert_eq!(filter(b"a#").unwrap().wildcard(), WildcardKind::MultiLayer);
    assert_eq!(filter(b"a/b#c").unwrap().wildcard(), WildcardKind::MultiLayer);
    assert_eq!(filter(b"a+/b").unwrap().wildcard(), WildcardKind::SingleLayer);
    assert_eq!(filter_error(b"ab#/c"), TopicError::MultiLayerWildcardNotTerminal);
    assert_eq!(filter_error(b"#/#"), TopicError::MultiLayerWildcardNotTerminal);
}

#[test]
fn plus_in_last_layer_only() {
    assert_eq!(filter(b"a/b/+").unwrap().wildcard(), WildcardKind::SingleLayer);
    assert_eq!(filter(b"+/+/+").unwrap().wildcard(), WildcardKind::SingleLayer);
}

#[test]
fn topic_that_is_a_filter_without_wildcards() {
    for raw in [&b"a"[..], b"a/b", b"sensor/data/temperature"] {
        assert!(topic(raw).is_ok());
        assert_eq!(filter(raw).unwrap().wildcard(), WildcardKind::NoWildcard);
    }
    for raw in [&b"+"[..], b"a/#", b"a/+/#"] {
        assert_eq!(topic_error(raw), TopicError::WildcardInPublishTopic);
        assert_ne!(filter(raw).unwrap().wildcard(), WildcardKind::NoWildcard);
    }
}

#[test]
fn cut_input_is_a_wire_error() {
    let mut empty = Bytes::new();
    assert_eq!(
        Topic::decode(&mut empty).err(),
        Some(TopicError::Wire(WireError::BufferTooShort { expected: 2, actual: 0 }))
    );
    let mut cut = Bytes::from_static(&[0, 5, b'a', b'b']);
    assert_eq!(
        TopicFilter::decode(&mut cut).err(),
        Some(TopicError::Wire(WireError::BufferTooShort { expected: 5, actual: 2 }))
    );
}

#[test]
fn decode_leaves_what_follows_the_topic() {
    let mut src = Bytes::from_static(&[0, 3, b'a', b'/', b'b', 0xAA, 0xBB]);
    let topic = Topic::decode(&mut src).unwrap();
    assert_eq!(topic.as_bytes().as_ref(), b"a/b");
    assert_eq!(src.as_ref(), &[0xAA, 0xBB]);
}

#[test]
fn encode_replays_the_raw_bytes() {
    let filter = filter(b"a/+/#").unwrap();
    let mut dst = BytesMut::new();
    dst.extend_from_slice(&[0xEE]);
    filter.encode_to(&mut dst);
    assert_eq!(dst.as_ref(), &[0xEE, 0, 5, b'a', b'/', b'+', b'/', b'#']);
    let topic = topic(b"x/y").unwrap();
    let mut dst = BytesMut::new();
    topic.encode_to(&mut dst);
    assert_eq!(dst.as_ref(), &[0, 3, b'x', b'/', b'y']);
}
