use bytes::{Bytes, BytesMut};
use ocypode::protocol::error::DecodeError;
use ocypode::protocol::wire::Headers;

fn round_trip(headers: &Headers) -> Headers {
    let mut buf = BytesMut::new();
    headers.encode_to(&mut buf);
    Headers::decode_from(&mut buf.freeze()).unwrap()
}

#[test]
fn headers_start_empty() {
    let headers = Headers::new();
    assert!(headers.entries().is_empty());
    let mut buf = BytesMut::new();
    headers.encode_to(&mut buf);
    assert!(buf.is_empty());
    assert!(round_trip(&headers).entries().is_empty());
}

#[test]
fn headers_keep_insertion_order() {
    let mut headers = Headers::new();
    headers.insert(Bytes::from_static(b"trace-id"), Bytes::from_static(b"xyz"));
    headers.insert(Bytes::from_static(b"content-type"), Bytes::from_static(b"application/json"));
    let decoded = round_trip(&headers);
    let entries = decoded.entries();
    assert_eq!(entries.len(), 2);
    assert_eq!(entries[0], (Bytes::from_static(b"trace-id"), Bytes::from_static(b"xyz")));
    assert_eq!(
        entries[1],
        (Bytes::from_static(b"content-type"), Bytes::from_static(b"application/json"))
    );
}

#[test]
fn headers_keep_duplicate_keys() {
    let mut headers = Headers::new();
    headers.insert(Bytes::from_static(b"trace-id"), Bytes::from_static(b"xyz"));
    headers.insert(Bytes::from_static(b"content-type"), Bytes::from_static(b"application/json"));
    headers.insert(Bytes::from_static(b"trace-id"), Bytes::from_static(b"xyz"));
    headers.insert(Bytes::from_static(b"content-type"), Bytes::from_static(b"application/json"));
    let decoded = round_trip(&headers);
    let entries = decoded.entries();
    assert_eq!(entries.len(), 4);
    assert_eq!(entries[0], entries[2]);
    assert_eq!(entries[1], entries[3]);
    assert_eq!(entries[2].0, Bytes::from_static(b"trace-id"));
    assert_eq!(entries[3].0, Bytes::from_static(b"content-type"));
}

#[test]
fn headers_bytes_are_exact() {
    let mut headers = Headers::new();
    headers.insert(Bytes::from_static(b"k"), Bytes::from_static(b"vv"));
    headers.insert(Bytes::new(), Bytes::new());
    let mut buf = BytesMut::new();
    buf.extend_from_slice(&[0xEE]);
    headers.encode_to(&mut buf);
    assert_eq!(buf.as_ref(), &[0xEE, 1, b'k', 0, 2, b'v', b'v', 0, 0, 0]);
}

#[test]
fn headers_decode_uses_up_the_buffer() {
    let mut src = Bytes::from_static(&[1, b'a', 0, 1, b'b', 1, b'c', 0, 0]);
    let decoded = Headers::decode_from(&mut src).unwrap();
    assert!(src.is_empty());
    assert_eq!(decoded.entries().len(), 2);
    assert_eq!(decoded.entries()[1], (Bytes::from_static(b"c"), Bytes::new()));
}

#[test]
fn headers_decode_rejects_partial_trailing_data() {
    let mut cut_key = Bytes::from_static(&[1, b'a', 0, 0, 3, b'x']);
    assert!(matches!(
        Headers::decode_from(&mut cut_key),
        Err(DecodeError::BufferTooShort { expected: 3, actual: 1 })
    ));
    let mut no_value = Bytes::from_static(&[1, b'a']);
    assert!(matches!(
        Headers::decode_from(&mut no_value),
        Err(DecodeError::BufferTooShort { expected: 2, actual: 0 })
    ));
    let mut cut_value = Bytes::from_static(&[1, b'a', 0, 2, b'v']);
    assert!(matches!(
        Headers::decode_from(&mut cut_value),
        Err(DecodeError::BufferTooShort { expected: 2, actual: 1 })
    ));
}
