use bytes::{Bytes, BytesMut};
use ocypode::protocol::error::DecodeError;
use ocypode::protocol::message::info::Info;
use ocypode::protocol::wire::CommandCodec;
use ocypode::protocol::Command;

fn make_info() -> Info {
    Info {
        version: 1,
        max_payload: 1_048_576,
        server_id: Bytes::from_static(b"server-abc"),
        server_name: Bytes::from_static(b"my-server"),
        auth_required: true,
        headers: false,
    }
}

#[test]
fn info_encode_decode_roundtrip() {
    let original = make_info();
    let mut buf = BytesMut::new();
    original.encode(&mut buf);
    let mut bytes = buf.freeze();
    let decoded = Info::decode(0, &mut bytes).unwrap();

    assert_eq!(decoded.version, 1);
    assert_eq!(decoded.max_payload, 1_048_576);
    assert_eq!(decoded.server_id, Bytes::from_static(b"server-abc"));
    assert_eq!(decoded.server_name, Bytes::from_static(b"my-server"));
    assert!(decoded.auth_required);
    assert!(!decoded.headers);
}

#[test]
fn capability_flags_auth_required_and_headers() {
    let info = Info {
        version: 1,
        max_payload: 0,
        server_id: Bytes::new(),
        server_name: Bytes::new(),
        auth_required: true,
        headers: true,
    };
    let mut buf = BytesMut::new();
    info.encode(&mut buf);
    let mut bytes = buf.freeze();
    let decoded = Info::decode(0, &mut bytes).unwrap();

    assert!(decoded.auth_required);
    assert!(decoded.headers);
}

#[test]
fn capability_flags_none_set() {
    let info = Info {
        version: 1,
        max_payload: 0,
        server_id: Bytes::new(),
        server_name: Bytes::new(),
        auth_required: false,
        headers: false,
    };
    let mut buf = BytesMut::new();
    info.encode(&mut buf);
    let mut bytes = buf.freeze();
    let decoded = Info::decode(0, &mut bytes).unwrap();

    assert!(!decoded.auth_required);
    assert!(!decoded.headers);
}

#[test]
fn info_command_and_flags() {
    assert_eq!(Info::command(), Command::INFO);
    assert_eq!(make_info().flags(), 0);
}

#[test]
fn info_bytes_are_exact() {
    let info = Info {
        version: 3,
        max_payload: 0xDEAD_BEEF,
        server_id: Bytes::from_static(b"id"),
        server_name: Bytes::new(),
        auth_required: false,
        headers: true,
    };
    let mut buf = BytesMut::new();
    info.encode(&mut buf);
    let expected: Vec<u8> = vec![3, 0xDE, 0xAD, 0xBE, 0xEF, 2, b'i', b'd', 0, 0x02];
    assert_eq!(buf.as_ref(), expected.as_slice());
}

#[test]
fn info_decode_headers_only_capability() {
    let mut bytes = Bytes::from_static(&[1, 0, 0, 0, 0, 0, 0, 0xFE]);
    let decoded = Info::decode(0x0F, &mut bytes).unwrap();
    assert!(!decoded.auth_required);
    assert!(decoded.headers);
}

#[test]
fn info_decode_rejects_short_input() {
    let mut empty = Bytes::new();
    assert!(matches!(
        Info::decode(0, &mut empty),
        Err(DecodeError::BufferTooShort { expected: 1, actual: 0 })
    ));
    let mut cut_number = Bytes::from_static(&[1, 0, 0]);
    assert!(matches!(
        Info::decode(0, &mut cut_number),
        Err(DecodeError::BufferTooShort { expected: 4, actual: 2 })
    ));
    let mut cut_id = Bytes::from_static(&[1, 0, 0, 0, 0, 3, b'a']);
    assert!(matches!(
        Info::decode(0, &mut cut_id),
        Err(DecodeError::BufferTooShort { expected: 3, actual: 1 })
    ));
    let mut no_capabilities = Bytes::from_static(&[1, 0, 0, 0, 0, 0, 0]);
    assert!(matches!(
        Info::decode(0, &mut no_capabilities),
        Err(DecodeError::BufferTooShort { expected: 1, actual: 0 })
    ));
}

#[test]
fn info_with_oversize_server_id_does_not_read_back() {
    let info = Info {
        version: 1,
        max_payload: 0,
        server_id: Bytes::from(vec![b'x'; 256]),
        server_name: Bytes::new(),
        auth_required: false,
        headers: false,
    };
    let mut buf = BytesMut::new();
    info.encode(&mut buf);
    assert_eq!(buf[5], 0);
    assert_eq!(buf.len(), 1 + 4 + 1 + 256 + 1 + 1);
    let mut bytes = buf.freeze();
    let decoded = Info::decode(0, &mut bytes).unwrap();
    assert!(decoded.server_id.is_empty());
}
