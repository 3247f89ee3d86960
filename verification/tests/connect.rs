use bytes::{Bytes, BytesMut};
use ocypode::protocol::error::DecodeError;
use ocypode::protocol::message::connect::{
    Auth, Connect, AUTH_TYPE_JWT, AUTH_TYPE_PASSWORD, HAS_AUTH_BIT, VERBOSE_BIT,
};
use ocypode::protocol::wire::CommandCodec;
use ocypode::protocol::Command;

fn encode_connect(connect: &Connect) -> Bytes {
    let mut buf = BytesMut::new();
    connect.encode(&mut buf);
    buf.freeze()
}

#[test]
fn encode_decode_no_auth_roundtrip() {
    let original = Connect { version: 1, verbose: false, auth: None };
    let mut bytes = encode_connect(&original);
    let decoded = Connect::decode(original.flags(), &mut bytes).unwrap();

    assert_eq!(decoded.version, 1);
    assert!(!decoded.verbose);
    assert!(decoded.auth.is_none());
}

#[test]
fn verbose_flag_set() {
    let connect = Connect { version: 1, verbose: true, auth: None };
    assert_eq!(connect.flags() & VERBOSE_BIT, VERBOSE_BIT);
}

#[test]
fn verbose_flag_unset() {
    let connect = Connect { version: 1, verbose: false, auth: None };
    assert_eq!(connect.flags() & VERBOSE_BIT, 0);
}

#[test]
fn has_auth_flag_set_when_auth_present() {
    let connect = Connect {
        version: 1,
        verbose: false,
        auth: Some(Auth::Password {
            username: Bytes::from_static(b"user"),
            password: Bytes::from_static(b"pass"),
        }),
    };
    assert_eq!(connect.flags() & HAS_AUTH_BIT, HAS_AUTH_BIT);
}

#[test]
fn has_auth_flag_unset_when_no_auth() {
    let connect = Connect { version: 1, verbose: false, auth: None };
    assert_eq!(connect.flags() & HAS_AUTH_BIT, 0);
}

#[test]
fn encode_decode_password_auth_roundtrip() {
    let original = Connect {
        version: 2,
        verbose: true,
        auth: Some(Auth::Password {
            username: Bytes::from_static(b"alice"),
            password: Bytes::from_static(b"s3cr3t"),
        }),
    };
    let mut bytes = encode_connect(&original);
    let decoded = Connect::decode(original.flags(), &mut bytes).unwrap();

    assert_eq!(decoded.version, 2);
    assert!(decoded.verbose);
    let Some(Auth::Password { username, password }) = decoded.auth else {
        panic!("expected password auth");
    };
    assert_eq!(username, Bytes::from_static(b"alice"));
    assert_eq!(password, Bytes::from_static(b"s3cr3t"));
}

#[test]
fn encode_decode_jwt_auth_roundtrip() {
    let token = Bytes::from_static(b"eyJhbGciOiJIUzI1NiJ9.payload.sig");
    let original =
        Connect { version: 1, verbose: false, auth: Some(Auth::Jwt { token: token.clone() }) };
    let mut bytes = encode_connect(&original);
    let decoded = Connect::decode(original.flags(), &mut bytes).unwrap();

    assert_eq!(decoded.version, 1);
    let Some(Auth::Jwt { token: decoded_token }) = decoded.auth else {
        panic!("expected JWT auth");
    };
    assert_eq!(decoded_token, token);
}

#[test]
fn connect_command_and_flag_values() {
    assert_eq!(Connect::command(), Command::CONNECT);
    assert_eq!(Connect { version: 1, verbose: false, auth: None }.flags(), 0);
    assert_eq!(Connect { version: 1, verbose: true, auth: None }.flags(), 1);
    let token = Auth::Jwt { token: Bytes::new() };
    assert_eq!(Connect { version: 1, verbose: false, auth: Some(token) }.flags(), 2);
    let token = Auth::Jwt { token: Bytes::new() };
    assert_eq!(Connect { version: 1, verbose: true, auth: Some(token) }.flags(), 3);
}

#[test]
fn connect_password_bytes_are_exact() {
    let connect = Connect {
        version: 9,
        verbose: false,
        auth: Some(Auth::Password {
            username: Bytes::from_static(b"al"),
            password: Bytes::from_static(b"pw1"),
        }),
    };
    let bytes = encode_connect(&connect);
    let expected: Vec<u8> =
        vec![9, AUTH_TYPE_PASSWORD, 7, 2, b'a', b'l', 3, b'p', b'w', b'1'];
    assert_eq!(bytes.as_ref(), expected.as_slice());
}

#[test]
fn connect_jwt_bytes_are_exact() {
    let token = Bytes::from_static(b"abc");
    let connect = Connect { version: 1, verbose: false, auth: Some(Auth::Jwt { token }) };
    let bytes = encode_connect(&connect);
    let expected: Vec<u8> = vec![1, AUTH_TYPE_JWT, 5, 0, 3, b'a', b'b', b'c'];
    assert_eq!(bytes.as_ref(), expected.as_slice());
}

#[test]
fn connect_decode_rejects_unknown_auth_type() {
    let mut bytes = Bytes::from_static(&[1, 9, 0]);
    assert!(matches!(
        Connect::decode(HAS_AUTH_BIT, &mut bytes),
        Err(DecodeError::UnknownAuthType(9))
    ));
}

#[test]
fn connect_decode_checks_length_before_auth_type() {
    let mut bytes = Bytes::from_static(&[1, 9, 4, 0xAA]);
    assert!(matches!(
        Connect::decode(HAS_AUTH_BIT, &mut bytes),
        Err(DecodeError::BufferTooShort { expected: 4, actual: 1 })
    ));
}

#[test]
fn connect_decode_rejects_short_input() {
    let mut empty = Bytes::new();
    assert!(matches!(
        Connect::decode(0, &mut empty),
        Err(DecodeError::BufferTooShort { expected: 1, actual: 0 })
    ));
    let mut no_type = Bytes::from_static(&[1]);
    assert!(matches!(
        Connect::decode(HAS_AUTH_BIT, &mut no_type),
        Err(DecodeError::BufferTooShort { expected: 1, actual: 0 })
    ));
    let mut long_length = Bytes::from_static(&[1, 1, 0x80, 0x80, 0x80, 0x80, 0x01]);
    assert!(matches!(
        Connect::decode(HAS_AUTH_BIT, &mut long_length),
        Err(DecodeError::VariableLengthOverflow)
    ));
}

#[test]
fn connect_decode_reads_credentials_inside_declared_length_only() {
    let mut bytes = Bytes::from_static(&[1, 1, 2, 1, b'u', 1, b'p']);
    assert!(matches!(
        Connect::decode(HAS_AUTH_BIT, &mut bytes),
        Err(DecodeError::BufferTooShort { expected: 1, actual: 0 })
    ));
}

#[test]
fn connect_decode_without_auth_flag_leaves_rest_unread() {
    let mut bytes = Bytes::from_static(&[5, 1, 2, 3]);
    let decoded = Connect::decode(VERBOSE_BIT, &mut bytes).unwrap();
    assert_eq!(decoded.version, 5);
    assert!(decoded.verbose);
    assert!(decoded.auth.is_none());
    assert_eq!(bytes.as_ref(), &[1, 2, 3]);
}
