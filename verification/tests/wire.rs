use bytes::{Bytes, BytesMut};
use ocypode::common::error::WireError;
use ocypode::common::wire::{WireDecode, WireEncode, VARINT_MAX};

fn varint_bytes(value: u32) -> Vec<u8> {
    let mut buf = BytesMut::new();
    buf.put_varint(value);
    buf.to_vec()
}

fn read_varint(bytes: &[u8]) -> (Result<u32, WireError>, usize) {
    let mut src = Bytes::copy_from_slice(bytes);
    let result = src.read_varint();
    (result, src.len())
}

#[test]
fn varint_boundaries_round_trip() {
    let cases: [(u32, usize); 9] = [
        (0, 1),
        (1, 1),
        (127, 1),
        (128, 2),
        (16_383, 2),
        (16_384, 3),
        (2_097_151, 3),
        (2_097_152, 4),
        (268_435_455, 4),
    ];
    for (value, width) in cases {
        let bytes = varint_bytes(value);
        assert_eq!(bytes.len(), width, "width of {value}");
        assert_eq!(read_varint(&bytes), (Ok(value), 0));
    }
    assert_eq!(VARINT_MAX, 268_435_455);
}

#[test]
fn varint_bytes_are_exact() {
    assert_eq!(varint_bytes(0), vec![0x00]);
    assert_eq!(varint_bytes(127), vec![0x7F]);
    assert_eq!(varint_bytes(128), vec![0x80, 0x01]);
    assert_eq!(varint_bytes(300), vec![0xAC, 0x02]);
    assert_eq!(varint_bytes(16_383), vec![0xFF, 0x7F]);
    assert_eq!(varint_bytes(16_384), vec![0x80, 0x80, 0x01]);
    assert_eq!(varint_bytes(268_435_455), vec![0xFF, 0xFF, 0xFF, 0x7F]);
}

#[test]
fn varint_above_maximum_takes_five_bytes_and_does_not_read_back() {
    let bytes = varint_bytes(268_435_456);
    assert_eq!(bytes, vec![0x80, 0x80, 0x80, 0x80, 0x01]);
    assert_eq!(read_varint(&bytes).0, Err(WireError::VariableLengthOverflow));
    assert_eq!(varint_bytes(u32::MAX), vec![0xFF, 0xFF, 0xFF, 0xFF, 0x0F]);
}

#[test]
fn varint_with_continuation_on_fourth_byte_overflows() {
    let (result, _) = read_varint(&[0x80, 0x80, 0x80, 0x80, 0x01]);
    assert_eq!(result, Err(WireError::VariableLengthOverflow));
    let (result, _) = read_varint(&[0xFF, 0xFF, 0xFF, 0xFF]);
    assert_eq!(result, Err(WireError::VariableLengthOverflow));
}

#[test]
fn varint_cut_short_is_buffer_too_short() {
    assert_eq!(read_varint(&[]).0, Err(WireError::BufferTooShort { expected: 1, actual: 0 }));
    assert_eq!(read_varint(&[0x80]).0, Err(WireError::BufferTooShort { expected: 1, actual: 0 }));
    assert_eq!(
        read_varint(&[0x80, 0xFF, 0x81]).0,
        Err(WireError::BufferTooShort { expected: 1, actual: 0 })
    );
}

#[test]
fn varint_stops_at_its_last_byte() {
    assert_eq!(read_varint(&[0x05, 0xAA, 0xBB]), (Ok(5), 2));
    assert_eq!(read_varint(&[0x80, 0x00, 0xAA]), (Ok(0), 1));
}

#[test]
fn fixed_width_reads_are_big_endian() {
    let mut src = Bytes::from_static(&[0x12, 0x34, 0x56, 0x78, 0x9A, 0xBC, 0xDE]);
    assert_eq!(src.read_u8(), Ok(0x12));
    assert_eq!(src.read_u16(), Ok(0x3456));
    assert_eq!(src.read_u32(), Ok(0x789A_BCDE));
    assert!(src.is_empty());
}

#[test]
fn fixed_width_reads_report_what_is_missing() {
    let mut src = Bytes::new();
    assert_eq!(src.read_u8(), Err(WireError::BufferTooShort { expected: 1, actual: 0 }));
    let mut src = Bytes::from_static(&[1]);
    assert_eq!(src.read_u16(), Err(WireError::BufferTooShort { expected: 2, actual: 1 }));
    assert_eq!(src.len(), 1);
    let mut src = Bytes::from_static(&[1, 2, 3]);
    assert_eq!(src.read_u32(), Err(WireError::BufferTooShort { expected: 4, actual: 3 }));
    assert_eq!(src.len(), 3);
}

#[test]
fn length_prefixed_u8_round_trips() {
    let mut buf = BytesMut::new();
    buf.put_length_prefixed_u8(b"hello");
    buf.put_length_prefixed_u8(b"");
    assert_eq!(buf.as_ref(), &[5, b'h', b'e', b'l', b'l', b'o', 0]);
    let mut src = buf.freeze();
    assert_eq!(src.read_length_prefixed_u8().unwrap(), Bytes::from_static(b"hello"));
    assert_eq!(src.read_length_prefixed_u8().unwrap(), Bytes::new());
    assert!(src.is_empty());
}

#[test]
fn length_prefixed_u16_round_trips() {
    let long = vec![9u8; 300];
    let mut buf = BytesMut::new();
    buf.put_length_prefixed_u16(&long);
    assert_eq!(&buf[..2], &[0x01, 0x2C]);
    let mut src = buf.freeze();
    assert_eq!(src.read_length_prefixed_u16().unwrap(), Bytes::from(long));
    assert!(src.is_empty());
}

#[test]
fn length_prefixed_reads_never_pass_the_declared_length() {
    let mut src = Bytes::from_static(&[2, b'a', b'b', b'c']);
    assert_eq!(src.read_length_prefixed_u8().unwrap(), Bytes::from_static(b"ab"));
    assert_eq!(src.as_ref(), b"c");
}

#[test]
fn length_prefixed_reads_report_what_is_missing() {
    let mut src = Bytes::from_static(&[3, b'a']);
    assert!(matches!(
        src.read_length_prefixed_u8(),
        Err(WireError::BufferTooShort { expected: 3, actual: 1 })
    ));
    let mut src = Bytes::from_static(&[0, 4, b'a', b'b']);
    assert!(matches!(
        src.read_length_prefixed_u16(),
        Err(WireError::BufferTooShort { expected: 4, actual: 2 })
    ));
    let mut src = Bytes::from_static(&[0]);
    assert!(matches!(
        src.read_length_prefixed_u16(),
        Err(WireError::BufferTooShort { expected: 2, actual: 1 })
    ));
    let mut src = Bytes::new();
    assert!(matches!(
        src.read_length_prefixed_u8(),
        Err(WireError::BufferTooShort { expected: 1, actual: 0 })
    ));
}

#[test]
fn length_prefix_holds_the_length_cut_to_the_field() {
    let long = vec![1u8; 256];
    let mut buf = BytesMut::new();
    buf.put_length_prefixed_u8(&long);
    assert_eq!(buf.len(), 257);
    assert_eq!(buf[0], 0);
    let longer = vec![1u8; 65_536 + 2];
    let mut buf = BytesMut::new();
    buf.put_length_prefixed_u16(&longer);
    assert_eq!(buf.len(), 65_540);
    assert_eq!(&buf[..2], &[0, 2]);
}

#[test]
fn writers_append_to_what_is_there() {
    let mut buf = BytesMut::new();
    buf.put_varint(1);
    buf.put_length_prefixed_u8(b"a");
    buf.put_length_prefixed_u16(b"b");
    buf.put_varint(128);
    assert_eq!(buf.as_ref(), &[1, 1, b'a', 0, 1, b'b', 0x80, 0x01]);
}
