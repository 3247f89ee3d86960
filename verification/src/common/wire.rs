//! Readers and writers for the typed fields of the wire format: fixed-width
//! big-endian integers, the variable-length integer of one to four bytes, and
//! byte strings behind a one-byte or two-byte length.
//!
//! Each reader has a specification function over `Seq<u8>` that gives, for
//! every input, the value read and the bytes left over, or the error.

use vstd::prelude::*;
use bytes::{Bytes, BytesMut};
pub use crate::buf::{wire_u16, wire_u32};
use crate::buf::{
    be_u16, be_u32, bytes_contents, bytes_mut_contents, copy_to_bytes, get_u16, get_u32, get_u8,
    put_slice, put_u16, put_u8,
};
use crate::common::error::WireError;

verus! {

/// The bits of a byte that carry data in a variable-length integer.
pub const VARINT_DATA_MASK: u8 = 0x7F;

/// The bit of a byte that says that another byte follows.
pub const VARINT_CONTINUATION_BIT: u8 = 0x80;

/// The number of data bits in a byte.
pub const VARINT_DATA_BITS: u32 = 7;

/// The most bytes that a variable-length integer may take.
pub const VARINT_MAX_BYTES: usize = 4;

/// The largest value that four groups of seven bits can carry.
pub const VARINT_MAX: u32 = 0x0FFF_FFFF;

/// What reading one byte from `s` gives.
pub open spec fn parse_u8(s: Seq<u8>) -> Result<(u8, Seq<u8>), WireError> {
    if s.len() < 1 {
        Err(WireError::BufferTooShort { expected: 1, actual: s.len() as usize })
    } else {
        Ok((s[0], s.skip(1)))
    }
}

/// What reading a big-endian `u16` from `s` gives.
pub open spec fn parse_u16(s: Seq<u8>) -> Result<(u16, Seq<u8>), WireError> {
    if s.len() < 2 {
        Err(WireError::BufferTooShort { expected: 2, actual: s.len() as usize })
    } else {
        Ok((be_u16(s[0], s[1]), s.skip(2)))
    }
}

/// What reading a big-endian `u32` from `s` gives.
pub open spec fn parse_u32(s: Seq<u8>) -> Result<(u32, Seq<u8>), WireError> {
    if s.len() < 4 {
        Err(WireError::BufferTooShort { expected: 4, actual: s.len() as usize })
    } else {
        Ok((be_u32(s[0], s[1], s[2], s[3]), s.skip(4)))
    }
}

/// The weight of the `i`-th seven-bit group: 128 to the power `i`.
pub open spec fn group_weight(i: nat) -> nat {
    if i == 0 {
        1
    } else if i == 1 {
        128
    } else if i == 2 {
        16384
    } else if i == 3 {
        2097152
    } else {
        268435456
    }
}

/// The value that the low seven bits of the first `k` bytes of `s` spell,
/// least significant group first.
pub open spec fn varint_value(s: Seq<u8>, k: nat) -> nat
    decreases k,
{
    if k == 0 {
        0
    } else {
        varint_value(s, (k - 1) as nat) + (s[k - 1] % 128) as nat * group_weight((k - 1) as nat)
    }
}

/// How many bytes the variable-length integer at the head of `s` takes: the
/// place of the first byte without a continuation bit, if it comes among the
/// first four.
pub open spec fn varint_width(s: Seq<u8>) -> Option<nat> {
    if s.len() >= 1 && s[0] < 128 {
        Some(1)
    } else if s.len() >= 2 && s[1] < 128 {
        Some(2)
    } else if s.len() >= 3 && s[2] < 128 {
        Some(3)
    } else if s.len() >= 4 && s[3] < 128 {
        Some(4)
    } else {
        None
    }
}

/// What reading a variable-length integer from `s` gives. Running out of
/// bytes while the continuation bit is still set is `BufferTooShort`; four
/// bytes that all carry it are `VariableLengthOverflow`.
pub open spec fn parse_varint(s: Seq<u8>) -> Result<(u32, Seq<u8>), WireError> {
    match varint_width(s) {
        Some(k) => Ok((varint_value(s, k) as u32, s.skip(k as int))),
        None => if s.len() < 4 {
            Err(WireError::BufferTooShort { expected: 1, actual: 0 })
        } else {
            Err(WireError::VariableLengthOverflow)
        },
    }
}

/// What reading a byte string behind a one-byte length from `s` gives.
pub open spec fn parse_length_prefixed_u8(s: Seq<u8>) -> Result<(Seq<u8>, Seq<u8>), WireError> {
    match parse_u8(s) {
        Err(e) => Err(e),
        Ok((n, rest)) => if rest.len() < n {
            Err(WireError::BufferTooShort { expected: n as usize, actual: rest.len() as usize })
        } else {
            Ok((rest.take(n as int), rest.skip(n as int)))
        },
    }
}

/// What reading a byte string behind a two-byte length from `s` gives.
pub open spec fn parse_length_prefixed_u16(s: Seq<u8>) -> Result<(Seq<u8>, Seq<u8>), WireError> {
    match parse_u16(s) {
        Err(e) => Err(e),
        Ok((n, rest)) => if rest.len() < n {
            Err(WireError::BufferTooShort { expected: n as usize, actual: rest.len() as usize })
        } else {
            Ok((rest.take(n as int), rest.skip(n as int)))
        },
    }
}

/// Whether a reader that returned `r` and left `after` in the buffer did what
/// `expected` says: the value and the rest on success, the error otherwise.
pub open spec fn reads_value<T>(
    r: Result<T, WireError>,
    after: Seq<u8>,
    expected: Result<(T, Seq<u8>), WireError>,
) -> bool {
    match expected {
        Ok((v, rest)) => r == Ok::<T, WireError>(v) && after == rest,
        Err(e) => r == Err::<T, WireError>(e),
    }
}

/// Whether a reader of byte strings that returned `r` and left `after` in the
/// buffer did what `expected` says.
pub open spec fn reads_bytes(
    r: Result<Bytes, WireError>,
    after: Seq<u8>,
    expected: Result<(Seq<u8>, Seq<u8>), WireError>,
) -> bool {
    match expected {
        Ok((v, rest)) => r is Ok && bytes_contents(r->Ok_0) == v && after == rest,
        Err(e) => r == Err::<Bytes, WireError>(e),
    }
}

proof fn lemma_low_bits(b: u8)
    ensures
        b & 0x7F == b % 128,
        (b & 0x80 == 0) <==> b < 128,
{
    assert(b & 0x7F == b % 128) by (bit_vector);
    assert((b & 0x80 == 0) <==> b < 128) by (bit_vector);
}

proof fn lemma_merge_group(value: u32, x: u32, shift: u32)
    requires
        x < 128,
        shift == 0 || shift == 7 || shift == 14 || shift == 21,
        value < group_weight((shift / 7) as nat),
    ensures
        (value | (x << shift)) == value + x * group_weight((shift / 7) as nat),
        (value | (x << shift)) < 128 * group_weight((shift / 7) as nat),
{
    if shift == 0 {
        assert(x < 128 && value < 1 ==> (value | (x << 0u32)) == value + x * 1) by (bit_vector);
    } else if shift == 7 {
        assert(x < 128 && value < 128 ==> (value | (x << 7u32)) == value + x * 128)
            by (bit_vector);
    } else if shift == 14 {
        assert(x < 128 && value < 16384 ==> (value | (x << 14u32)) == value + x * 16384)
            by (bit_vector);
    } else {
        assert(x < 128 && value < 2097152 ==> (value | (x << 21u32)) == value + x * 2097152)
            by (bit_vector);
    }
}

/// Reading typed fields from a `Bytes` cursor.
pub trait WireDecode {
    fn read_u8(&mut self) -> Result<u8, WireError>;

    fn read_u16(&mut self) -> Result<u16, WireError>;

    fn read_u32(&mut self) -> Result<u32, WireError>;

    /// Reads a variable-length integer of one to four bytes.
    fn read_varint(&mut self) -> Result<u32, WireError>;

    /// Reads a one-byte length and that many bytes.
    fn read_length_prefixed_u8(&mut self) -> Result<Bytes, WireError>;

    /// Reads a two-byte length and that many bytes.
    fn read_length_prefixed_u16(&mut self) -> Result<Bytes, WireError>;
}

impl WireDecode for Bytes {
    fn read_u8(&mut self) -> (r: Result<u8, WireError>)
        ensures
            reads_value(r, bytes_contents(*final(self)), parse_u8(bytes_contents(*old(self)))),
            r is Err ==> bytes_contents(*final(self)) == bytes_contents(*old(self)),
    {
        let remaining = self.len();
        if remaining < 1 {
            return Err(WireError::BufferTooShort { expected: 1, actual: remaining });
        }
        Ok(get_u8(self))
    }

    fn read_u16(&mut self) -> (r: Result<u16, WireError>)
        ensures
            reads_value(r, bytes_contents(*final(self)), parse_u16(bytes_contents(*old(self)))),
            r is Err ==> bytes_contents(*final(self)) == bytes_contents(*old(self)),
    {
        let remaining = self.len();
        if remaining < 2 {
            return Err(WireError::BufferTooShort { expected: 2, actual: remaining });
        }
        Ok(get_u16(self))
    }

    fn read_u32(&mut self) -> (r: Result<u32, WireError>)
        ensures
            reads_value(r, bytes_contents(*final(self)), parse_u32(bytes_contents(*old(self)))),
            r is Err ==> bytes_contents(*final(self)) == bytes_contents(*old(self)),
    {
        let remaining = self.len();
        if remaining < 4 {
            return Err(WireError::BufferTooShort { expected: 4, actual: remaining });
        }
        Ok(get_u32(self))
    }

    fn read_varint(&mut self) -> (r: Result<u32, WireError>)
        ensures
            reads_value(r, bytes_contents(*final(self)), parse_varint(bytes_contents(*old(self)))),
            r is Ok ==> r->Ok_0 <= VARINT_MAX,
    {
        let ghost s = bytes_contents(*old(self));
        let mut value: u32 = 0;
        let mut shift: u32 = 0;
        let mut i: usize = 0;
        while i < VARINT_MAX_BYTES
            invariant
                s == bytes_contents(*old(self)),
                i <= 4,
                shift == 7 * i,
                i <= s.len(),
                bytes_contents(*self) == s.skip(i as int),
                value == varint_value(s, i as nat),
                value < group_weight(i as nat),
                forall|j: int| 0 <= j < i ==> s[j] >= 128,
            decreases 4 - i,
        {
            if self.len() == 0 {
                assert(s.len() == i);
                return Err(WireError::BufferTooShort { expected: 1, actual: 0 });
            }
            let byte = get_u8(self);
            proof {
                lemma_low_bits(byte);
                lemma_merge_group(value, (byte & VARINT_DATA_MASK) as u32, shift);
                assert(byte == s[i as int]);
                assert(s.skip(i as int).skip(1) == s.skip(i + 1));
            }
            value |= ((byte & VARINT_DATA_MASK) as u32) << shift;
            if byte & VARINT_CONTINUATION_BIT == 0 {
                assert(varint_width(s) == Some((i + 1) as nat));
                assert(value == varint_value(s, (i + 1) as nat));
                return Ok(value);
            }
            shift += VARINT_DATA_BITS;
            i += 1;
        }
        Err(WireError::VariableLengthOverflow)
    }

    fn read_length_prefixed_u8(&mut self) -> (r: Result<Bytes, WireError>)
        ensures
            reads_bytes(
                r,
                bytes_contents(*final(self)),
                parse_length_prefixed_u8(bytes_contents(*old(self))),
            ),
    {
        let length = match self.read_u8() {
            Ok(n) => n as usize,
            Err(e) => { return Err(e); },
        };
        let remaining = self.len();
        if remaining < length {
            return Err(WireError::BufferTooShort { expected: length, actual: remaining });
        }
        Ok(copy_to_bytes(self, length))
    }

    fn read_length_prefixed_u16(&mut self) -> (r: Result<Bytes, WireError>)
        ensures
            reads_bytes(
                r,
                bytes_contents(*final(self)),
                parse_length_prefixed_u16(bytes_contents(*old(self))),
            ),
    {
        let length = match self.read_u16() {
            Ok(n) => n as usize,
            Err(e) => { return Err(e); },
        };
        let remaining = self.len();
        if remaining < length {
            return Err(WireError::BufferTooShort { expected: length, actual: remaining });
        }
        Ok(copy_to_bytes(self, length))
    }
}

/// The variable-length form of `v`: seven bits to a byte, least significant
/// group first, the high bit set on every byte but the last, and no more
/// bytes than the value needs.
pub open spec fn varint(v: u32) -> Seq<u8>
    decreases v,
{
    if v < 128 {
        seq![v as u8]
    } else {
        seq![(v % 128 + 128) as u8] + varint(v / 128)
    }
}

/// A byte string behind a one-byte length. The length byte holds the true
/// length modulo 256.
pub open spec fn length_prefixed_u8(bytes: Seq<u8>) -> Seq<u8> {
    seq![(bytes.len() % 256) as u8] + bytes
}

/// A byte string behind a two-byte length. The length field holds the true
/// length modulo 65536.
pub open spec fn length_prefixed_u16(bytes: Seq<u8>) -> Seq<u8> {
    wire_u16((bytes.len() % 65536) as u16) + bytes
}

/// Whether `more` further bytes can be appended to a buffer that holds `have`.
pub open spec fn has_room(have: nat, more: nat) -> bool {
    have + more <= isize::MAX
}

/// Writing typed fields to the end of a growable buffer.
pub trait WireEncode {
    /// The bytes written so far.
    spec fn written(&self) -> Seq<u8>;

    /// Writes a variable-length integer of one to five bytes; values up to
    /// `VARINT_MAX` take at most four.
    fn put_varint(&mut self, value: u32)
        requires
            has_room(old(self).written().len(), varint(value).len()),
        ensures
            final(self).written() == old(self).written() + varint(value),
    ;

    /// Writes a one-byte length and then the given bytes.
    fn put_length_prefixed_u8(&mut self, bytes: &[u8])
        requires
            has_room(old(self).written().len(), bytes@.len() + 1),
        ensures
            final(self).written() == old(self).written() + length_prefixed_u8(bytes@),
    ;

    /// Writes a two-byte length and then the given bytes.
    fn put_length_prefixed_u16(&mut self, bytes: &[u8])
        requires
            has_room(old(self).written().len(), bytes@.len() + 2),
        ensures
            final(self).written() == old(self).written() + length_prefixed_u16(bytes@),
    ;
}

proof fn lemma_split_group(value: u32)
    ensures
        value & 0x7F == value % 128,
        value >> 7 == value / 128,
        (value & 0x7F) < 128,
{
    assert(value & 0x7F == value % 128) by (bit_vector);
    assert(value >> 7 == value / 128) by (bit_vector);
    assert((value & 0x7F) < 128) by (bit_vector);
}

proof fn lemma_set_continuation(byte: u8)
    requires
        byte < 128,
    ensures
        byte | 0x80 == byte + 128,
{
    assert(byte < 128 ==> byte | 0x80 == byte + 128) by (bit_vector);
}

impl WireEncode for BytesMut {
    open spec fn written(&self) -> Seq<u8> {
        bytes_mut_contents(*self)
    }

    fn put_varint(&mut self, value: u32) {
        let mut value = value;
        let ghost start = bytes_mut_contents(*self);
        let ghost whole = varint(value);
        loop
            invariant_except_break
                bytes_mut_contents(*self) + varint(value) == start + whole,
                has_room(bytes_mut_contents(*self).len(), varint(value).len()),
            invariant
                start == bytes_mut_contents(*old(self)),
            ensures
                bytes_mut_contents(*self) == start + whole,
            decreases value,
        {
            let ghost before = bytes_mut_contents(*self);
            let ghost current = value;
            proof {
                lemma_split_group(value);
            }
            let mut byte = (value & VARINT_DATA_MASK as u32) as u8;
            value >>= VARINT_DATA_BITS;
            if value > 0 {
                proof {
                    lemma_set_continuation(byte);
                }
                byte |= VARINT_CONTINUATION_BIT;
            }
            put_u8(self, byte);
            proof {
                assert(varint(current) == seq![byte] + if current < 128 {
                    Seq::<u8>::empty()
                } else {
                    varint(value)
                });
                assert(before.push(byte) + varint(value) == before + (seq![byte] + varint(value)));
                assert(before.push(byte) == before + seq![byte]);
            }
            if value == 0 {
                break ;
            }
        }
    }

    fn put_length_prefixed_u8(&mut self, bytes: &[u8]) {
        let ghost start = bytes_mut_contents(*self);
        put_u8(self, (bytes.len() % 256) as u8);
        put_slice(self, bytes);
        assert(bytes_mut_contents(*self) == start + length_prefixed_u8(bytes@));
    }

    fn put_length_prefixed_u16(&mut self, bytes: &[u8]) {
        let ghost start = bytes_mut_contents(*self);
        put_u16(self, (bytes.len() % 65536) as u16);
        put_slice(self, bytes);
        assert(bytes_mut_contents(*self) == start + length_prefixed_u16(bytes@));
    }
}

/// The variable-length form of a value up to `VARINT_MAX` takes one to four
/// bytes: one below 128, two below 16384, three below 2097152.
pub proof fn lemma_varint_len(v: u32)
    ensures
        1 <= varint(v).len() <= 5,
        v < 128 <==> varint(v).len() == 1,
        128 <= v < 16384 <==> varint(v).len() == 2,
        16384 <= v < 2097152 <==> varint(v).len() == 3,
        2097152 <= v <= VARINT_MAX <==> varint(v).len() == 4,
{
    reveal_with_fuel(varint, 6);
}

/// Reading back a written variable-length integer gives the value and leaves
/// what followed it, for every value up to `VARINT_MAX`.
pub proof fn lemma_varint_round_trip(v: u32, tail: Seq<u8>)
    requires
        v <= VARINT_MAX,
    ensures
        parse_varint(varint(v) + tail) == Ok::<(u32, Seq<u8>), WireError>((v, tail)),
{
    reveal_with_fuel(varint, 6);
    reveal_with_fuel(varint_value, 6);
    let w = varint(v);
    let s = w + tail;
    let k = w.len();
    assert(s.skip(k as int) == tail);
    assert(forall|i: int| 0 <= i < k ==> s[i] == w[i]);
    assert(group_weight(0) == 1 && group_weight(1) == 128 && group_weight(2) == 16384
        && group_weight(3) == 2097152);
    assert(varint_value(s, 0) == 0);
    assert(varint_value(s, 1) == varint_value(s, 0) + (s[0] % 128) as nat * 1);
    assert(varint_value(s, 2) == varint_value(s, 1) + (s[1] % 128) as nat * 128);
    assert(varint_value(s, 3) == varint_value(s, 2) + (s[2] % 128) as nat * 16384);
    assert(varint_value(s, 4) == varint_value(s, 3) + (s[3] % 128) as nat * 2097152);
    if v < 128 {
        assert(w == seq![v as u8]);
        assert(s[0] == v);
        assert(varint_width(s) == Some(1nat));
        assert(varint_value(s, 1) == v);
    } else if v < 16384 {
        assert(w == seq![(v % 128 + 128) as u8, (v / 128) as u8]);
        assert(s[0] == v % 128 + 128 && s[1] == v / 128);
        assert(varint_width(s) == Some(2nat));
        assert(varint_value(s, 2) == v % 128 + (v / 128) * 128);
    } else if v < 2097152 {
        assert(w == seq![
            (v % 128 + 128) as u8,
            (v / 128 % 128 + 128) as u8,
            (v / 128 / 128) as u8,
        ]);
        assert(s[0] == v % 128 + 128 && s[1] == v / 128 % 128 + 128 && s[2] == v / 128 / 128);
        assert(varint_width(s) == Some(3nat));
        assert(varint_value(s, 3) == v % 128 + (v / 128 % 128) * 128 + (v / 128 / 128) * 16384);
    } else {
        assert(w == seq![
            (v % 128 + 128) as u8,
            (v / 128 % 128 + 128) as u8,
            (v / 128 / 128 % 128 + 128) as u8,
            (v / 128 / 128 / 128) as u8,
        ]);
        assert(s[0] == v % 128 + 128 && s[1] == v / 128 % 128 + 128 && s[2] == v / 128 / 128 % 128
            + 128 && s[3] == v / 128 / 128 / 128);
        assert(varint_width(s) == Some(4nat));
        assert(varint_value(s, 4) == v % 128 + (v / 128 % 128) * 128 + (v / 128 / 128 % 128)
            * 16384 + (v / 128 / 128 / 128) * 2097152);
    }
}

/// A value above `VARINT_MAX` is written as five bytes, and reading them back
/// fails.
pub proof fn lemma_varint_too_large(v: u32, tail: Seq<u8>)
    requires
        v > VARINT_MAX,
    ensures
        varint(v).len() == 5,
        parse_varint(varint(v) + tail) == Err::<(u32, Seq<u8>), WireError>(
            WireError::VariableLengthOverflow,
        ),
{
    reveal_with_fuel(varint, 6);
    let s = varint(v) + tail;
    assert(forall|i: int| 0 <= i < 5 ==> s[i] == varint(v)[i]);
}

/// Four bytes that all carry the continuation bit never read as a
/// variable-length integer, whatever follows them.
pub proof fn lemma_varint_overflow(s: Seq<u8>)
    requires
        s.len() >= 4,
        s[0] >= 128,
        s[1] >= 128,
        s[2] >= 128,
        s[3] >= 128,
    ensures
        parse_varint(s) == Err::<(u32, Seq<u8>), WireError>(WireError::VariableLengthOverflow),
{
}

/// Appending in two steps is appending the two parts joined.
pub proof fn lemma_concat_assoc(a: Seq<u8>, b: Seq<u8>, c: Seq<u8>)
    ensures
        (a + b) + c == a + (b + c),
{
    assert((a + b) + c =~= a + (b + c));
}

/// Reading back a written byte gives the byte and leaves what followed.
pub proof fn lemma_u8_round_trip(n: u8, tail: Seq<u8>)
    ensures
        parse_u8(seq![n] + tail) == Ok::<(u8, Seq<u8>), WireError>((n, tail)),
{
    let s = seq![n] + tail;
    assert(s.skip(1) == tail);
    assert(s[0] == n);
}

/// Reading back a written `u16` gives the value and leaves what followed.
pub proof fn lemma_u16_round_trip(n: u16, tail: Seq<u8>)
    ensures
        parse_u16(wire_u16(n) + tail) == Ok::<(u16, Seq<u8>), WireError>((n, tail)),
{
    reveal(be_u16);
    let s = wire_u16(n) + tail;
    assert(s.skip(2) == tail);
    assert(s[0] == (n / 256) as u8 && s[1] == (n % 256) as u8);
}

/// Reading back a written `u32` gives the value and leaves what followed.
pub proof fn lemma_u32_round_trip(n: u32, tail: Seq<u8>)
    ensures
        parse_u32(wire_u32(n) + tail) == Ok::<(u32, Seq<u8>), WireError>((n, tail)),
{
    reveal(be_u32);
    let s = wire_u32(n) + tail;
    assert(s.skip(4) == tail);
    assert(s[0] == (n / 16777216) as u8 && s[1] == (n / 65536 % 256) as u8 && s[2] == (n / 256
        % 256) as u8 && s[3] == (n % 256) as u8);
}

/// Reading back a byte string written behind a one-byte length gives the
/// string and leaves what followed, as long as the string has at most 255
/// bytes.
pub proof fn lemma_length_prefixed_u8_round_trip(bytes: Seq<u8>, tail: Seq<u8>)
    requires
        bytes.len() <= 255,
    ensures
        parse_length_prefixed_u8(length_prefixed_u8(bytes) + tail) == Ok::<
            (Seq<u8>, Seq<u8>),
            WireError,
        >((bytes, tail)),
{
    let s = length_prefixed_u8(bytes) + tail;
    assert(s[0] == bytes.len() as u8);
    assert(s.skip(1) == bytes + tail);
    assert((bytes + tail).take(bytes.len() as int) == bytes);
    assert((bytes + tail).skip(bytes.len() as int) == tail);
}

/// Reading back a byte string written behind a two-byte length gives the
/// string and leaves what followed, as long as the string has at most 65535
/// bytes.
pub proof fn lemma_length_prefixed_u16_round_trip(bytes: Seq<u8>, tail: Seq<u8>)
    requires
        bytes.len() <= 65535,
    ensures
        parse_length_prefixed_u16(length_prefixed_u16(bytes) + tail) == Ok::<
            (Seq<u8>, Seq<u8>),
            WireError,
        >((bytes, tail)),
{
    let n = bytes.len() as u16;
    let s = length_prefixed_u16(bytes) + tail;
    assert(s == wire_u16(n) + (bytes + tail));
    lemma_u16_round_trip(n, bytes + tail);
    assert((bytes + tail).take(bytes.len() as int) == bytes);
    assert((bytes + tail).skip(bytes.len() as int) == tail);
}

/// A variable-length integer that reads at all is at most `VARINT_MAX`.
pub proof fn lemma_varint_parsed(s: Seq<u8>)
    requires
        parse_varint(s) is Ok,
    ensures
        parse_varint(s)->Ok_0.0 <= VARINT_MAX,
        parse_varint(s)->Ok_0.1.len() < s.len(),
{
    reveal_with_fuel(varint_value, 6);
    let k = varint_width(s)->Some_0;
    assert(group_weight(0) == 1 && group_weight(1) == 128 && group_weight(2) == 16384
        && group_weight(3) == 2097152);
    assert(varint_value(s, 1) == (s[0] % 128) as nat * 1);
    assert(varint_value(s, 2) == varint_value(s, 1) + (s[1] % 128) as nat * 128);
    assert(varint_value(s, 3) == varint_value(s, 2) + (s[2] % 128) as nat * 16384);
    assert(varint_value(s, 4) == varint_value(s, 3) + (s[3] % 128) as nat * 2097152);
}

/// A byte string that was read from behind a one-byte length has at most
/// 255 bytes, and writing it again gives the bytes that were read.
pub proof fn lemma_length_prefixed_u8_parsed(s: Seq<u8>)
    requires
        parse_length_prefixed_u8(s) is Ok,
    ensures
        parse_length_prefixed_u8(s)->Ok_0.0.len() <= 255,
        length_prefixed_u8(parse_length_prefixed_u8(s)->Ok_0.0) + parse_length_prefixed_u8(
            s,
        )->Ok_0.1 == s,
{
    let bytes = parse_length_prefixed_u8(s)->Ok_0.0;
    let rest = parse_length_prefixed_u8(s)->Ok_0.1;
    assert(length_prefixed_u8(bytes) + rest =~= s);
}

/// A byte string that was read from behind a two-byte length has at most
/// 65535 bytes, and writing it again gives the bytes that were read.
pub proof fn lemma_length_prefixed_u16_parsed(s: Seq<u8>)
    requires
        parse_length_prefixed_u16(s) is Ok,
    ensures
        parse_length_prefixed_u16(s)->Ok_0.0.len() <= 65535,
        length_prefixed_u16(parse_length_prefixed_u16(s)->Ok_0.0) + parse_length_prefixed_u16(
            s,
        )->Ok_0.1 == s,
{
    reveal(be_u16);
    let bytes = parse_length_prefixed_u16(s)->Ok_0.0;
    let rest = parse_length_prefixed_u16(s)->Ok_0.1;
    let n = be_u16(s[0], s[1]);
    assert(bytes.len() == n);
    assert(wire_u16(n) == seq![s[0], s[1]]);
    assert(length_prefixed_u16(bytes) + rest =~= s);
}

} // verus!
