//! The fixed header that opens every frame: one byte with the command in its
//! upper half and the flags in its lower half, then the length of the payload
//! as a variable-length integer.

use vstd::prelude::*;
use bytes::{Bytes, BytesMut};
use crate::buf::{bytes_contents, bytes_mut_contents, get_u8, put_u8};
use crate::common::wire::{
    has_room, lemma_varint_len, lemma_varint_round_trip, parse_varint, varint, WireDecode,
    WireEncode, VARINT_MAX,
};
use crate::protocol::error::{wire_error, DecodeError};
use crate::protocol::{command_of, Command};

verus! {

pub const COMMAND_SHIFT: u8 = 4;

pub const FLAGS_MASK: u8 = 0x0F;

/// The fixed header of a frame.
pub struct FixedHeader {
    pub command: Command,
    /// The lower four bits travel; what they mean is up to the command.
    pub flags: u8,
    /// The number of payload bytes that follow the header.
    pub remaining_length: u32,
}

/// The first byte of a frame: the command's code in the upper four bits, the
/// lower four bits of `flags` below it.
pub open spec fn first_byte(command: Command, flags: u8) -> u8 {
    (command.spec_code() * 16 + flags % 16) as u8
}

/// What reading a fixed header from `s` gives: the header and the bytes left
/// over, or the error.
pub open spec fn parse_fixed_header(s: Seq<u8>) -> Result<(FixedHeader, Seq<u8>), DecodeError> {
    if s.len() < 2 {
        Err(DecodeError::BufferTooShort { expected: 2, actual: s.len() as usize })
    } else {
        match command_of(s[0] / 16) {
            Err(e) => Err(e),
            Ok(command) => match parse_varint(s.skip(1)) {
                Err(e) => Err(wire_error(e)),
                Ok((remaining_length, rest)) => Ok(
                    (FixedHeader { command, flags: s[0] % 16, remaining_length }, rest),
                ),
            },
        }
    }
}

proof fn lemma_split_first_byte(byte: u8)
    ensures
        byte >> 4 == byte / 16,
        byte & 0x0F == byte % 16,
{
    assert(byte >> 4 == byte / 16) by (bit_vector);
    assert(byte & 0x0F == byte % 16) by (bit_vector);
}

proof fn lemma_join_first_byte(code: u8, flags: u8)
    requires
        code < 16,
    ensures
        (code << 4) | (flags & 0x0F) == code * 16 + flags % 16,
{
    assert(code < 16 ==> (code << 4) | (flags & 0x0F) == code * 16 + flags % 16) by (bit_vector);
}

impl FixedHeader {
    pub fn new(command: Command, flags: u8, remaining_length: u32) -> (r: Self)
        ensures
            r == (FixedHeader { command, flags, remaining_length }),
    {
        Self { command, flags, remaining_length }
    }

    /// The bytes of the header on the wire.
    pub open spec fn wire(self) -> Seq<u8> {
        seq![first_byte(self.command, self.flags)] + varint(self.remaining_length)
    }

    /// Reads a fixed header. Needs two bytes at least; the upper half of the
    /// first must be the code of a command, and the length must end within
    /// four bytes.
    pub fn decode(src: &mut Bytes) -> (r: Result<Self, DecodeError>)
        ensures
            match parse_fixed_header(bytes_contents(*old(src))) {
                Ok((header, rest)) => r == Ok::<Self, DecodeError>(header) && bytes_contents(
                    *final(src),
                ) == rest,
                Err(e) => r == Err::<Self, DecodeError>(e),
            },
    {
        let remaining = src.len();
        if remaining < 2 {
            return Err(DecodeError::BufferTooShort { expected: 2, actual: remaining });
        }
        let first_byte = get_u8(src);
        proof {
            lemma_split_first_byte(first_byte);
        }
        let command = match Command::try_from(first_byte >> COMMAND_SHIFT) {
            Ok(command) => command,
            Err(e) => { return Err(e); },
        };
        let flags = first_byte & FLAGS_MASK;
        let remaining_length = match decode_variable_length(src) {
            Ok(n) => n,
            Err(e) => { return Err(e); },
        };
        Ok(Self { command, flags, remaining_length })
    }

    /// Writes the header. The length is written as given: that it is the
    /// length of the payload is up to the caller.
    pub fn encode(&self, dst: &mut BytesMut)
        requires
            has_room(bytes_mut_contents(*old(dst)).len(), self.wire().len()),
        ensures
            bytes_mut_contents(*final(dst)) == bytes_mut_contents(*old(dst)) + self.wire(),
    {
        let ghost start = bytes_mut_contents(*dst);
        let code = self.command.code();
        proof {
            lemma_join_first_byte(code, self.flags);
        }
        put_u8(dst, (code << COMMAND_SHIFT) | (self.flags & FLAGS_MASK));
        encode_variable_length(self.remaining_length, dst);
        assert(bytes_mut_contents(*dst) == start + self.wire());
    }

    /// A header takes two to six bytes, and at most five where the length is
    /// at most `VARINT_MAX`.
    pub proof fn lemma_wire_len(self)
        ensures
            2 <= self.wire().len() <= 6,
            self.remaining_length <= VARINT_MAX ==> self.wire().len() <= 5,
    {
        lemma_varint_len(self.remaining_length);
    }

    /// Reading back a written header gives the command, the lower four bits
    /// of the flags and the length, and leaves what followed, for every
    /// length up to `VARINT_MAX`.
    pub proof fn lemma_round_trip(self, tail: Seq<u8>)
        requires
            self.remaining_length <= VARINT_MAX,
        ensures
            parse_fixed_header(self.wire() + tail) == Ok::<(FixedHeader, Seq<u8>), DecodeError>(
                (
                    FixedHeader {
                        command: self.command,
                        flags: self.flags % 16,
                        remaining_length: self.remaining_length,
                    },
                    tail,
                ),
            ),
    {
        let s = self.wire() + tail;
        assert(s.skip(1) == varint(self.remaining_length) + tail);
        lemma_varint_round_trip(self.remaining_length, tail);
        self.command.lemma_code_round_trip();
        assert(s[0] == first_byte(self.command, self.flags));
    }
}

/// Reads a variable-length integer of one to four bytes.
pub fn decode_variable_length(src: &mut Bytes) -> (r: Result<u32, DecodeError>)
    ensures
        match parse_varint(bytes_contents(*old(src))) {
            Ok((value, rest)) => r == Ok::<u32, DecodeError>(value) && bytes_contents(*final(src))
                == rest,
            Err(e) => r == Err::<u32, DecodeError>(wire_error(e)),
        },
{
    match src.read_varint() {
        Ok(value) => Ok(value),
        Err(e) => Err(DecodeError::from(e)),
    }
}

/// Writes `value` as a variable-length integer.
pub fn encode_variable_length(value: u32, dst: &mut BytesMut)
    requires
        has_room(bytes_mut_contents(*old(dst)).len(), varint(value).len()),
    ensures
        bytes_mut_contents(*final(dst)) == bytes_mut_contents(*old(dst)) + varint(value),
{
    dst.put_varint(value);
}

} // verus!
