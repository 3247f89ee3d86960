//! What the command codecs share: field readers that fail with
//! [`DecodeError`], the headers block, the codec trait, and framing.

use vstd::prelude::*;
use bytes::{Bytes, BytesMut};
use crate::buf::{bytes_as_slice, bytes_contents, bytes_mut_as_slice, bytes_mut_contents, put_slice};
use crate::common::error::WireError;
pub use crate::common::wire::WireEncode;
use crate::common::wire::{
    has_room, lemma_concat_assoc, lemma_length_prefixed_u16_parsed,
    lemma_length_prefixed_u16_round_trip, lemma_length_prefixed_u8_parsed,
    lemma_length_prefixed_u8_round_trip, length_prefixed_u16, length_prefixed_u8,
    parse_length_prefixed_u16, parse_length_prefixed_u8, parse_u16, parse_u32, parse_u8,
    parse_varint, VARINT_MAX,
};
use crate::protocol::error::{wire_error, DecodeError};
use crate::protocol::header::{parse_fixed_header, FixedHeader, FLAGS_MASK};
use crate::protocol::Command;

verus! {

/// The payload of a PUB or MSG: bytes that the protocol does not look into.
pub struct Payload(pub Bytes);

/// Whether a reader that returned `r` and left `after` in the buffer did what
/// `expected` says: the value and the rest on success, otherwise the decode
/// error that stands for the failed read.
pub open spec fn decodes_value<T>(
    r: Result<T, DecodeError>,
    after: Seq<u8>,
    expected: Result<(T, Seq<u8>), WireError>,
) -> bool {
    match expected {
        Ok((v, rest)) => r == Ok::<T, DecodeError>(v) && after == rest,
        Err(e) => r == Err::<T, DecodeError>(wire_error(e)),
    }
}

/// Whether a reader of byte strings that returned `r` and left `after` in the
/// buffer did what `expected` says.
pub open spec fn decodes_bytes(
    r: Result<Bytes, DecodeError>,
    after: Seq<u8>,
    expected: Result<(Seq<u8>, Seq<u8>), WireError>,
) -> bool {
    match expected {
        Ok((v, rest)) => r is Ok && bytes_contents(r->Ok_0) == v && after == rest,
        Err(e) => r == Err::<Bytes, DecodeError>(wire_error(e)),
    }
}

/// Reading typed fields from a `Bytes` cursor, for the command codecs.
pub trait WireDecode {
    fn read_u8(&mut self) -> Result<u8, DecodeError>;

    fn read_u16(&mut self) -> Result<u16, DecodeError>;

    fn read_u32(&mut self) -> Result<u32, DecodeError>;

    /// Reads a variable-length integer of one to four bytes.
    fn read_varint(&mut self) -> Result<u32, DecodeError>;

    /// Reads a one-byte length and that many bytes.
    fn read_length_prefixed_u8(&mut self) -> Result<Bytes, DecodeError>;

    /// Reads a two-byte length and that many bytes.
    fn read_length_prefixed_u16(&mut self) -> Result<Bytes, DecodeError>;
}

impl WireDecode for Bytes {
    fn read_u8(&mut self) -> (r: Result<u8, DecodeError>)
        ensures
            decodes_value(r, bytes_contents(*final(self)), parse_u8(bytes_contents(*old(self)))),
    {
        match crate::common::wire::WireDecode::read_u8(self) {
            Ok(value) => Ok(value),
            Err(e) => Err(DecodeError::from(e)),
        }
    }

    fn read_u16(&mut self) -> (r: Result<u16, DecodeError>)
        ensures
            decodes_value(r, bytes_contents(*final(self)), parse_u16(bytes_contents(*old(self)))),
    {
        match crate::common::wire::WireDecode::read_u16(self) {
            Ok(value) => Ok(value),
            Err(e) => Err(DecodeError::from(e)),
        }
    }

    fn read_u32(&mut self) -> (r: Result<u32, DecodeError>)
        ensures
            decodes_value(r, bytes_contents(*final(self)), parse_u32(bytes_contents(*old(self)))),
    {
        match crate::common::wire::WireDecode::read_u32(self) {
            Ok(value) => Ok(value),
            Err(e) => Err(DecodeError::from(e)),
        }
    }

    fn read_varint(&mut self) -> (r: Result<u32, DecodeError>)
        ensures
            decodes_value(
                r,
                bytes_contents(*final(self)),
                parse_varint(bytes_contents(*old(self))),
            ),
            r is Ok ==> r->Ok_0 <= VARINT_MAX,
    {
        match crate::common::wire::WireDecode::read_varint(self) {
            Ok(value) => Ok(value),
            Err(e) => Err(DecodeError::from(e)),
        }
    }

    fn read_length_prefixed_u8(&mut self) -> (r: Result<Bytes, DecodeError>)
        ensures
            decodes_bytes(
                r,
                bytes_contents(*final(self)),
                parse_length_prefixed_u8(bytes_contents(*old(self))),
            ),
    {
        match crate::common::wire::WireDecode::read_length_prefixed_u8(self) {
            Ok(value) => Ok(value),
            Err(e) => Err(DecodeError::from(e)),
        }
    }

    fn read_length_prefixed_u16(&mut self) -> (r: Result<Bytes, DecodeError>)
        ensures
            decodes_bytes(
                r,
                bytes_contents(*final(self)),
                parse_length_prefixed_u16(bytes_contents(*old(self))),
            ),
    {
        match crate::common::wire::WireDecode::read_length_prefixed_u16(self) {
            Ok(value) => Ok(value),
            Err(e) => Err(DecodeError::from(e)),
        }
    }
}

/// One header on the wire: the key behind a one-byte length, then the value
/// behind a two-byte length.
pub open spec fn header_entry_wire(key: Seq<u8>, value: Seq<u8>) -> Seq<u8> {
    length_prefixed_u8(key) + length_prefixed_u16(value)
}

/// A headers block on the wire: its entries back to back, in order, with no
/// count in front.
pub open spec fn headers_wire(entries: Seq<(Seq<u8>, Seq<u8>)>) -> Seq<u8>
    decreases entries.len(),
{
    if entries.len() == 0 {
        Seq::empty()
    } else {
        header_entry_wire(entries[0].0, entries[0].1) + headers_wire(entries.skip(1))
    }
}

/// What reading a headers block from exactly the bytes `s` gives: the
/// entries in order, or the error of the first read that fails.
pub open spec fn parse_headers(s: Seq<u8>) -> Result<Seq<(Seq<u8>, Seq<u8>)>, DecodeError>
    decreases s.len(),
{
    if s.len() == 0 {
        Ok(Seq::empty())
    } else {
        match parse_length_prefixed_u8(s) {
            Err(e) => Err(wire_error(e)),
            Ok((key, after_key)) => match parse_length_prefixed_u16(after_key) {
                Err(e) => Err(wire_error(e)),
                Ok((value, rest)) => match parse_headers(rest) {
                    Err(e) => Err(e),
                    Ok(more) => Ok(seq![(key, value)] + more),
                },
            },
        }
    }
}

/// Every key fits a one-byte length and every value a two-byte length.
pub open spec fn headers_fit(entries: Seq<(Seq<u8>, Seq<u8>)>) -> bool {
    forall|i: int|
        0 <= i < entries.len() ==> (#[trigger] entries[i]).0.len() <= 255 && entries[i].1.len()
            <= 65535
}

/// Adding an entry at the end of a headers block adds its bytes at the end.
pub proof fn lemma_headers_wire_push(entries: Seq<(Seq<u8>, Seq<u8>)>, key: Seq<u8>, value: Seq<u8>)
    ensures
        headers_wire(entries.push((key, value))) == headers_wire(entries) + header_entry_wire(
            key,
            value,
        ),
    decreases entries.len(),
{
    let longer = entries.push((key, value));
    if entries.len() == 0 {
        assert(longer.skip(1) == Seq::<(Seq<u8>, Seq<u8>)>::empty());
        assert(headers_wire(longer.skip(1)) == Seq::<u8>::empty());
        assert(headers_wire(longer) == header_entry_wire(key, value) + Seq::<u8>::empty());
    } else {
        lemma_headers_wire_push(entries.skip(1), key, value);
        assert(longer.skip(1) == entries.skip(1).push((key, value)));
        assert(headers_wire(longer) == header_entry_wire(entries[0].0, entries[0].1) + (
        headers_wire(entries.skip(1)) + header_entry_wire(key, value)));
    }
}

/// Reading a written header back takes the key first and then the value,
/// and leaves what followed.
pub proof fn lemma_header_entry_round_trip(key: Seq<u8>, value: Seq<u8>, tail: Seq<u8>)
    requires
        key.len() <= 255,
        value.len() <= 65535,
    ensures
        header_entry_wire(key, value).len() > 0,
        parse_length_prefixed_u8(header_entry_wire(key, value) + tail) == Ok::<
            (Seq<u8>, Seq<u8>),
            WireError,
        >((key, length_prefixed_u16(value) + tail)),
        parse_length_prefixed_u16(length_prefixed_u16(value) + tail) == Ok::<
            (Seq<u8>, Seq<u8>),
            WireError,
        >((value, tail)),
{
    lemma_concat_assoc(length_prefixed_u8(key), length_prefixed_u16(value), tail);
    lemma_length_prefixed_u8_round_trip(key, length_prefixed_u16(value) + tail);
    lemma_length_prefixed_u16_round_trip(value, tail);
}

/// Reading back a block that opens with one written header gives that
/// header in front of what the rest of the block gives.
proof fn lemma_headers_step(key: Seq<u8>, value: Seq<u8>, tail: Seq<u8>)
    requires
        key.len() <= 255,
        value.len() <= 65535,
    ensures
        parse_headers(header_entry_wire(key, value) + tail) == (match parse_headers(tail) {
            Ok(more) => Ok::<Seq<(Seq<u8>, Seq<u8>)>, DecodeError>(seq![(key, value)] + more),
            Err(e) => Err::<Seq<(Seq<u8>, Seq<u8>)>, DecodeError>(e),
        }),
{
    lemma_header_entry_round_trip(key, value, tail);
}

/// Reading back a written headers block gives the same entries in the same
/// order, duplicates included, as long as every key and value fits its
/// length field.
pub proof fn lemma_headers_round_trip(entries: Seq<(Seq<u8>, Seq<u8>)>)
    requires
        headers_fit(entries),
    ensures
        parse_headers(headers_wire(entries)) == Ok::<Seq<(Seq<u8>, Seq<u8>)>, DecodeError>(entries),
    decreases entries.len(),
{
    if entries.len() > 0 {
        let key = entries[0].0;
        let value = entries[0].1;
        let rest = entries.skip(1);
        assert(headers_fit(rest)) by {
            assert forall|i: int| 0 <= i < rest.len() implies (#[trigger] rest[i]).0.len() <= 255
                && rest[i].1.len() <= 65535 by {
                assert(rest[i] == entries[i + 1]);
            }
        }
        lemma_headers_round_trip(rest);
        lemma_headers_step(key, value, headers_wire(rest));
        assert(seq![(key, value)] + rest == entries);
    } else {
        assert(entries == Seq::<(Seq<u8>, Seq<u8>)>::empty());
    }
}

/// A headers block that reads at all is the written form of what was read:
/// every key and value fits its length field, and writing the entries again
/// gives the block byte for byte.
pub proof fn lemma_headers_parsed(s: Seq<u8>)
    requires
        parse_headers(s) is Ok,
    ensures
        headers_fit(parse_headers(s)->Ok_0),
        headers_wire(parse_headers(s)->Ok_0) == s,
    decreases s.len(),
{
    if s.len() > 0 {
        let after_key = parse_length_prefixed_u8(s)->Ok_0.1;
        let key = parse_length_prefixed_u8(s)->Ok_0.0;
        let value = parse_length_prefixed_u16(after_key)->Ok_0.0;
        let rest = parse_length_prefixed_u16(after_key)->Ok_0.1;
        let more = parse_headers(rest)->Ok_0;
        let entries = parse_headers(s)->Ok_0;
        lemma_length_prefixed_u8_parsed(s);
        lemma_length_prefixed_u16_parsed(after_key);
        lemma_headers_parsed(rest);
        assert(entries == seq![(key, value)] + more);
        assert(entries.skip(1) == more);
        assert(entries[0] == (key, value));
        assert forall|i: int| 0 <= i < entries.len() implies (#[trigger] entries[i]).0.len()
            <= 255 && entries[i].1.len() <= 65535 by {
            if i > 0 {
                assert(entries[i] == more[i - 1]);
            }
        }
        lemma_concat_assoc(length_prefixed_u8(key), length_prefixed_u16(value), rest);
    } else {
        assert(s == Seq::<u8>::empty());
    }
}

/// An ordered list of key-value pairs carried by PUB and MSG. The order of
/// insertion is kept, and a key may occur more than once.
pub struct Headers {
    entries: Vec<(Bytes, Bytes)>,
}

impl View for Headers {
    type V = Seq<(Seq<u8>, Seq<u8>)>;

    closed spec fn view(&self) -> Seq<(Seq<u8>, Seq<u8>)> {
        Seq::new(
            self.entries@.len(),
            |i: int| (bytes_contents(self.entries@[i].0), bytes_contents(self.entries@[i].1)),
        )
    }
}

impl Headers {
    /// A headers block without entries.
    pub fn new() -> (r: Self)
        ensures
            r@ == Seq::<(Seq<u8>, Seq<u8>)>::empty(),
    {
        Self { entries: Vec::new() }
    }

    /// Adds an entry behind those that are there.
    pub fn insert(&mut self, key: Bytes, value: Bytes)
        ensures
            final(self)@ == old(self)@.push((bytes_contents(key), bytes_contents(value))),
    {
        self.entries.push((key, value));
        assert(self@ == old(self)@.push((bytes_contents(key), bytes_contents(value))));
    }

    /// The entries in the order of insertion.
    pub fn entries(&self) -> (r: &[(Bytes, Bytes)])
        ensures
            r@.len() == self@.len(),
            forall|i: int|
                0 <= i < r@.len() ==> bytes_contents((#[trigger] r@[i]).0) == self@[i].0
                    && bytes_contents(r@[i].1) == self@[i].1,
    {
        self.entries.as_slice()
    }

    /// Writes the entries back to back, keys behind a one-byte length and
    /// values behind a two-byte length.
    pub fn encode_to(&self, dst: &mut BytesMut)
        requires
            has_room(bytes_mut_contents(*old(dst)).len(), headers_wire(self@).len()),
        ensures
            bytes_mut_contents(*final(dst)) == bytes_mut_contents(*old(dst)) + headers_wire(self@),
    {
        let ghost start = bytes_mut_contents(*dst);
        let mut i: usize = 0;
        proof {
            assert(self@.take(0) == Seq::<(Seq<u8>, Seq<u8>)>::empty());
            lemma_headers_wire_prefix(self@, 0);
        }
        while i < self.entries.len()
            invariant
                i <= self.entries@.len() == self@.len(),
                start == bytes_mut_contents(*old(dst)),
                has_room(start.len(), headers_wire(self@).len()),
                bytes_mut_contents(*dst) == start + headers_wire(self@.take(i as int)),
            decreases self.entries@.len() - i,
        {
            let ghost before = bytes_mut_contents(*dst);
            let ghost key = self@[i as int].0;
            let ghost value = self@[i as int].1;
            proof {
                lemma_headers_wire_push(self@.take(i as int), key, value);
                assert(self@.take(i as int).push((key, value)) == self@.take(i + 1));
                lemma_headers_wire_prefix(self@, i + 1);
            }
            dst.put_length_prefixed_u8(bytes_as_slice(&self.entries[i].0));
            dst.put_length_prefixed_u16(bytes_as_slice(&self.entries[i].1));
            assert(bytes_mut_contents(*dst) == before + header_entry_wire(key, value));
            i += 1;
        }
        assert(self@.take(i as int) == self@);
    }

    /// Reads entries until `src` is used up. `src` must hold the block and
    /// nothing else; a last entry that is cut short is an error.
    pub fn decode_from(src: &mut Bytes) -> (r: Result<Self, DecodeError>)
        ensures
            match parse_headers(bytes_contents(*old(src))) {
                Ok(entries) => r is Ok && r->Ok_0@ == entries && bytes_contents(*final(src)).len()
                    == 0,
                Err(e) => r == Err::<Self, DecodeError>(e),
            },
    {
        let mut headers = Headers::new();
        while src.len() > 0
            invariant
                parse_headers(bytes_contents(*old(src))) == (match parse_headers(
                    bytes_contents(*src),
                ) {
                    Ok(more) => Ok::<Seq<(Seq<u8>, Seq<u8>)>, DecodeError>(headers@ + more),
                    Err(e) => Err::<Seq<(Seq<u8>, Seq<u8>)>, DecodeError>(e),
                }),
            decreases bytes_contents(*src).len(),
        {
            let ghost before = headers@;
            let key = match src.read_length_prefixed_u8() {
                Ok(key) => key,
                Err(e) => { return Err(e); },
            };
            let value = match src.read_length_prefixed_u16() {
                Ok(value) => value,
                Err(e) => { return Err(e); },
            };
            proof {
                let entry = (bytes_contents(key), bytes_contents(value));
                assert forall|more: Seq<(Seq<u8>, Seq<u8>)>|
                    before + (seq![entry] + more) == before.push(entry) + more by {
                    assert(before + (seq![entry] + more) =~= before.push(entry) + more);
                }
            }
            headers.insert(key, value);
        }
        assert(headers@ + Seq::<(Seq<u8>, Seq<u8>)>::empty() == headers@);
        Ok(headers)
    }
}

/// The bytes of the first `n` entries open the bytes of the whole block.
pub proof fn lemma_headers_wire_prefix(entries: Seq<(Seq<u8>, Seq<u8>)>, n: int)
    requires
        0 <= n <= entries.len(),
    ensures
        headers_wire(entries.take(n)).len() <= headers_wire(entries).len(),
    decreases entries.len() - n,
{
    if n < entries.len() {
        lemma_headers_wire_prefix(entries, n + 1);
        lemma_headers_wire_push(entries.take(n), entries[n].0, entries[n].1);
        assert(entries.take(n).push((entries[n].0, entries[n].1)) == entries.take(n + 1));
    } else {
        assert(entries.take(n) == entries);
    }
}

/// The codec of one command. Each command type keeps its own layout: what
/// its payload looks like on the wire, which flags announce its optional
/// sections, and how both are read back.
///
/// The layout is stated over the view of the type: `payload_of` and
/// `flags_of` say what is written, `parse` what is read, and
/// `lemma_round_trip` that reading undoes writing.
pub trait CommandCodec: Sized + View {
    /// The command that the type is the payload of.
    spec fn spec_command() -> Command;

    /// The flags that announce the optional sections of `v`.
    spec fn flags_of(v: Self::V) -> u8;

    /// The payload of `v` on the wire.
    spec fn payload_of(v: Self::V) -> Seq<u8>;

    /// What reading a payload from `s` under `flags` gives: the value and the
    /// bytes left over, or the error.
    spec fn parse(flags: u8, s: Seq<u8>) -> Result<(Self::V, Seq<u8>), DecodeError>;

    /// `v` can be written so that it reads back: every field fits the length
    /// field in front of it, and every topic obeys its rules.
    spec fn encodable(v: Self::V) -> bool;

    fn command() -> (r: Command)
        ensures
            r == Self::spec_command(),
    ;

    /// The flags for the fixed header.
    fn flags(&self) -> (r: u8)
        ensures
            r == Self::flags_of(self@),
            r <= FLAGS_MASK,
    ;

    /// Writes the payload to the end of `dst`.
    fn encode(&self, dst: &mut BytesMut)
        requires
            has_room(bytes_mut_contents(*old(dst)).len(), Self::payload_of(self@).len()),
        ensures
            bytes_mut_contents(*final(dst)) == bytes_mut_contents(*old(dst)) + Self::payload_of(
                self@,
            ),
    ;

    /// Reads a payload from `src`, with the flags of the fixed header.
    fn decode(flags: u8, src: &mut Bytes) -> (r: Result<Self, DecodeError>)
        ensures
            match Self::parse(flags, bytes_contents(*old(src))) {
                Ok((v, rest)) => r is Ok && r->Ok_0@ == v && bytes_contents(*final(src)) == rest,
                Err(e) => r == Err::<Self, DecodeError>(e),
            },
    ;

    /// Whatever reads as a payload can be written so that it reads back.
    proof fn lemma_parsed_is_encodable(flags: u8, s: Seq<u8>)
        requires
            Self::parse(flags, s) is Ok,
        ensures
            Self::encodable(Self::parse(flags, s)->Ok_0.0),
    ;

    /// Reading back a written payload under its own flags gives the value
    /// and leaves what followed.
    proof fn lemma_round_trip(v: Self::V, tail: Seq<u8>)
        requires
            Self::encodable(v),
        ensures
            Self::flags_of(v) <= FLAGS_MASK,
            Self::parse(Self::flags_of(v), Self::payload_of(v) + tail) == Ok::<
                (Self::V, Seq<u8>),
                DecodeError,
            >((v, tail)),
    ;
}

/// The frame of a payload: the fixed header with the command, the flags and
/// the payload's length, then the payload. A length too large for `u32` is
/// cut to its low 32 bits.
pub open spec fn frame(command: Command, flags: u8, payload: Seq<u8>) -> Seq<u8> {
    (FixedHeader { command, flags, remaining_length: payload.len() as u32 }).wire() + payload
}

/// The complete frame of a command value.
pub open spec fn frame_of<C: CommandCodec>(v: C::V) -> Seq<u8> {
    frame(C::spec_command(), C::flags_of(v), C::payload_of(v))
}

/// Serializes one command value into a complete frame.
pub fn wire_frame<C: CommandCodec>(command: &C) -> (r: Bytes)
    requires
        has_room(0, frame_of::<C>(command@).len()),
    ensures
        bytes_contents(r) == frame_of::<C>(command@),
{
    let mut payload = BytesMut::new();
    command.encode(&mut payload);
    let mut wire = BytesMut::new();
    let header = FixedHeader::new(
        C::command(),
        command.flags(),
        #[verifier::truncate]
        (payload.len() as u32),
    );
    header.encode(&mut wire);
    put_slice(&mut wire, bytes_mut_as_slice(&payload));
    wire.freeze()
}

/// Reading a frame back in two steps undoes framing: the fixed header gives
/// the command, the flags and the length of the payload, and the payload
/// then reads back as the value, with what followed the frame left over. The
/// payload must have at most `VARINT_MAX` bytes.
pub proof fn lemma_frame_round_trip<C: CommandCodec>(v: C::V, tail: Seq<u8>)
    requires
        C::encodable(v),
        C::payload_of(v).len() <= VARINT_MAX,
    ensures
        parse_fixed_header(frame_of::<C>(v) + tail) == Ok::<(FixedHeader, Seq<u8>), DecodeError>(
            (
                FixedHeader {
                    command: C::spec_command(),
                    flags: C::flags_of(v),
                    remaining_length: C::payload_of(v).len() as u32,
                },
                C::payload_of(v) + tail,
            ),
        ),
        C::parse(C::flags_of(v), C::payload_of(v) + tail) == Ok::<(C::V, Seq<u8>), DecodeError>(
            (v, tail),
        ),
{
    let payload = C::payload_of(v);
    let header = FixedHeader {
        command: C::spec_command(),
        flags: C::flags_of(v),
        remaining_length: payload.len() as u32,
    };
    C::lemma_round_trip(v, tail);
    header.lemma_round_trip(payload + tail);
    lemma_concat_assoc(header.wire(), payload, tail);
}

/// What was read as a payload, written again under its own flags, reads
/// back as the same value.
pub proof fn lemma_reread<C: CommandCodec>(flags: u8, s: Seq<u8>, tail: Seq<u8>)
    requires
        C::parse(flags, s) is Ok,
    ensures
        C::parse(
            C::flags_of(C::parse(flags, s)->Ok_0.0),
            C::payload_of(C::parse(flags, s)->Ok_0.0) + tail,
        ) == Ok::<(C::V, Seq<u8>), DecodeError>((C::parse(flags, s)->Ok_0.0, tail)),
{
    C::lemma_parsed_is_encodable(flags, s);
    C::lemma_round_trip(C::parse(flags, s)->Ok_0.0, tail);
}

} // verus!
