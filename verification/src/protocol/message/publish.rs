use vstd::prelude::*;
use bytes::{Bytes, BytesMut};
use crate::buf::{
    bytes_as_slice, bytes_contents, bytes_mut_as_slice, bytes_mut_contents, copy_to_bytes,
    put_slice,
};
use crate::common::wire::{
    has_room, lemma_concat_assoc, lemma_length_prefixed_u16_parsed,
    lemma_length_prefixed_u16_round_trip, lemma_varint_parsed, lemma_varint_round_trip,
    length_prefixed_u16, parse_length_prefixed_u16, parse_varint, varint, VARINT_MAX,
};
use crate::protocol::error::{wire_error, DecodeError};
use crate::protocol::wire::{
    headers_fit, headers_wire, lemma_headers_parsed, lemma_headers_round_trip, parse_headers,
    CommandCodec, Headers, WireDecode, WireEncode,
};
use crate::protocol::Command;
use crate::topic::{check_topic, lemma_topic_round_trip, parse_topic, Topic};

verus! {

pub const HAS_REPLY_TO_BIT: u8 = 0x01;

pub const HAS_HEADER_BIT: u8 = 0x02;

/// What the sections that PUB and MSG share hold: the topic to reply to and
/// the headers, each optional, and the payload.
pub struct SectionsView {
    pub reply_to: Option<Seq<u8>>,
    pub header: Option<Seq<(Seq<u8>, Seq<u8>)>>,
    pub payload: Seq<u8>,
}

/// The raw bytes of an optional topic.
pub open spec fn topic_view(topic: Option<Topic>) -> Option<Seq<u8>> {
    match topic {
        Some(topic) => Some(topic@),
        None => None,
    }
}

/// The entries of an optional headers block.
pub open spec fn header_view(header: Option<Headers>) -> Option<Seq<(Seq<u8>, Seq<u8>)>> {
    match header {
        Some(header) => Some(header@),
        None => None,
    }
}

/// The flags of the shared sections: bit 0 is set when a topic to reply to
/// is there, bit 1 when headers are.
pub open spec fn sections_flags(v: SectionsView) -> u8 {
    ((if v.reply_to is Some { 1int } else { 0int }) + (if v.header is Some { 2int } else { 0int }))
        as u8
}

/// The topic to reply to on the wire, or nothing.
pub open spec fn reply_to_wire(reply_to: Option<Seq<u8>>) -> Seq<u8> {
    match reply_to {
        Some(topic) => length_prefixed_u16(topic),
        None => Seq::empty(),
    }
}

/// The headers on the wire: the block behind a two-byte length, or nothing.
pub open spec fn header_wire(header: Option<Seq<(Seq<u8>, Seq<u8>)>>) -> Seq<u8> {
    match header {
        Some(entries) => length_prefixed_u16(headers_wire(entries)),
        None => Seq::empty(),
    }
}

/// The payload on the wire: its length as a variable-length integer, then
/// its bytes.
pub open spec fn payload_wire(payload: Seq<u8>) -> Seq<u8> {
    varint(payload.len() as u32) + payload
}

/// The shared sections on the wire, in their order: topic to reply to,
/// headers, payload.
pub open spec fn sections_wire(v: SectionsView) -> Seq<u8> {
    reply_to_wire(v.reply_to) + header_wire(v.header) + payload_wire(v.payload)
}

/// What reading the topic to reply to from `s` gives, under `flags`.
#[verifier::opaque]
pub open spec fn parse_reply_to(flags: u8, s: Seq<u8>) -> Result<
    (Option<Seq<u8>>, Seq<u8>),
    DecodeError,
> {
    if flags % 2 == 1 {
        match parse_topic(s) {
            Err(e) => Err(DecodeError::InvalidTopic(e)),
            Ok((topic, rest)) => Ok((Some(topic), rest)),
        }
    } else {
        Ok((None, s))
    }
}

/// What reading the headers from `s` gives, under `flags`. The block is cut
/// out by its length first and then read to its end.
#[verifier::opaque]
pub open spec fn parse_header(flags: u8, s: Seq<u8>) -> Result<
    (Option<Seq<(Seq<u8>, Seq<u8>)>>, Seq<u8>),
    DecodeError,
> {
    if flags / 2 % 2 == 1 {
        match parse_length_prefixed_u16(s) {
            Err(e) => Err(wire_error(e)),
            Ok((block, rest)) => match parse_headers(block) {
                Err(e) => Err(e),
                Ok(entries) => Ok((Some(entries), rest)),
            },
        }
    } else {
        Ok((None, s))
    }
}

/// What reading a payload from `s` gives.
#[verifier::opaque]
pub open spec fn parse_payload(s: Seq<u8>) -> Result<(Seq<u8>, Seq<u8>), DecodeError> {
    match parse_varint(s) {
        Err(e) => Err(wire_error(e)),
        Ok((length, rest)) => if rest.len() < length {
            Err(
                DecodeError::BufferTooShort {
                    expected: length as usize,
                    actual: rest.len() as usize,
                },
            )
        } else {
            Ok((rest.take(length as int), rest.skip(length as int)))
        },
    }
}

/// What reading the shared sections from `s` gives, under `flags`.
#[verifier::opaque]
pub open spec fn parse_sections(flags: u8, s: Seq<u8>) -> Result<
    (SectionsView, Seq<u8>),
    DecodeError,
> {
    match parse_reply_to(flags, s) {
        Err(e) => Err(e),
        Ok((reply_to, s1)) => match parse_header(flags, s1) {
            Err(e) => Err(e),
            Ok((header, s2)) => match parse_payload(s2) {
                Err(e) => Err(e),
                Ok((payload, rest)) => Ok((SectionsView { reply_to, header, payload }, rest)),
            },
        },
    }
}

/// The shared sections can be written so that they read back.
pub open spec fn sections_encodable(v: SectionsView) -> bool {
    &&& v.reply_to is Some ==> check_topic(v.reply_to->Some_0) is Ok
    &&& v.header is Some ==> headers_fit(v.header->Some_0) && headers_wire(
        v.header->Some_0,
    ).len() <= 65535
    &&& v.payload.len() <= VARINT_MAX
}

pub(crate) proof fn lemma_section_bits(flags: u8)
    ensures
        (flags & 0x01 != 0) <==> flags % 2 == 1,
        (flags & 0x02 != 0) <==> flags / 2 % 2 == 1,
{
    assert((flags & 0x01 != 0) <==> flags % 2 == 1) by (bit_vector);
    assert((flags & 0x02 != 0) <==> flags / 2 % 2 == 1) by (bit_vector);
}

proof fn lemma_section_join(a: u8, b: u8)
    requires
        a == 0 || a == 1,
        b == 0 || b == 2,
    ensures
        a | b == a + b,
{
    assert((a == 0 || a == 1) && (b == 0 || b == 2) ==> a | b == a + b) by (bit_vector);
}

/// Reading back a written topic to reply to gives it and leaves what
/// followed.
pub proof fn lemma_reply_to_round_trip(flags: u8, reply_to: Option<Seq<u8>>, tail: Seq<u8>)
    requires
        reply_to is Some ==> check_topic(reply_to->Some_0) is Ok,
        flags % 2 == 1 <==> reply_to is Some,
    ensures
        parse_reply_to(flags, reply_to_wire(reply_to) + tail) == Ok::<
            (Option<Seq<u8>>, Seq<u8>),
            DecodeError,
        >((reply_to, tail)),
{
    match reply_to {
        Some(topic) => {
            lemma_topic_round_trip(topic, tail);
        },
        None => {
            assert(reply_to_wire(reply_to) + tail == tail);
        },
    }
    reveal(parse_reply_to);
}

/// Reading back written headers gives them and leaves what followed.
pub proof fn lemma_header_round_trip(
    flags: u8,
    header: Option<Seq<(Seq<u8>, Seq<u8>)>>,
    tail: Seq<u8>,
)
    requires
        header is Some ==> headers_fit(header->Some_0) && headers_wire(header->Some_0).len()
            <= 65535,
        flags / 2 % 2 == 1 <==> header is Some,
    ensures
        parse_header(flags, header_wire(header) + tail) == Ok::<
            (Option<Seq<(Seq<u8>, Seq<u8>)>>, Seq<u8>),
            DecodeError,
        >((header, tail)),
{
    match header {
        Some(entries) => {
            lemma_length_prefixed_u16_round_trip(headers_wire(entries), tail);
            lemma_headers_round_trip(entries);
        },
        None => {
            assert(header_wire(header) + tail == tail);
        },
    }
    reveal(parse_header);
}

/// Reading back a written payload gives it and leaves what followed.
pub proof fn lemma_payload_round_trip(payload: Seq<u8>, tail: Seq<u8>)
    requires
        payload.len() <= VARINT_MAX,
    ensures
        parse_payload(payload_wire(payload) + tail) == Ok::<(Seq<u8>, Seq<u8>), DecodeError>(
            (payload, tail),
        ),
{
    reveal(parse_payload);
    let length = payload.len() as u32;
    let rest = payload + tail;
    lemma_concat_assoc(varint(length), payload, tail);
    lemma_varint_round_trip(length, rest);
    assert(rest.take(length as int) == payload);
    assert(rest.skip(length as int) == tail);
}

/// Reading back written sections under their own flags gives the sections
/// and leaves what followed.
pub proof fn lemma_sections_round_trip(v: SectionsView, tail: Seq<u8>)
    requires
        sections_encodable(v),
    ensures
        sections_flags(v) <= 3,
        parse_sections(sections_flags(v), sections_wire(v) + tail) == Ok::<
            (SectionsView, Seq<u8>),
            DecodeError,
        >((v, tail)),
{
    reveal(parse_sections);
    let flags = sections_flags(v);
    let a = reply_to_wire(v.reply_to);
    let b = header_wire(v.header);
    let c = payload_wire(v.payload);
    let s2 = c + tail;
    let s1 = b + s2;
    assert(sections_wire(v) + tail == a + s1) by {
        lemma_concat_assoc(a + b, c, tail);
        lemma_concat_assoc(a, b, s2);
    }
    lemma_reply_to_round_trip(flags, v.reply_to, s1);
    lemma_header_round_trip(flags, v.header, s2);
    lemma_payload_round_trip(v.payload, tail);
}

/// Sections that read at all can be written so that they read back.
pub proof fn lemma_sections_parsed(flags: u8, s: Seq<u8>)
    requires
        parse_sections(flags, s) is Ok,
    ensures
        sections_encodable(parse_sections(flags, s)->Ok_0.0),
{
    reveal(parse_sections);
    reveal(parse_reply_to);
    reveal(parse_header);
    reveal(parse_payload);
    let s1 = parse_reply_to(flags, s)->Ok_0.1;
    let s2 = parse_header(flags, s1)->Ok_0.1;
    if flags / 2 % 2 == 1 {
        let block = parse_length_prefixed_u16(s1)->Ok_0.0;
        lemma_length_prefixed_u16_parsed(s1);
        lemma_headers_parsed(block);
    }
    lemma_varint_parsed(s2);
}

/// The flags of the shared sections.
pub fn flags_of_sections(reply_to: &Option<Topic>, header: &Option<Headers>) -> (r: u8)
    ensures
        r == sections_flags(
            SectionsView {
                reply_to: topic_view(*reply_to),
                header: header_view(*header),
                payload: Seq::empty(),
            },
        ),
        r <= 3,
{
    let mut flags = 0u8;
    if reply_to.is_some() {
        flags = flags | HAS_REPLY_TO_BIT;
        assert(0u8 | 0x01u8 == 1u8) by (bit_vector);
    }
    if header.is_some() {
        proof {
            lemma_section_join(flags, HAS_HEADER_BIT);
        }
        flags = flags | HAS_HEADER_BIT;
    }
    flags
}

/// Writes the shared sections: the topic to reply to and the headers where
/// they are there, then the payload behind its length.
pub fn encode_sections(
    reply_to: &Option<Topic>,
    header: &Option<Headers>,
    payload: &Bytes,
    dst: &mut BytesMut,
)
    requires
        has_room(
            bytes_mut_contents(*old(dst)).len(),
            sections_wire(
                SectionsView {
                    reply_to: topic_view(*reply_to),
                    header: header_view(*header),
                    payload: bytes_contents(*payload),
                },
            ).len(),
        ),
    ensures
        bytes_mut_contents(*final(dst)) == bytes_mut_contents(*old(dst)) + sections_wire(
            SectionsView {
                reply_to: topic_view(*reply_to),
                header: header_view(*header),
                payload: bytes_contents(*payload),
            },
        ),
{
    let ghost start = bytes_mut_contents(*dst);
    let ghost v = SectionsView {
        reply_to: topic_view(*reply_to),
        header: header_view(*header),
        payload: bytes_contents(*payload),
    };
    if let Some(reply_to) = reply_to {
        reply_to.encode_to(dst);
    }
    assert(bytes_mut_contents(*dst) == start + reply_to_wire(v.reply_to));
    if let Some(header) = header {
        let mut header_bytes = BytesMut::new();
        header.encode_to(&mut header_bytes);
        dst.put_length_prefixed_u16(bytes_mut_as_slice(&header_bytes));
    }
    assert(bytes_mut_contents(*dst) == start + reply_to_wire(v.reply_to) + header_wire(v.header));
    dst.put_varint(
        #[verifier::truncate]
        (payload.len() as u32),
    );
    put_slice(dst, bytes_as_slice(payload));
    assert(bytes_mut_contents(*dst) == start + sections_wire(v)) by {
        lemma_concat_assoc(
            start + reply_to_wire(v.reply_to) + header_wire(v.header),
            varint(v.payload.len() as u32),
            v.payload,
        );
        lemma_concat_assoc(
            start + reply_to_wire(v.reply_to),
            header_wire(v.header),
            payload_wire(v.payload),
        );
        lemma_concat_assoc(
            start,
            reply_to_wire(v.reply_to),
            header_wire(v.header) + payload_wire(v.payload),
        );
        lemma_concat_assoc(
            reply_to_wire(v.reply_to),
            header_wire(v.header),
            payload_wire(v.payload),
        );
    }
}

/// Reads the shared sections, those that `flags` announce and the payload.
pub fn decode_sections(flags: u8, src: &mut Bytes) -> (r: Result<
    (Option<Topic>, Option<Headers>, Bytes),
    DecodeError,
>)
    ensures
        match parse_sections(flags, bytes_contents(*old(src))) {
            Ok((v, rest)) => r is Ok && topic_view(r->Ok_0.0) == v.reply_to && header_view(
                r->Ok_0.1,
            ) == v.header && bytes_contents(r->Ok_0.2) == v.payload && bytes_contents(*final(src))
                == rest,
            Err(e) => r == Err::<(Option<Topic>, Option<Headers>, Bytes), DecodeError>(e),
        },
{
    proof {
        lemma_section_bits(flags);
        reveal(parse_sections);
        reveal(parse_reply_to);
        reveal(parse_header);
        reveal(parse_payload);
    }
    let has_reply_to = flags & HAS_REPLY_TO_BIT != 0;
    let has_header = flags & HAS_HEADER_BIT != 0;
    let reply_to = if has_reply_to {
        match Topic::decode(src) {
            Ok(topic) => Some(topic),
            Err(e) => { return Err(DecodeError::from_topic_error(e)); },
        }
    } else {
        None
    };
    let header = if has_header {
        let mut header_bytes = match src.read_length_prefixed_u16() {
            Ok(bytes) => bytes,
            Err(e) => { return Err(e); },
        };
        match Headers::decode_from(&mut header_bytes) {
            Ok(header) => Some(header),
            Err(e) => { return Err(e); },
        }
    } else {
        None
    };
    let payload_size = match src.read_varint() {
        Ok(n) => n as usize,
        Err(e) => { return Err(e); },
    };
    let remaining = src.len();
    if remaining < payload_size {
        return Err(DecodeError::BufferTooShort { expected: payload_size, actual: remaining });
    }
    let payload = copy_to_bytes(src, payload_size);
    Ok((reply_to, header, payload))
}

/// Sent by the client to publish a message to a topic.
pub struct Pub {
    pub topic: Topic,
    pub reply_to: Option<Topic>,
    pub header: Option<Headers>,
    pub payload: Bytes,
}

/// What a [`Pub`] holds; the topics are their raw bytes.
pub struct PubView {
    pub topic: Seq<u8>,
    pub reply_to: Option<Seq<u8>>,
    pub header: Option<Seq<(Seq<u8>, Seq<u8>)>>,
    pub payload: Seq<u8>,
}

impl PubView {
    /// The sections behind the topic.
    pub open spec fn sections(self) -> SectionsView {
        SectionsView { reply_to: self.reply_to, header: self.header, payload: self.payload }
    }
}

impl View for Pub {
    type V = PubView;

    open spec fn view(&self) -> PubView {
        PubView {
            topic: self.topic@,
            reply_to: topic_view(self.reply_to),
            header: header_view(self.header),
            payload: bytes_contents(self.payload),
        }
    }
}

/// What reading the payload of a PUB from `s` under `flags` gives: the value
/// and the bytes left over, or the error.
#[verifier::opaque]
pub open spec fn parse_pub(flags: u8, s: Seq<u8>) -> Result<(PubView, Seq<u8>), DecodeError> {
    match parse_topic(s) {
        Err(e) => Err(DecodeError::InvalidTopic(e)),
        Ok((topic, s1)) => match parse_sections(flags, s1) {
            Err(e) => Err(e),
            Ok((sections, rest)) => Ok(
                (
                    PubView {
                        topic,
                        reply_to: sections.reply_to,
                        header: sections.header,
                        payload: sections.payload,
                    },
                    rest,
                ),
            ),
        },
    }
}

impl CommandCodec for Pub {
    open spec fn spec_command() -> Command {
        Command::PUB
    }

    /// Bit 0 is set when a topic to reply to is there, bit 1 when headers
    /// are.
    open spec fn flags_of(v: PubView) -> u8 {
        sections_flags(v.sections())
    }

    /// The topic, then the shared sections.
    open spec fn payload_of(v: PubView) -> Seq<u8> {
        length_prefixed_u16(v.topic) + sections_wire(v.sections())
    }

    open spec fn parse(flags: u8, s: Seq<u8>) -> Result<(PubView, Seq<u8>), DecodeError> {
        parse_pub(flags, s)
    }

    open spec fn encodable(v: PubView) -> bool {
        check_topic(v.topic) is Ok && sections_encodable(v.sections())
    }

    fn command() -> Command {
        Command::PUB
    }

    fn flags(&self) -> u8 {
        flags_of_sections(&self.reply_to, &self.header)
    }

    fn encode(&self, dst: &mut BytesMut) {
        let ghost start = bytes_mut_contents(*dst);
        self.topic.encode_to(dst);
        encode_sections(&self.reply_to, &self.header, &self.payload, dst);
        assert(bytes_mut_contents(*dst) == start + Self::payload_of(self@)) by {
            lemma_concat_assoc(
                start,
                length_prefixed_u16(self@.topic),
                sections_wire(self@.sections()),
            );
        }
    }

    fn decode(flags: u8, src: &mut Bytes) -> Result<Self, DecodeError> {
        proof {
            reveal(parse_pub);
        }
        let topic = match Topic::decode(src) {
            Ok(topic) => topic,
            Err(e) => { return Err(DecodeError::from_topic_error(e)); },
        };
        let (reply_to, header, payload) = match decode_sections(flags, src) {
            Ok(sections) => sections,
            Err(e) => { return Err(e); },
        };
        Ok(Self { topic, reply_to, header, payload })
    }

    proof fn lemma_parsed_is_encodable(flags: u8, s: Seq<u8>) {
        reveal(parse_pub);
        lemma_sections_parsed(flags, parse_topic(s)->Ok_0.1);
    }

    proof fn lemma_round_trip(v: PubView, tail: Seq<u8>) {
        reveal(parse_pub);
        let s1 = sections_wire(v.sections()) + tail;
        assert(Self::payload_of(v) + tail == length_prefixed_u16(v.topic) + s1) by {
            lemma_concat_assoc(length_prefixed_u16(v.topic), sections_wire(v.sections()), tail);
        }
        lemma_topic_round_trip(v.topic, s1);
        lemma_sections_round_trip(v.sections(), tail);
    }
}

} // verus!
