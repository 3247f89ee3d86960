use vstd::prelude::*;
use bytes::{Bytes, BytesMut};
use crate::buf::{bytes_as_slice, bytes_contents, bytes_mut_contents};
use crate::common::wire::{
    lemma_concat_assoc, lemma_length_prefixed_u16_parsed, lemma_length_prefixed_u16_round_trip,
    length_prefixed_u16, parse_length_prefixed_u16,
};
use crate::protocol::error::{wire_error, DecodeError};
use crate::protocol::message::publish::{
    decode_sections, encode_sections, flags_of_sections, header_view, lemma_sections_parsed,
    lemma_sections_round_trip, parse_sections, sections_encodable, sections_flags, sections_wire,
    topic_view, SectionsView,
};
use crate::protocol::wire::{CommandCodec, Headers, WireDecode, WireEncode};
use crate::protocol::Command;
use crate::topic::{check_topic, lemma_topic_round_trip, parse_topic, Topic};

verus! {

/// Sent by the server to deliver a published message to a subscriber.
pub struct Msg {
    pub topic: Topic,
    pub subscription_id: Bytes,
    pub reply_to: Option<Topic>,
    pub header: Option<Headers>,
    pub payload: Bytes,
}

/// What a [`Msg`] holds; the topics are their raw bytes.
pub struct MsgView {
    pub topic: Seq<u8>,
    pub subscription_id: Seq<u8>,
    pub reply_to: Option<Seq<u8>>,
    pub header: Option<Seq<(Seq<u8>, Seq<u8>)>>,
    pub payload: Seq<u8>,
}

impl MsgView {
    /// The sections behind the topic and the subscription id.
    pub open spec fn sections(self) -> SectionsView {
        SectionsView { reply_to: self.reply_to, header: self.header, payload: self.payload }
    }
}

impl View for Msg {
    type V = MsgView;

    open spec fn view(&self) -> MsgView {
        MsgView {
            topic: self.topic@,
            subscription_id: bytes_contents(self.subscription_id),
            reply_to: topic_view(self.reply_to),
            header: header_view(self.header),
            payload: bytes_contents(self.payload),
        }
    }
}

/// What reading the payload of a MSG from `s` under `flags` gives: the value
/// and the bytes left over, or the error.
#[verifier::opaque]
pub open spec fn parse_msg(flags: u8, s: Seq<u8>) -> Result<(MsgView, Seq<u8>), DecodeError> {
    match parse_topic(s) {
        Err(e) => Err(DecodeError::InvalidTopic(e)),
        Ok((topic, s1)) => match parse_length_prefixed_u16(s1) {
            Err(e) => Err(wire_error(e)),
            Ok((subscription_id, s2)) => match parse_sections(flags, s2) {
                Err(e) => Err(e),
                Ok((sections, rest)) => Ok(
                    (
                        MsgView {
                            topic,
                            subscription_id,
                            reply_to: sections.reply_to,
                            header: sections.header,
                            payload: sections.payload,
                        },
                        rest,
                    ),
                ),
            },
        },
    }
}

impl CommandCodec for Msg {
    open spec fn spec_command() -> Command {
        Command::MSG
    }

    /// Bit 0 is set when a topic to reply to is there, bit 1 when headers
    /// are.
    open spec fn flags_of(v: MsgView) -> u8 {
        sections_flags(v.sections())
    }

    /// The topic and the subscription id behind two-byte lengths, then the
    /// shared sections.
    open spec fn payload_of(v: MsgView) -> Seq<u8> {
        length_prefixed_u16(v.topic) + length_prefixed_u16(v.subscription_id) + sections_wire(
            v.sections(),
        )
    }

    open spec fn parse(flags: u8, s: Seq<u8>) -> Result<(MsgView, Seq<u8>), DecodeError> {
        parse_msg(flags, s)
    }

    open spec fn encodable(v: MsgView) -> bool {
        &&& check_topic(v.topic) is Ok
        &&& v.subscription_id.len() <= 65535
        &&& sections_encodable(v.sections())
    }

    fn command() -> Command {
        Command::MSG
    }

    fn flags(&self) -> u8 {
        flags_of_sections(&self.reply_to, &self.header)
    }

    fn encode(&self, dst: &mut BytesMut) {
        let ghost start = bytes_mut_contents(*dst);
        self.topic.encode_to(dst);
        dst.put_length_prefixed_u16(bytes_as_slice(&self.subscription_id));
        encode_sections(&self.reply_to, &self.header, &self.payload, dst);
        assert(bytes_mut_contents(*dst) == start + Self::payload_of(self@)) by {
            let a = length_prefixed_u16(self@.topic);
            let b = length_prefixed_u16(self@.subscription_id);
            let c = sections_wire(self@.sections());
            lemma_concat_assoc(start, a, b);
            lemma_concat_assoc(start, a + b, c);
        }
    }

    fn decode(flags: u8, src: &mut Bytes) -> Result<Self, DecodeError> {
        proof {
            reveal(parse_msg);
        }
        let topic = match Topic::decode(src) {
            Ok(topic) => topic,
            Err(e) => { return Err(DecodeError::from_topic_error(e)); },
        };
        let subscription_id = match src.read_length_prefixed_u16() {
            Ok(bytes) => bytes,
            Err(e) => { return Err(e); },
        };
        let (reply_to, header, payload) = match decode_sections(flags, src) {
            Ok(sections) => sections,
            Err(e) => { return Err(e); },
        };
        Ok(Self { topic, subscription_id, reply_to, header, payload })
    }

    proof fn lemma_parsed_is_encodable(flags: u8, s: Seq<u8>) {
        reveal(parse_msg);
        let s1 = parse_topic(s)->Ok_0.1;
        let s2 = parse_length_prefixed_u16(s1)->Ok_0.1;
        lemma_length_prefixed_u16_parsed(s1);
        lemma_sections_parsed(flags, s2);
    }

    proof fn lemma_round_trip(v: MsgView, tail: Seq<u8>) {
        reveal(parse_msg);
        let a = length_prefixed_u16(v.topic);
        let b = length_prefixed_u16(v.subscription_id);
        let s2 = sections_wire(v.sections()) + tail;
        let s1 = b + s2;
        assert(Self::payload_of(v) + tail == a + s1) by {
            lemma_concat_assoc(a + b, sections_wire(v.sections()), tail);
            lemma_concat_assoc(a, b, s2);
        }
        lemma_topic_round_trip(v.topic, s1);
        lemma_length_prefixed_u16_round_trip(v.subscription_id, s2);
        lemma_sections_round_trip(v.sections(), tail);
    }
}

} // verus!
