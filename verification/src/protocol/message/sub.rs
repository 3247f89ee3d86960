use vstd::prelude::*;
use bytes::{Bytes, BytesMut};
use crate::buf::{bytes_as_slice, bytes_contents, bytes_mut_contents};
use crate::common::wire::{
    lemma_concat_assoc, lemma_length_prefixed_u16_parsed, lemma_length_prefixed_u8_parsed,
    lemma_length_prefixed_u16_round_trip, lemma_length_prefixed_u8_round_trip, length_prefixed_u16,
    length_prefixed_u8, parse_length_prefixed_u16, parse_length_prefixed_u8,
};
use crate::protocol::error::{wire_error, DecodeError};
use crate::protocol::wire::{CommandCodec, WireDecode, WireEncode};
use crate::protocol::Command;
use crate::topic::{check_filter, lemma_filter_round_trip, parse_filter, TopicFilter};

verus! {

pub const HAS_QUEUE_GROUP_BIT: u8 = 0x01;

/// Sent by the client to subscribe to a topic or a topic filter.
pub struct Sub {
    pub topic: TopicFilter,
    pub subscription_id: Bytes,
    pub queue_group: Option<Bytes>,
}

/// What a [`Sub`] holds; `topic` is the raw bytes of the filter.
pub struct SubView {
    pub topic: Seq<u8>,
    pub subscription_id: Seq<u8>,
    pub queue_group: Option<Seq<u8>>,
}

impl View for Sub {
    type V = SubView;

    open spec fn view(&self) -> SubView {
        SubView {
            topic: self.topic@,
            subscription_id: bytes_contents(self.subscription_id),
            queue_group: match self.queue_group {
                Some(group) => Some(bytes_contents(group)),
                None => None,
            },
        }
    }
}

proof fn lemma_queue_group_bit(flags: u8)
    ensures
        (flags & 0x01 != 0) <==> flags % 2 == 1,
{
    assert((flags & 0x01 != 0) <==> flags % 2 == 1) by (bit_vector);
}

/// What reading the payload of a SUB from `s` under `flags` gives: the value
/// and the bytes left over, or the error.
#[verifier::opaque]
pub open spec fn parse_sub(flags: u8, s: Seq<u8>) -> Result<(SubView, Seq<u8>), DecodeError> {
    match parse_filter(s) {
        Err(e) => Err(DecodeError::InvalidTopic(e)),
        Ok((topic, s1)) => match parse_length_prefixed_u16(s1) {
            Err(e) => Err(wire_error(e)),
            Ok((subscription_id, s2)) => if flags % 2 == 1 {
                match parse_length_prefixed_u8(s2) {
                    Err(e) => Err(wire_error(e)),
                    Ok((group, rest)) => Ok(
                        (SubView { topic, subscription_id, queue_group: Some(group) }, rest),
                    ),
                }
            } else {
                Ok((SubView { topic, subscription_id, queue_group: None }, s2))
            },
        },
    }
}

impl CommandCodec for Sub {
    open spec fn spec_command() -> Command {
        Command::SUB
    }

    /// Bit 0 is set when a queue group follows.
    open spec fn flags_of(v: SubView) -> u8 {
        if v.queue_group is Some {
            1
        } else {
            0
        }
    }

    /// The filter and the subscription id behind two-byte lengths, then the
    /// queue group, if there is one, behind a one-byte length.
    open spec fn payload_of(v: SubView) -> Seq<u8> {
        length_prefixed_u16(v.topic) + length_prefixed_u16(v.subscription_id) + (
        match v.queue_group {
            Some(group) => length_prefixed_u8(group),
            None => Seq::empty(),
        })
    }

    open spec fn parse(flags: u8, s: Seq<u8>) -> Result<(SubView, Seq<u8>), DecodeError> {
        parse_sub(flags, s)
    }

    open spec fn encodable(v: SubView) -> bool {
        &&& check_filter(v.topic) is Ok
        &&& v.subscription_id.len() <= 65535
        &&& v.queue_group is Some ==> v.queue_group->Some_0.len() <= 255
    }

    fn command() -> Command {
        Command::SUB
    }

    fn flags(&self) -> u8 {
        if self.queue_group.is_some() {
            HAS_QUEUE_GROUP_BIT
        } else {
            0
        }
    }

    fn encode(&self, dst: &mut BytesMut) {
        let ghost start = bytes_mut_contents(*dst);
        self.topic.encode_to(dst);
        dst.put_length_prefixed_u16(bytes_as_slice(&self.subscription_id));
        if let Some(queue_group) = &self.queue_group {
            dst.put_length_prefixed_u8(bytes_as_slice(queue_group));
        }
        assert(bytes_mut_contents(*dst) == start + Self::payload_of(self@));
    }

    fn decode(flags: u8, src: &mut Bytes) -> Result<Self, DecodeError> {
        proof {
            reveal(parse_sub);
        }
        proof {
            lemma_queue_group_bit(flags);
        }
        let has_queue_group = flags & HAS_QUEUE_GROUP_BIT != 0;
        let topic = match TopicFilter::decode(src) {
            Ok(topic) => topic,
            Err(e) => { return Err(DecodeError::from_topic_error(e)); },
        };
        let subscription_id = match src.read_length_prefixed_u16() {
            Ok(bytes) => bytes,
            Err(e) => { return Err(e); },
        };
        let queue_group = if has_queue_group {
            match src.read_length_prefixed_u8() {
                Ok(bytes) => Some(bytes),
                Err(e) => { return Err(e); },
            }
        } else {
            None
        };
        Ok(Self { topic, subscription_id, queue_group })
    }

    proof fn lemma_parsed_is_encodable(flags: u8, s: Seq<u8>) {
        reveal(parse_sub);
        let s1 = parse_filter(s)->Ok_0.1;
        let s2 = parse_length_prefixed_u16(s1)->Ok_0.1;
        lemma_length_prefixed_u16_parsed(s1);
        if flags % 2 == 1 {
            lemma_length_prefixed_u8_parsed(s2);
        }
    }

    proof fn lemma_round_trip(v: SubView, tail: Seq<u8>) {
        reveal(parse_sub);
        let a = length_prefixed_u16(v.topic);
        let b = length_prefixed_u16(v.subscription_id);
        let c = match v.queue_group {
            Some(group) => length_prefixed_u8(group),
            None => Seq::empty(),
        };
        let s2 = c + tail;
        let s1 = b + s2;
        assert(Self::payload_of(v) + tail == a + s1) by {
            lemma_concat_assoc(a + b, c, tail);
            lemma_concat_assoc(a, b, s2);
        }
        lemma_filter_round_trip(v.topic, s1);
        lemma_length_prefixed_u16_round_trip(v.subscription_id, s2);
        match v.queue_group {
            Some(group) => {
                lemma_length_prefixed_u8_round_trip(group, tail);
            },
            None => {
                assert(s2 == tail);
            },
        }
    }
}

} // verus!
