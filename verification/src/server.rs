//! Stand-in responses of the server, for use until sessions and routing
//! exist: a fixed INFO to greet a client with, and a MSG built from given
//! parts.

use vstd::prelude::*;
use vstd::string::StringSliceAdditionalSpecFns;
use bytes::{Bytes, BytesMut};
use crate::buf::bytes_contents;
use crate::common::wire::{has_room, lemma_varint_len, length_prefixed_u16, WireEncode};
use crate::protocol::error::EncodeError;
use crate::protocol::message::{Info, InfoView, Message, MessageView, Msg, MsgView};
use crate::protocol::wire::CommandCodec;
use crate::protocol::ServerCodec;
use crate::topic::{check_topic, lemma_check_layers_ok, lemma_topic_round_trip, Topic};

verus! {

/// What the stand-in INFO holds.
pub open spec fn fake_info_view() -> InfoView {
    InfoView {
        version: 1,
        max_payload: 1_048_576,
        server_id: "ocypode-fake".spec_bytes(),
        server_name: "ocypode".spec_bytes(),
        auth_required: false,
        headers: true,
    }
}

/// The stand-in INFO is short: its frame has 29 bytes.
pub proof fn lemma_fake_info_frame_len()
    ensures
        MessageView::Info(fake_info_view()).frame().len() == 29,
{
    reveal_strlit("ocypode-fake");
    reveal_strlit("ocypode");
    vstd::string::is_ascii_spec_bytes("ocypode-fake");
    vstd::string::is_ascii_spec_bytes("ocypode");
    assert("ocypode-fake".spec_bytes().len() == 12);
    assert("ocypode".spec_bytes().len() == 7);
    assert(Info::payload_of(fake_info_view()).len() == 27);
    lemma_varint_len(27);
}

/// A stand-in INFO message to send to a client right after it connects.
pub fn fake_info() -> (r: Info)
    ensures
        r@ == fake_info_view(),
{
    Info {
        version: 1,
        max_payload: 1_048_576,
        server_id: Bytes::from_static("ocypode-fake".as_bytes()),
        server_name: Bytes::from_static("ocypode".as_bytes()),
        auth_required: false,
        headers: true,
    }
}

/// The stand-in INFO message as a frame ready to send.
pub fn encoded_fake_info() -> (r: Result<Bytes, EncodeError>)
    ensures
        r is Ok,
        bytes_contents(r->Ok_0) == MessageView::Info(fake_info_view()).frame(),
{
    proof {
        lemma_fake_info_frame_len();
    }
    ServerCodec.encode(&Message::Info(fake_info()))
}

/// Builds a topic from raw bytes that obey the rules of a topic.
fn topic_from_bytes(raw: &[u8]) -> (r: Topic)
    requires
        check_topic(raw@) is Ok,
    ensures
        r@ == raw@,
{
    proof {
        lemma_check_layers_ok(raw@);
        lemma_topic_round_trip(raw@, Seq::empty());
        assert(length_prefixed_u16(raw@) + Seq::<u8>::empty() == length_prefixed_u16(raw@));
    }
    let mut buf = BytesMut::new();
    buf.put_length_prefixed_u16(raw);
    let mut bytes = buf.freeze();
    Topic::decode(&mut bytes).unwrap()
}

/// A stand-in MSG for delivery to a subscriber: the given parts, no topic to
/// reply to and no headers. The topic must obey the rules of a topic.
pub fn fake_msg(topic_bytes: &[u8], subscription_id: Bytes, payload: Bytes) -> (r: Msg)
    requires
        check_topic(topic_bytes@) is Ok,
    ensures
        r@ == (MsgView {
            topic: topic_bytes@,
            subscription_id: bytes_contents(subscription_id),
            reply_to: None,
            header: None,
            payload: bytes_contents(payload),
        }),
{
    Msg {
        topic: topic_from_bytes(topic_bytes),
        subscription_id,
        reply_to: None,
        header: None,
        payload,
    }
}

/// A MSG as a frame ready to send.
pub fn encoded_msg(msg: Msg) -> (r: Result<Bytes, EncodeError>)
    requires
        has_room(0, MessageView::Msg(msg@).frame().len()),
    ensures
        r is Ok,
        bytes_contents(r->Ok_0) == MessageView::Msg(msg@).frame(),
{
    ServerCodec.encode(&Message::Msg(msg))
}

} // verus!
