//! The two directional dispatchers. Each side encodes only the messages that
//! it may send and decodes only those that it may receive: INFO and MSG
//! travel from server to client, CONNECT, PUB, SUB and UNSUB from client to
//! server.

use vstd::prelude::*;
use bytes::Bytes;
use crate::buf::bytes_contents;
use crate::common::wire::{has_room, VARINT_MAX};
use crate::protocol::error::{DecodeError, EncodeError};
use crate::protocol::header::{parse_fixed_header, FixedHeader};
use crate::protocol::message::{
    Connect, ConnectView, Info, InfoView, Message, MessageView, Msg, MsgView, Pub, PubView, Sub,
    SubView, Unsub, UnsubView,
};
pub use crate::protocol::wire::CommandCodec;
use crate::protocol::wire::{frame_of, lemma_frame_round_trip, wire_frame};
use crate::protocol::Command;

verus! {

impl MessageView {
    /// The message travels from server to client.
    pub open spec fn from_server(self) -> bool {
        self is Info || self is Msg
    }

    /// The message travels from client to server.
    pub open spec fn from_client(self) -> bool {
        self is Connect || self is Pub || self is Sub || self is Unsub
    }

    /// The payload of the message on the wire.
    pub open spec fn payload(self) -> Seq<u8> {
        match self {
            MessageView::Info(v) => Info::payload_of(v),
            MessageView::Connect(v) => Connect::payload_of(v),
            MessageView::Pub(v) => Pub::payload_of(v),
            MessageView::Sub(v) => Sub::payload_of(v),
            MessageView::Unsub(v) => Unsub::payload_of(v),
            MessageView::Msg(v) => Msg::payload_of(v),
        }
    }

    /// The complete frame of the message: fixed header, then payload.
    pub open spec fn frame(self) -> Seq<u8> {
        match self {
            MessageView::Info(v) => frame_of::<Info>(v),
            MessageView::Connect(v) => frame_of::<Connect>(v),
            MessageView::Pub(v) => frame_of::<Pub>(v),
            MessageView::Sub(v) => frame_of::<Sub>(v),
            MessageView::Unsub(v) => frame_of::<Unsub>(v),
            MessageView::Msg(v) => frame_of::<Msg>(v),
        }
    }

    /// The message can be framed so that it reads back: each part can be
    /// written so that it reads back, and the payload as a whole is short
    /// enough for the length in the fixed header.
    pub open spec fn encodable(self) -> bool {
        &&& match self {
            MessageView::Info(v) => Info::encodable(v),
            MessageView::Connect(v) => Connect::encodable(v),
            MessageView::Pub(v) => Pub::encodable(v),
            MessageView::Sub(v) => Sub::encodable(v),
            MessageView::Unsub(v) => Unsub::encodable(v),
            MessageView::Msg(v) => Msg::encodable(v),
        }
        &&& self.payload().len() <= VARINT_MAX
    }
}

/// What the server makes of the bytes `s` of a frame: the message, or the
/// error. Bytes behind the payload are not looked at, and the length in the
/// header is not held against the payload.
pub open spec fn server_parse(s: Seq<u8>) -> Result<MessageView, DecodeError> {
    match parse_fixed_header(s) {
        Err(e) => Err(e),
        Ok((header, rest)) => match header.command {
            Command::CONNECT => match Connect::parse(header.flags, rest) {
                Err(e) => Err(e),
                Ok((v, _)) => Ok(MessageView::Connect(v)),
            },
            Command::PUB => match Pub::parse(header.flags, rest) {
                Err(e) => Err(e),
                Ok((v, _)) => Ok(MessageView::Pub(v)),
            },
            Command::SUB => match Sub::parse(header.flags, rest) {
                Err(e) => Err(e),
                Ok((v, _)) => Ok(MessageView::Sub(v)),
            },
            Command::UNSUB => match Unsub::parse(header.flags, rest) {
                Err(e) => Err(e),
                Ok((v, _)) => Ok(MessageView::Unsub(v)),
            },
            other => Err(DecodeError::UnsupportedCommand(other)),
        },
    }
}

/// What the client makes of the bytes `s` of a frame: the message, or the
/// error.
pub open spec fn client_parse(s: Seq<u8>) -> Result<MessageView, DecodeError> {
    match parse_fixed_header(s) {
        Err(e) => Err(e),
        Ok((header, rest)) => match header.command {
            Command::INFO => match Info::parse(header.flags, rest) {
                Err(e) => Err(e),
                Ok((v, _)) => Ok(MessageView::Info(v)),
            },
            Command::MSG => match Msg::parse(header.flags, rest) {
                Err(e) => Err(e),
                Ok((v, _)) => Ok(MessageView::Msg(v)),
            },
            other => Err(DecodeError::UnsupportedCommand(other)),
        },
    }
}

/// The server's side of the protocol.
pub struct ServerCodec;

impl ServerCodec {
    /// Frames a message from server to client. Any other message is
    /// refused with `WrongDirection`.
    pub fn encode(&self, message: &Message) -> (r: Result<Bytes, EncodeError>)
        requires
            message@.from_server() ==> has_room(0, message@.frame().len()),
        ensures
            message@.from_server() ==> r is Ok && bytes_contents(r->Ok_0) == message@.frame(),
            !message@.from_server() ==> r is Err && r->Err_0 == EncodeError::WrongDirection,
    {
        match message {
            Message::Info(info) => Ok(wire_frame(info)),
            Message::Msg(msg) => Ok(wire_frame(msg)),
            _ => Err(EncodeError::WrongDirection),
        }
    }

    /// Reads a frame from client to server. A frame of any other command is
    /// refused with `UnsupportedCommand`.
    pub fn decode(&self, src: Bytes) -> (r: Result<Message, DecodeError>)
        ensures
            match server_parse(bytes_contents(src)) {
                Ok(v) => r is Ok && r->Ok_0@ == v,
                Err(e) => r is Err && r->Err_0 == e,
            },
    {
        let mut src = src;
        let header = match FixedHeader::decode(&mut src) {
            Ok(header) => header,
            Err(e) => { return Err(e); },
        };
        match header.command {
            Command::CONNECT => {
                match Connect::decode(header.flags, &mut src) {
                    Ok(connect) => Ok(Message::Connect(connect)),
                    Err(e) => Err(e),
                }
            },
            Command::PUB => {
                match Pub::decode(header.flags, &mut src) {
                    Ok(message) => Ok(Message::Pub(message)),
                    Err(e) => Err(e),
                }
            },
            Command::SUB => {
                match Sub::decode(header.flags, &mut src) {
                    Ok(message) => Ok(Message::Sub(message)),
                    Err(e) => Err(e),
                }
            },
            Command::UNSUB => {
                match Unsub::decode(header.flags, &mut src) {
                    Ok(message) => Ok(Message::Unsub(message)),
                    Err(e) => Err(e),
                }
            },
            other => Err(DecodeError::UnsupportedCommand(other)),
        }
    }
}

/// The client's side of the protocol.
pub struct ClientCodec;

impl ClientCodec {
    /// Reads a frame from server to client. A frame of any other command is
    /// refused with `UnsupportedCommand`.
    pub fn decode(&self, src: Bytes) -> (r: Result<Message, DecodeError>)
        ensures
            match client_parse(bytes_contents(src)) {
                Ok(v) => r is Ok && r->Ok_0@ == v,
                Err(e) => r is Err && r->Err_0 == e,
            },
    {
        let mut src = src;
        let header = match FixedHeader::decode(&mut src) {
            Ok(header) => header,
            Err(e) => { return Err(e); },
        };
        match header.command {
            Command::INFO => {
                match Info::decode(header.flags, &mut src) {
                    Ok(info) => Ok(Message::Info(info)),
                    Err(e) => Err(e),
                }
            },
            Command::MSG => {
                match Msg::decode(header.flags, &mut src) {
                    Ok(msg) => Ok(Message::Msg(msg)),
                    Err(e) => Err(e),
                }
            },
            other => Err(DecodeError::UnsupportedCommand(other)),
        }
    }

    /// Frames a message from client to server. Any other message is
    /// refused with `WrongDirection`.
    pub fn encode(&self, message: &Message) -> (r: Result<Bytes, EncodeError>)
        requires
            message@.from_client() ==> has_room(0, message@.frame().len()),
        ensures
            message@.from_client() ==> r is Ok && bytes_contents(r->Ok_0) == message@.frame(),
            !message@.from_client() ==> r is Err && r->Err_0 == EncodeError::WrongDirection,
    {
        match message {
            Message::Connect(connect) => Ok(wire_frame(connect)),
            Message::Pub(message) => Ok(wire_frame(message)),
            Message::Sub(message) => Ok(wire_frame(message)),
            Message::Unsub(message) => Ok(wire_frame(message)),
            _ => Err(EncodeError::WrongDirection),
        }
    }
}

proof fn lemma_connect_frame(v: ConnectView, tail: Seq<u8>)
    requires
        MessageView::Connect(v).encodable(),
    ensures
        server_parse(frame_of::<Connect>(v) + tail) == Ok::<MessageView, DecodeError>(
            MessageView::Connect(v),
        ),
        client_parse(frame_of::<Connect>(v) + tail) is Err,
{
    lemma_frame_round_trip::<Connect>(v, tail);
}

proof fn lemma_pub_frame(v: PubView, tail: Seq<u8>)
    requires
        MessageView::Pub(v).encodable(),
    ensures
        server_parse(frame_of::<Pub>(v) + tail) == Ok::<MessageView, DecodeError>(
            MessageView::Pub(v),
        ),
        client_parse(frame_of::<Pub>(v) + tail) is Err,
{
    lemma_frame_round_trip::<Pub>(v, tail);
}

proof fn lemma_sub_frame(v: SubView, tail: Seq<u8>)
    requires
        MessageView::Sub(v).encodable(),
    ensures
        server_parse(frame_of::<Sub>(v) + tail) == Ok::<MessageView, DecodeError>(
            MessageView::Sub(v),
        ),
        client_parse(frame_of::<Sub>(v) + tail) is Err,
{
    lemma_frame_round_trip::<Sub>(v, tail);
}

proof fn lemma_unsub_frame(v: UnsubView, tail: Seq<u8>)
    requires
        MessageView::Unsub(v).encodable(),
    ensures
        server_parse(frame_of::<Unsub>(v) + tail) == Ok::<MessageView, DecodeError>(
            MessageView::Unsub(v),
        ),
        client_parse(frame_of::<Unsub>(v) + tail) is Err,
{
    lemma_frame_round_trip::<Unsub>(v, tail);
}

proof fn lemma_info_frame(v: InfoView, tail: Seq<u8>)
    requires
        MessageView::Info(v).encodable(),
    ensures
        client_parse(frame_of::<Info>(v) + tail) == Ok::<MessageView, DecodeError>(
            MessageView::Info(v),
        ),
        server_parse(frame_of::<Info>(v) + tail) is Err,
{
    lemma_frame_round_trip::<Info>(v, tail);
}

proof fn lemma_msg_frame(v: MsgView, tail: Seq<u8>)
    requires
        MessageView::Msg(v).encodable(),
    ensures
        client_parse(frame_of::<Msg>(v) + tail) == Ok::<MessageView, DecodeError>(
            MessageView::Msg(v),
        ),
        server_parse(frame_of::<Msg>(v) + tail) is Err,
{
    lemma_frame_round_trip::<Msg>(v, tail);
}

/// What the client frames, the server reads back: the same message, field
/// for field, whatever follows the frame.
pub proof fn lemma_client_to_server_round_trip(m: MessageView, tail: Seq<u8>)
    requires
        m.from_client(),
        m.encodable(),
    ensures
        server_parse(m.frame() + tail) == Ok::<MessageView, DecodeError>(m),
{
    match m {
        MessageView::Connect(v) => lemma_connect_frame(v, tail),
        MessageView::Pub(v) => lemma_pub_frame(v, tail),
        MessageView::Sub(v) => lemma_sub_frame(v, tail),
        MessageView::Unsub(v) => lemma_unsub_frame(v, tail),
        _ => {},
    }
}

/// What the server frames, the client reads back: the same message, field
/// for field, whatever follows the frame.
pub proof fn lemma_server_to_client_round_trip(m: MessageView, tail: Seq<u8>)
    requires
        m.from_server(),
        m.encodable(),
    ensures
        client_parse(m.frame() + tail) == Ok::<MessageView, DecodeError>(m),
{
    match m {
        MessageView::Info(v) => lemma_info_frame(v, tail),
        MessageView::Msg(v) => lemma_msg_frame(v, tail),
        _ => {},
    }
}

/// Neither side reads what it frames: a frame of the server is refused by
/// the server, and a frame of the client by the client.
pub proof fn lemma_own_frames_refused(m: MessageView, tail: Seq<u8>)
    requires
        m.encodable(),
    ensures
        m.from_server() ==> server_parse(m.frame() + tail) is Err,
        m.from_client() ==> client_parse(m.frame() + tail) is Err,
{
    match m {
        MessageView::Info(v) => lemma_info_frame(v, tail),
        MessageView::Connect(v) => lemma_connect_frame(v, tail),
        MessageView::Pub(v) => lemma_pub_frame(v, tail),
        MessageView::Sub(v) => lemma_sub_frame(v, tail),
        MessageView::Unsub(v) => lemma_unsub_frame(v, tail),
        MessageView::Msg(v) => lemma_msg_frame(v, tail),
    }
}

} // verus!
