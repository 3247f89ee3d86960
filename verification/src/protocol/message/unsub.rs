use vstd::prelude::*;
use bytes::{Bytes, BytesMut};
use crate::buf::{bytes_as_slice, bytes_contents};
use crate::common::wire::{
    lemma_length_prefixed_u16_parsed, lemma_length_prefixed_u16_round_trip, length_prefixed_u16,
    parse_length_prefixed_u16,
};
use crate::protocol::error::{wire_error, DecodeError};
use crate::protocol::wire::{CommandCodec, WireDecode, WireEncode};
use crate::protocol::Command;

verus! {

/// Sent by the client to end a subscription.
pub struct Unsub {
    pub subscription_id: Bytes,
}

/// What an [`Unsub`] holds.
pub struct UnsubView {
    pub subscription_id: Seq<u8>,
}

impl View for Unsub {
    type V = UnsubView;

    open spec fn view(&self) -> UnsubView {
        UnsubView { subscription_id: bytes_contents(self.subscription_id) }
    }
}

/// What reading the payload of an UNSUB from `s` under `flags` gives: the value
/// and the bytes left over, or the error.
#[verifier::opaque]
pub open spec fn parse_unsub(flags: u8, s: Seq<u8>) -> Result<(UnsubView, Seq<u8>), DecodeError> {
    match parse_length_prefixed_u16(s) {
        Err(e) => Err(wire_error(e)),
        Ok((subscription_id, rest)) => Ok((UnsubView { subscription_id }, rest)),
    }
}

impl CommandCodec for Unsub {
    open spec fn spec_command() -> Command {
        Command::UNSUB
    }

    open spec fn flags_of(v: UnsubView) -> u8 {
        0
    }

    /// The subscription id behind a two-byte length.
    open spec fn payload_of(v: UnsubView) -> Seq<u8> {
        length_prefixed_u16(v.subscription_id)
    }

    open spec fn parse(flags: u8, s: Seq<u8>) -> Result<(UnsubView, Seq<u8>), DecodeError> {
        parse_unsub(flags, s)
    }

    open spec fn encodable(v: UnsubView) -> bool {
        v.subscription_id.len() <= 65535
    }

    fn command() -> Command {
        Command::UNSUB
    }

    fn flags(&self) -> u8 {
        0
    }

    fn encode(&self, dst: &mut BytesMut) {
        dst.put_length_prefixed_u16(bytes_as_slice(&self.subscription_id));
    }

    fn decode(_flags: u8, src: &mut Bytes) -> Result<Self, DecodeError> {
        proof {
            reveal(parse_unsub);
        }
        let subscription_id = match src.read_length_prefixed_u16() {
            Ok(bytes) => bytes,
            Err(e) => { return Err(e); },
        };
        Ok(Self { subscription_id })
    }

    proof fn lemma_parsed_is_encodable(flags: u8, s: Seq<u8>) {
        reveal(parse_unsub);
        lemma_length_prefixed_u16_parsed(s);
    }

    proof fn lemma_round_trip(v: UnsubView, tail: Seq<u8>) {
        reveal(parse_unsub);
        lemma_length_prefixed_u16_round_trip(v.subscription_id, tail);
    }
}

} // verus!
