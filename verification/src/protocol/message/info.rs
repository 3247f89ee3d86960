use vstd::prelude::*;
use bytes::{Bytes, BytesMut};
use crate::buf::{bytes_as_slice, bytes_contents, bytes_mut_contents, put_slice, put_u32, put_u8};
use crate::common::wire::{
    lemma_concat_assoc, lemma_length_prefixed_u8_parsed, lemma_length_prefixed_u8_round_trip,
    lemma_u32_round_trip, lemma_u8_round_trip, length_prefixed_u8, parse_length_prefixed_u8,
    parse_u32, parse_u8, wire_u32,
};
use crate::protocol::error::{wire_error, DecodeError};
use crate::protocol::wire::{CommandCodec, WireDecode};
use crate::protocol::Command;

verus! {

pub const AUTH_REQUIRED_BIT: u8 = 0x01;

pub const HEADERS_BIT: u8 = 0x02;

/// Sent by the server as soon as a connection is established.
pub struct Info {
    pub version: u8,
    pub max_payload: u32,
    pub server_id: Bytes,
    pub server_name: Bytes,
    pub auth_required: bool,
    pub headers: bool,
}

/// What an [`Info`] holds.
pub struct InfoView {
    pub version: u8,
    pub max_payload: u32,
    pub server_id: Seq<u8>,
    pub server_name: Seq<u8>,
    pub auth_required: bool,
    pub headers: bool,
}

impl View for Info {
    type V = InfoView;

    open spec fn view(&self) -> InfoView {
        InfoView {
            version: self.version,
            max_payload: self.max_payload,
            server_id: bytes_contents(self.server_id),
            server_name: bytes_contents(self.server_name),
            auth_required: self.auth_required,
            headers: self.headers,
        }
    }
}

/// The capability byte: bit 0 says that authentication is required, bit 1
/// that headers are supported.
pub open spec fn capability_byte(auth_required: bool, headers: bool) -> u8 {
    ((if auth_required { 1int } else { 0int }) + (if headers { 2int } else { 0int })) as u8
}

proof fn lemma_capability_bits(byte: u8)
    ensures
        (byte & 0x01 != 0) <==> byte % 2 == 1,
        (byte & 0x02 != 0) <==> byte / 2 % 2 == 1,
{
    assert((byte & 0x01 != 0) <==> byte % 2 == 1) by (bit_vector);
    assert((byte & 0x02 != 0) <==> byte / 2 % 2 == 1) by (bit_vector);
}

proof fn lemma_capability_join(a: u8, h: u8)
    requires
        a == 0 || a == 1,
        h == 0 || h == 2,
    ensures
        a | h == a + h,
{
    assert((a == 0 || a == 1) && (h == 0 || h == 2) ==> a | h == a + h) by (bit_vector);
}

/// The server's id and name on the wire, each behind a one-byte length.
pub open spec fn identity_wire(server_id: Seq<u8>, server_name: Seq<u8>) -> Seq<u8> {
    length_prefixed_u8(server_id) + length_prefixed_u8(server_name)
}

/// What reading the server's id and name from `s` gives.
#[verifier::opaque]
pub open spec fn parse_identity(s: Seq<u8>) -> Result<((Seq<u8>, Seq<u8>), Seq<u8>), DecodeError> {
    match parse_length_prefixed_u8(s) {
        Err(e) => Err(wire_error(e)),
        Ok((server_id, s1)) => match parse_length_prefixed_u8(s1) {
            Err(e) => Err(wire_error(e)),
            Ok((server_name, rest)) => Ok(((server_id, server_name), rest)),
        },
    }
}

/// What reading the capability byte from `s` gives: whether authentication
/// is required, and whether headers are supported.
#[verifier::opaque]
pub open spec fn parse_capabilities(s: Seq<u8>) -> Result<((bool, bool), Seq<u8>), DecodeError> {
    match parse_u8(s) {
        Err(e) => Err(wire_error(e)),
        Ok((capabilities, rest)) => Ok(((capabilities % 2 == 1, capabilities / 2 % 2 == 1), rest)),
    }
}

/// What reading the payload of an INFO from `s` gives: the value and the
/// bytes left over, or the error. The flags of the header play no part.
#[verifier::opaque]
pub open spec fn parse_info(flags: u8, s: Seq<u8>) -> Result<(InfoView, Seq<u8>), DecodeError> {
    match parse_u8(s) {
        Err(e) => Err(wire_error(e)),
        Ok((version, s1)) => match parse_u32(s1) {
            Err(e) => Err(wire_error(e)),
            Ok((max_payload, s2)) => match parse_identity(s2) {
                Err(e) => Err(e),
                Ok((identity, s3)) => match parse_capabilities(s3) {
                    Err(e) => Err(e),
                    Ok((capabilities, rest)) => Ok(
                        (
                            InfoView {
                                version,
                                max_payload,
                                server_id: identity.0,
                                server_name: identity.1,
                                auth_required: capabilities.0,
                                headers: capabilities.1,
                            },
                            rest,
                        ),
                    ),
                },
            },
        },
    }
}

/// Reading back the written id and name of a server gives both and leaves
/// what followed.
pub proof fn lemma_identity_round_trip(server_id: Seq<u8>, server_name: Seq<u8>, tail: Seq<u8>)
    requires
        server_id.len() <= 255,
        server_name.len() <= 255,
    ensures
        parse_identity(identity_wire(server_id, server_name) + tail) == Ok::<
            ((Seq<u8>, Seq<u8>), Seq<u8>),
            DecodeError,
        >(((server_id, server_name), tail)),
{
    reveal(parse_identity);
    let s1 = length_prefixed_u8(server_name) + tail;
    lemma_concat_assoc(length_prefixed_u8(server_id), length_prefixed_u8(server_name), tail);
    lemma_length_prefixed_u8_round_trip(server_id, s1);
    lemma_length_prefixed_u8_round_trip(server_name, tail);
}

/// Reading back a written capability byte gives the two capabilities and
/// leaves what followed.
pub proof fn lemma_capabilities_round_trip(auth_required: bool, headers: bool, tail: Seq<u8>)
    ensures
        parse_capabilities(seq![capability_byte(auth_required, headers)] + tail) == Ok::<
            ((bool, bool), Seq<u8>),
            DecodeError,
        >(((auth_required, headers), tail)),
{
    reveal(parse_capabilities);
    lemma_u8_round_trip(capability_byte(auth_required, headers), tail);
}

impl CommandCodec for Info {
    open spec fn spec_command() -> Command {
        Command::INFO
    }

    open spec fn flags_of(v: InfoView) -> u8 {
        0
    }

    /// The version, the largest payload as a big-endian `u32`, the server's
    /// id and name behind one-byte lengths, and the capability byte.
    open spec fn payload_of(v: InfoView) -> Seq<u8> {
        seq![v.version] + wire_u32(v.max_payload) + identity_wire(v.server_id, v.server_name)
            + seq![capability_byte(v.auth_required, v.headers)]
    }

    open spec fn parse(flags: u8, s: Seq<u8>) -> Result<(InfoView, Seq<u8>), DecodeError> {
        parse_info(flags, s)
    }

    open spec fn encodable(v: InfoView) -> bool {
        v.server_id.len() <= 255 && v.server_name.len() <= 255
    }

    fn command() -> Command {
        Command::INFO
    }

    fn flags(&self) -> u8 {
        0
    }

    fn encode(&self, dst: &mut BytesMut) {
        let ghost start = bytes_mut_contents(*dst);
        let ghost v = self@;
        put_u8(dst, self.version);
        put_u32(dst, self.max_payload);
        let ghost fixed = seq![v.version] + wire_u32(v.max_payload);
        assert(bytes_mut_contents(*dst) == start + fixed);
        put_u8(dst, (self.server_id.len() % 256) as u8);
        put_slice(dst, bytes_as_slice(&self.server_id));
        put_u8(dst, (self.server_name.len() % 256) as u8);
        put_slice(dst, bytes_as_slice(&self.server_name));
        let ghost identity = identity_wire(v.server_id, v.server_name);
        assert(bytes_mut_contents(*dst) == start + fixed + identity);
        let auth_bit: u8 = if self.auth_required { AUTH_REQUIRED_BIT } else { 0 };
        let headers_bit: u8 = if self.headers { HEADERS_BIT } else { 0 };
        proof {
            lemma_capability_join(auth_bit, headers_bit);
        }
        let capability_flags = auth_bit | headers_bit;
        put_u8(dst, capability_flags);
        assert(bytes_mut_contents(*dst) == start + Self::payload_of(v)) by {
            let last = seq![capability_flags];
            assert(bytes_mut_contents(*dst) == start + fixed + identity + last);
            lemma_concat_assoc(start, fixed, identity);
            lemma_concat_assoc(start, fixed + identity, last);
        }
    }

    fn decode(_flags: u8, src: &mut Bytes) -> Result<Self, DecodeError> {
        proof {
            reveal(parse_info);
            reveal(parse_identity);
            reveal(parse_capabilities);
        }
        let version = match src.read_u8() {
            Ok(v) => v,
            Err(e) => { return Err(e); },
        };
        let max_payload = match src.read_u32() {
            Ok(v) => v,
            Err(e) => { return Err(e); },
        };
        let server_id = match src.read_length_prefixed_u8() {
            Ok(v) => v,
            Err(e) => { return Err(e); },
        };
        let server_name = match src.read_length_prefixed_u8() {
            Ok(v) => v,
            Err(e) => { return Err(e); },
        };
        let capability_flags = match src.read_u8() {
            Ok(v) => v,
            Err(e) => { return Err(e); },
        };
        proof {
            lemma_capability_bits(capability_flags);
        }
        Ok(
            Self {
                version,
                max_payload,
                server_id,
                server_name,
                auth_required: capability_flags & AUTH_REQUIRED_BIT != 0,
                headers: capability_flags & HEADERS_BIT != 0,
            },
        )
    }

    proof fn lemma_parsed_is_encodable(flags: u8, s: Seq<u8>) {
        reveal(parse_info);
        reveal(parse_identity);
        let s1 = parse_u8(s)->Ok_0.1;
        let s2 = parse_u32(s1)->Ok_0.1;
        let s3 = parse_length_prefixed_u8(s2)->Ok_0.1;
        lemma_length_prefixed_u8_parsed(s2);
        lemma_length_prefixed_u8_parsed(s3);
    }

    proof fn lemma_round_trip(v: InfoView, tail: Seq<u8>) {
        reveal(parse_info);
        let a = seq![v.version];
        let b = wire_u32(v.max_payload);
        let c = identity_wire(v.server_id, v.server_name);
        let d = seq![capability_byte(v.auth_required, v.headers)];
        let s3 = d + tail;
        let s2 = c + s3;
        let s1 = b + s2;
        assert(Self::payload_of(v) + tail == a + s1) by {
            lemma_concat_assoc(a + b + c, d, tail);
            lemma_concat_assoc(a + b, c, s3);
            lemma_concat_assoc(a, b, s2);
        }
        lemma_u8_round_trip(v.version, s1);
        lemma_u32_round_trip(v.max_payload, s2);
        lemma_identity_round_trip(v.server_id, v.server_name, s3);
        lemma_capabilities_round_trip(v.auth_required, v.headers, tail);
    }
}

} // verus!
