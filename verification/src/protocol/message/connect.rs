use vstd::prelude::*;
use bytes::{Bytes, BytesMut};
use crate::buf::{
    bytes_as_slice, bytes_contents, bytes_mut_as_slice, bytes_mut_contents, copy_to_bytes,
    put_slice, put_u8,
};
use crate::common::wire::{
    lemma_concat_assoc, lemma_length_prefixed_u16_parsed, lemma_length_prefixed_u16_round_trip,
    lemma_length_prefixed_u8_parsed, lemma_length_prefixed_u8_round_trip, lemma_u8_round_trip,
    lemma_varint_len, lemma_varint_round_trip, length_prefixed_u16, length_prefixed_u8,
    parse_length_prefixed_u16, parse_length_prefixed_u8, parse_u8, parse_varint, varint,
};
use crate::protocol::error::{wire_error, DecodeError};
use crate::protocol::wire::{CommandCodec, WireDecode, WireEncode};
use crate::protocol::Command;

verus! {

pub const VERBOSE_BIT: u8 = 0x01;

pub const HAS_AUTH_BIT: u8 = 0x02;

pub const AUTH_TYPE_PASSWORD: u8 = 1;

pub const AUTH_TYPE_JWT: u8 = 2;

/// The credentials that a [`Connect`] carries. They are carried, not checked.
pub enum Auth {
    Password { username: Bytes, password: Bytes },
    Jwt { token: Bytes },
}

/// What an [`Auth`] holds.
pub enum AuthView {
    Password { username: Seq<u8>, password: Seq<u8> },
    Jwt { token: Seq<u8> },
}

impl View for Auth {
    type V = AuthView;

    open spec fn view(&self) -> AuthView {
        match *self {
            Auth::Password { username, password } => AuthView::Password {
                username: bytes_contents(username),
                password: bytes_contents(password),
            },
            Auth::Jwt { token } => AuthView::Jwt { token: bytes_contents(token) },
        }
    }
}

/// Sent by the client, after it has received INFO, to establish a session.
pub struct Connect {
    pub version: u8,
    /// When set, the server acknowledges every message it receives.
    pub verbose: bool,
    pub auth: Option<Auth>,
}

/// What a [`Connect`] holds.
pub struct ConnectView {
    pub version: u8,
    pub verbose: bool,
    pub auth: Option<AuthView>,
}

impl View for Connect {
    type V = ConnectView;

    open spec fn view(&self) -> ConnectView {
        ConnectView {
            version: self.version,
            verbose: self.verbose,
            auth: match self.auth {
                Some(auth) => Some(auth@),
                None => None,
            },
        }
    }
}

/// The type byte that announces the kind of credentials.
pub open spec fn auth_type(auth: AuthView) -> u8 {
    match auth {
        AuthView::Password { .. } => AUTH_TYPE_PASSWORD,
        AuthView::Jwt { .. } => AUTH_TYPE_JWT,
    }
}

/// The credentials on the wire: user name and password behind one-byte
/// lengths, or the token behind a two-byte length.
pub open spec fn auth_payload(auth: AuthView) -> Seq<u8> {
    match auth {
        AuthView::Password { username, password } => length_prefixed_u8(username)
            + length_prefixed_u8(password),
        AuthView::Jwt { token } => length_prefixed_u16(token),
    }
}

/// The authentication section: the type byte, the length of the credentials
/// as a variable-length integer, then the credentials.
pub open spec fn auth_section(auth: AuthView) -> Seq<u8> {
    seq![auth_type(auth)] + varint(auth_payload(auth).len() as u32) + auth_payload(auth)
}

/// What the bytes `s` of the credentials hold, for the type byte `kind`.
/// Bytes behind the credentials are not looked at.
#[verifier::opaque]
pub open spec fn parse_auth_payload(kind: u8, s: Seq<u8>) -> Result<AuthView, DecodeError> {
    if kind == AUTH_TYPE_PASSWORD {
        match parse_length_prefixed_u8(s) {
            Err(e) => Err(wire_error(e)),
            Ok((username, s1)) => match parse_length_prefixed_u8(s1) {
                Err(e) => Err(wire_error(e)),
                Ok((password, _)) => Ok(AuthView::Password { username, password }),
            },
        }
    } else if kind == AUTH_TYPE_JWT {
        match parse_length_prefixed_u16(s) {
            Err(e) => Err(wire_error(e)),
            Ok((token, _)) => Ok(AuthView::Jwt { token }),
        }
    } else {
        Err(DecodeError::UnknownAuthType(kind))
    }
}

/// What reading an authentication section from `s` gives. The length is
/// checked against what remains before the type byte is looked at.
#[verifier::opaque]
pub open spec fn parse_auth_section(s: Seq<u8>) -> Result<(AuthView, Seq<u8>), DecodeError> {
    match parse_u8(s) {
        Err(e) => Err(wire_error(e)),
        Ok((kind, s1)) => match parse_varint(s1) {
            Err(e) => Err(wire_error(e)),
            Ok((length, s2)) => if s2.len() < length {
                Err(
                    DecodeError::BufferTooShort {
                        expected: length as usize,
                        actual: s2.len() as usize,
                    },
                )
            } else {
                match parse_auth_payload(kind, s2.take(length as int)) {
                    Err(e) => Err(e),
                    Ok(auth) => Ok((auth, s2.skip(length as int))),
                }
            },
        },
    }
}

/// The credentials fit their length fields.
pub open spec fn auth_fits(auth: AuthView) -> bool {
    match auth {
        AuthView::Password { username, password } => username.len() <= 255 && password.len()
            <= 255,
        AuthView::Jwt { token } => token.len() <= 65535,
    }
}

proof fn lemma_connect_bits(flags: u8)
    ensures
        (flags & 0x01 != 0) <==> flags % 2 == 1,
        (flags & 0x02 != 0) <==> flags / 2 % 2 == 1,
{
    assert((flags & 0x01 != 0) <==> flags % 2 == 1) by (bit_vector);
    assert((flags & 0x02 != 0) <==> flags / 2 % 2 == 1) by (bit_vector);
}

proof fn lemma_connect_join(a: u8, b: u8)
    requires
        a == 0 || a == 1,
        b == 0 || b == 2,
    ensures
        a | b == a + b,
{
    assert((a == 0 || a == 1) && (b == 0 || b == 2) ==> a | b == a + b) by (bit_vector);
}

/// Reading back a written authentication section gives the credentials and
/// leaves what followed.
pub proof fn lemma_auth_round_trip(auth: AuthView, tail: Seq<u8>)
    requires
        auth_fits(auth),
    ensures
        parse_auth_section(auth_section(auth) + tail) == Ok::<(AuthView, Seq<u8>), DecodeError>(
            (auth, tail),
        ),
{
    reveal(parse_auth_section);
    reveal(parse_auth_payload);
    let kind = auth_type(auth);
    let body = auth_payload(auth);
    let length = body.len() as u32;
    let s2 = body + tail;
    let s1 = varint(length) + s2;
    assert(auth_section(auth) + tail == seq![kind] + s1) by {
        lemma_concat_assoc(seq![kind] + varint(length), body, tail);
        lemma_concat_assoc(seq![kind], varint(length), s2);
    }
    lemma_u8_round_trip(kind, s1);
    lemma_varint_round_trip(length, s2);
    assert(s2.take(length as int) == body);
    assert(s2.skip(length as int) == tail);
    match auth {
        AuthView::Password { username, password } => {
            lemma_length_prefixed_u8_round_trip(username, length_prefixed_u8(password));
            lemma_length_prefixed_u8_round_trip(password, Seq::empty());
            assert(length_prefixed_u8(password) + Seq::<u8>::empty() == length_prefixed_u8(
                password,
            ));
        },
        AuthView::Jwt { token } => {
            lemma_length_prefixed_u16_round_trip(token, Seq::empty());
            assert(body + Seq::<u8>::empty() == body);
        },
    }
}

/// What reading the payload of a CONNECT from `s` under `flags` gives: the value
/// and the bytes left over, or the error.
#[verifier::opaque]
pub open spec fn parse_connect(flags: u8, s: Seq<u8>) -> Result<
    (ConnectView, Seq<u8>),
    DecodeError,
> {
    match parse_u8(s) {
        Err(e) => Err(wire_error(e)),
        Ok((version, s1)) => if flags / 2 % 2 == 1 {
            match parse_auth_section(s1) {
                Err(e) => Err(e),
                Ok((auth, rest)) => Ok(
                    (ConnectView { version, verbose: flags % 2 == 1, auth: Some(auth) }, rest),
                ),
            }
        } else {
            Ok((ConnectView { version, verbose: flags % 2 == 1, auth: None }, s1))
        },
    }
}

impl CommandCodec for Connect {
    open spec fn spec_command() -> Command {
        Command::CONNECT
    }

    /// Bit 0 is the verbose mode, bit 1 is set when credentials follow.
    open spec fn flags_of(v: ConnectView) -> u8 {
        ((if v.verbose { 1int } else { 0int }) + (if v.auth is Some { 2int } else { 0int })) as u8
    }

    /// The version, then the authentication section, if there is one.
    open spec fn payload_of(v: ConnectView) -> Seq<u8> {
        seq![v.version] + (match v.auth {
            Some(auth) => auth_section(auth),
            None => Seq::empty(),
        })
    }

    open spec fn parse(flags: u8, s: Seq<u8>) -> Result<(ConnectView, Seq<u8>), DecodeError> {
        parse_connect(flags, s)
    }

    open spec fn encodable(v: ConnectView) -> bool {
        v.auth is Some ==> auth_fits(v.auth->Some_0)
    }

    fn command() -> Command {
        Command::CONNECT
    }

    fn flags(&self) -> u8 {
        let mut flags = 0u8;
        if self.verbose {
            flags = flags | VERBOSE_BIT;
            assert(0u8 | 0x01u8 == 1u8) by (bit_vector);
        }
        if self.auth.is_some() {
            proof {
                lemma_connect_join(flags, HAS_AUTH_BIT);
            }
            flags = flags | HAS_AUTH_BIT;
        }
        flags
    }

    fn encode(&self, dst: &mut BytesMut) {
        let ghost start = bytes_mut_contents(*dst);
        put_u8(dst, self.version);
        if let Some(auth) = &self.auth {
            let ghost section = auth_section(auth@);
            let ghost body = auth_payload(auth@);
            proof {
                lemma_varint_len(body.len() as u32);
            }
            let mut auth_payload = BytesMut::new();
            match auth {
                Auth::Password { username, password } => {
                    put_u8(dst, AUTH_TYPE_PASSWORD);
                    auth_payload.put_length_prefixed_u8(bytes_as_slice(username));
                    auth_payload.put_length_prefixed_u8(bytes_as_slice(password));
                },
                Auth::Jwt { token } => {
                    put_u8(dst, AUTH_TYPE_JWT);
                    auth_payload.put_length_prefixed_u16(bytes_as_slice(token));
                },
            }
            assert(bytes_mut_contents(auth_payload) == body);
            dst.put_varint(
                #[verifier::truncate]
                (auth_payload.len() as u32),
            );
            put_slice(dst, bytes_mut_as_slice(&auth_payload));
            assert(bytes_mut_contents(*dst) == start + (seq![self.version] + section));
        } else {
            assert(bytes_mut_contents(*dst) == start + (seq![self.version] + Seq::<u8>::empty()));
        }
    }

    fn decode(flags: u8, src: &mut Bytes) -> Result<Self, DecodeError> {
        proof {
            reveal(parse_connect);
            reveal(parse_auth_section);
            reveal(parse_auth_payload);
        }
        proof {
            lemma_connect_bits(flags);
        }
        let verbose = flags & VERBOSE_BIT != 0;
        let has_auth = flags & HAS_AUTH_BIT != 0;
        let version = match src.read_u8() {
            Ok(v) => v,
            Err(e) => { return Err(e); },
        };
        let auth = if has_auth {
            let auth_type = match src.read_u8() {
                Ok(v) => v,
                Err(e) => { return Err(e); },
            };
            let auth_payload_length = match src.read_varint() {
                Ok(v) => v as usize,
                Err(e) => { return Err(e); },
            };
            let remaining = src.len();
            if remaining < auth_payload_length {
                return Err(
                    DecodeError::BufferTooShort {
                        expected: auth_payload_length,
                        actual: remaining,
                    },
                );
            }
            let mut auth_payload = copy_to_bytes(src, auth_payload_length);
            if auth_type == AUTH_TYPE_PASSWORD {
                let username = match auth_payload.read_length_prefixed_u8() {
                    Ok(v) => v,
                    Err(e) => { return Err(e); },
                };
                let password = match auth_payload.read_length_prefixed_u8() {
                    Ok(v) => v,
                    Err(e) => { return Err(e); },
                };
                Some(Auth::Password { username, password })
            } else if auth_type == AUTH_TYPE_JWT {
                let token = match auth_payload.read_length_prefixed_u16() {
                    Ok(v) => v,
                    Err(e) => { return Err(e); },
                };
                Some(Auth::Jwt { token })
            } else {
                return Err(DecodeError::UnknownAuthType(auth_type));
            }
        } else {
            None
        };
        Ok(Self { version, verbose, auth })
    }

    proof fn lemma_parsed_is_encodable(flags: u8, s: Seq<u8>) {
        reveal(parse_connect);
        reveal(parse_auth_section);
        reveal(parse_auth_payload);
        if flags / 2 % 2 == 1 {
            let s1 = parse_u8(s)->Ok_0.1;
            let kind = parse_u8(s1)->Ok_0.0;
            let s2 = parse_u8(s1)->Ok_0.1;
            let length = parse_varint(s2)->Ok_0.0;
            let body = parse_varint(s2)->Ok_0.1.take(length as int);
            if kind == AUTH_TYPE_PASSWORD {
                lemma_length_prefixed_u8_parsed(body);
                lemma_length_prefixed_u8_parsed(parse_length_prefixed_u8(body)->Ok_0.1);
            } else {
                lemma_length_prefixed_u16_parsed(body);
            }
        }
    }

    proof fn lemma_round_trip(v: ConnectView, tail: Seq<u8>) {
        reveal(parse_connect);
        let section = match v.auth {
            Some(auth) => auth_section(auth),
            None => Seq::empty(),
        };
        let s1 = section + tail;
        assert(Self::payload_of(v) + tail == seq![v.version] + s1) by {
            lemma_concat_assoc(seq![v.version], section, tail);
        }
        lemma_u8_round_trip(v.version, s1);
        match v.auth {
            Some(auth) => {
                lemma_auth_round_trip(auth, tail);
            },
            None => {
                assert(s1 == tail);
            },
        }
    }
}

} // verus!
