//! The wire protocol shared by client and server: the fixed header, the
//! codec of each command, and the two directional dispatchers.

pub mod codec;
pub mod error;
pub mod header;
pub mod message;
pub mod wire;

use vstd::prelude::*;
pub use crate::protocol::codec::{ClientCodec, CommandCodec, ServerCodec};
pub use crate::protocol::error::{DecodeError, EncodeError};
pub use crate::protocol::message::Message;
pub use crate::protocol::wire::{Headers, Payload};

verus! {

/// The commands of the protocol. Each has a fixed code of four bits, which
/// travels in the upper half of the first byte of a frame.
#[derive(Debug, Clone, Copy, PartialEq, Eq)]
pub enum Command {
    /// Sent to the client after a connection is established.
    INFO,
    /// Sent to the server to establish a session.
    CONNECT,
    /// Publishes a message to a topic.
    PUB,
    /// Subscribes to a topic or a topic filter.
    SUB,
    /// Ends a subscription.
    UNSUB,
    /// Delivers a message to a subscriber.
    MSG,
    /// Keep-alive request.
    PING,
    /// Keep-alive response.
    PONG,
    /// Acknowledges a message in verbose mode.
    OK,
    /// Reports a protocol error.
    ERR,
}

/// The command that a code stands for, or `UnknownCommand` with the code.
pub open spec fn command_of(value: u8) -> Result<Command, DecodeError> {
    if value == 0x1 {
        Ok(Command::INFO)
    } else if value == 0x2 {
        Ok(Command::CONNECT)
    } else if value == 0x3 {
        Ok(Command::PUB)
    } else if value == 0x4 {
        Ok(Command::SUB)
    } else if value == 0x5 {
        Ok(Command::UNSUB)
    } else if value == 0x6 {
        Ok(Command::MSG)
    } else if value == 0x7 {
        Ok(Command::PING)
    } else if value == 0x8 {
        Ok(Command::PONG)
    } else if value == 0x9 {
        Ok(Command::OK)
    } else if value == 0xA {
        Ok(Command::ERR)
    } else {
        Err(DecodeError::UnknownCommand(value))
    }
}

impl Command {
    /// The code of the command on the wire.
    pub open spec fn spec_code(self) -> u8 {
        match self {
            Command::INFO => 0x1,
            Command::CONNECT => 0x2,
            Command::PUB => 0x3,
            Command::SUB => 0x4,
            Command::UNSUB => 0x5,
            Command::MSG => 0x6,
            Command::PING => 0x7,
            Command::PONG => 0x8,
            Command::OK => 0x9,
            Command::ERR => 0xA,
        }
    }

    /// The code of the command on the wire.
    pub fn code(self) -> (r: u8)
        ensures
            r == self.spec_code(),
            1 <= r <= 10,
    {
        match self {
            Command::INFO => 0x1,
            Command::CONNECT => 0x2,
            Command::PUB => 0x3,
            Command::SUB => 0x4,
            Command::UNSUB => 0x5,
            Command::MSG => 0x6,
            Command::PING => 0x7,
            Command::PONG => 0x8,
            Command::OK => 0x9,
            Command::ERR => 0xA,
        }
    }

    /// A command's code stands for that command.
    pub proof fn lemma_code_round_trip(self)
        ensures
            command_of(self.spec_code()) == Ok::<Command, DecodeError>(self),
    {
    }
}

impl TryFrom<u8> for Command {
    type Error = DecodeError;

    fn try_from(value: u8) -> (r: Result<Self, DecodeError>) {
        match value {
            0x1 => Ok(Command::INFO),
            0x2 => Ok(Command::CONNECT),
            0x3 => Ok(Command::PUB),
            0x4 => Ok(Command::SUB),
            0x5 => Ok(Command::UNSUB),
            0x6 => Ok(Command::MSG),
            0x7 => Ok(Command::PING),
            0x8 => Ok(Command::PONG),
            0x9 => Ok(Command::OK),
            0xA => Ok(Command::ERR),
            other => Err(DecodeError::UnknownCommand(other)),
        }
    }
}

impl vstd::std_specs::convert::TryFromSpecImpl<u8> for Command {
    open spec fn obeys_try_from_spec() -> bool {
        true
    }

    open spec fn try_from_spec(value: u8) -> Result<Self, DecodeError> {
        command_of(value)
    }
}

} // verus!
