use vstd::prelude::*;
use crate::common::error::WireError;
use crate::protocol::Command;
use crate::topic::TopicError;

verus! {

/// Why decoding a frame failed.
#[derive(Debug, Clone, Copy, PartialEq, Eq)]
pub enum DecodeError {
    /// A field needs `expected` bytes and only `actual` remain.
    BufferTooShort { expected: usize, actual: usize },
    /// A variable-length integer goes on past its fourth byte.
    VariableLengthOverflow,
    /// The upper half of the first byte is not the code of any command.
    UnknownCommand(u8),
    /// The command is known, but not one that this side decodes.
    UnsupportedCommand(Command),
    /// The authentication type is neither password nor token.
    UnknownAuthType(u8),
    /// A topic or topic filter broke one of its rules.
    InvalidTopic(TopicError),
}

/// The decode error that stands for a failed read of a field.
pub open spec fn wire_error(error: WireError) -> DecodeError {
    match error {
        WireError::BufferTooShort { expected, actual } => DecodeError::BufferTooShort {
            expected,
            actual,
        },
        WireError::VariableLengthOverflow => DecodeError::VariableLengthOverflow,
    }
}

impl DecodeError {
    /// The decode error that stands for a failed read of a field.
    pub fn from(error: WireError) -> (r: Self)
        ensures
            r == wire_error(error),
    {
        match error {
            WireError::BufferTooShort { expected, actual } => {
                DecodeError::BufferTooShort { expected, actual }
            },
            WireError::VariableLengthOverflow => DecodeError::VariableLengthOverflow,
        }
    }

    /// The decode error that wraps a broken topic rule.
    pub fn from_topic_error(error: TopicError) -> (r: Self)
        ensures
            r == DecodeError::InvalidTopic(error),
    {
        DecodeError::InvalidTopic(error)
    }
}

/// Why encoding a message failed.
#[derive(Debug, Clone, Copy, PartialEq, Eq)]
pub enum EncodeError {
    /// The message does not travel in the direction of this encoder.
    WrongDirection,
}

} // verus!
