//! Wire primitives shared by the topic model and the protocol codecs.

pub mod error;
pub mod wire;
