//! Wire protocol of a publish-subscribe messaging service: framing, the
//! per-command codecs, and the topic model with its wildcard rules.

pub mod buf;
pub mod common;
pub mod protocol;
pub mod server;
pub mod topic;
