use vstd::prelude::*;
use crate::common::error::WireError;

verus! {

/// Why a byte string is not a topic, or not a topic filter.
#[derive(Debug, Clone, Copy, PartialEq, Eq)]
pub enum TopicError {
    /// The topic is empty or longer than `MAXIMUM_TOPIC_LENGTH` bytes.
    ExceedsMaxLength { length: usize },
    /// The topic has more than `MAXIMUM_TOPIC_LAYER` layers; `count` is the
    /// number of layers found when the scan stopped.
    ExceedsMaxLayerCount { count: usize },
    /// The first byte is a separator.
    LeadingSlash,
    /// The last byte is a separator.
    TrailingSlash,
    /// Two separators stand side by side.
    EmptyLayer,
    /// A topic to publish to holds `+` or `#`.
    WildcardInPublishTopic,
    /// `#` stands in a layer that is not the last.
    MultiLayerWildcardNotTerminal,
    /// The length-prefixed byte string could not be read.
    Wire(WireError),
}

} // verus!
