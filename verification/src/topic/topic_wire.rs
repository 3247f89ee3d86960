//! The representation that topics and topic filters share: the raw bytes
//! together with the separator positions, found in one scan, so that a layer
//! is sliced out without scanning again.

use vstd::prelude::*;
use vstd::slice::slice_subrange;
use bytes::{Bytes, BytesMut};
use crate::buf::{bytes_as_slice, bytes_contents, bytes_mut_contents};
use crate::common::wire::{
    has_room, length_prefixed_u16, parse_length_prefixed_u16, WireDecode, WireEncode,
};
use crate::topic::{
    check_layers, layer, layer_count, lemma_check_layers_ok, lemma_layers_nonempty,
    lemma_scan_error_stays, lemma_separators_upto, scan_check, separators, separators_upto,
    well_layered, TopicError, LAYER_SEPARATOR, MAXIMUM_TOPIC_LAYER, MAXIMUM_TOPIC_LENGTH,
    MAX_SLASH_COUNT,
};

verus! {

/// The raw bytes of a topic with its layer count and separator positions.
pub(crate) struct TopicWire {
    raw: Bytes,
    layer_count: u8,
    /// The place of each separator; only the first `layer_count - 1` entries
    /// mean anything.
    slash_positions: [u8; 7],
}

/// What reading the shared representation from `s` gives: the raw bytes and
/// the bytes left over, or the error.
pub(crate) open spec fn parse_topic_wire(s: Seq<u8>) -> Result<(Seq<u8>, Seq<u8>), TopicError> {
    match parse_length_prefixed_u16(s) {
        Err(e) => Err(TopicError::Wire(e)),
        Ok((raw, rest)) => match check_layers(raw) {
            Err(e) => Err(e),
            Ok(_) => Ok((raw, rest)),
        },
    }
}

impl TopicWire {
    /// The raw bytes.
    pub(crate) closed spec fn view(&self) -> Seq<u8> {
        bytes_contents(self.raw)
    }

    /// The bytes are laid out as layers, and the stored layer count and
    /// separator positions are those of the bytes.
    #[verifier::type_invariant]
    pub(crate) closed spec fn wf(&self) -> bool {
        &&& well_layered(self@)
        &&& self.layer_count == layer_count(self@)
        &&& forall|k: int|
            0 <= k < self.layer_count - 1 ==> #[trigger] self.slash_positions[k] == separators(
                self@,
            )[k]
    }

    /// A well-formed value holds bytes laid out as layers.
    pub(crate) proof fn lemma_wf(&self)
        requires
            self.wf(),
        ensures
            well_layered(self@),
    {
    }

    /// Reads a topic behind a two-byte length and checks its length, its two
    /// ends and its layers. Wildcards are left to the callers.
    pub(crate) fn decode(src: &mut Bytes) -> (r: Result<Self, TopicError>)
        ensures
            match parse_topic_wire(bytes_contents(*old(src))) {
                Ok((raw, rest)) => r is Ok && r->Ok_0@ == raw && r->Ok_0.wf() && bytes_contents(
                    *final(src),
                ) == rest,
                Err(e) => r == Err::<Self, TopicError>(e),
            },
    {
        let raw = match src.read_length_prefixed_u16() {
            Ok(raw) => raw,
            Err(e) => { return Err(TopicError::Wire(e)); },
        };
        let slice = bytes_as_slice(&raw);
        match Self::validate_length(slice) {
            Ok(_) => {},
            Err(e) => { return Err(e); },
        }
        match Self::validate_no_leading_or_trailing_slash(slice) {
            Ok(_) => {},
            Err(e) => { return Err(e); },
        }
        let (slash_positions, layer_count) = match Self::scan_slashes(slice) {
            Ok(found) => found,
            Err(e) => { return Err(e); },
        };
        proof {
            lemma_check_layers_ok(slice@);
        }
        Ok(Self { raw, layer_count, slash_positions })
    }

    fn validate_length(raw: &[u8]) -> (r: Result<(), TopicError>)
        ensures
            r is Ok <==> 1 <= raw@.len() <= MAXIMUM_TOPIC_LENGTH,
            r is Err ==> r == Err::<(), TopicError>(
                TopicError::ExceedsMaxLength { length: raw@.len() as usize },
            ),
    {
        if raw.len() == 0 || raw.len() > MAXIMUM_TOPIC_LENGTH {
            return Err(TopicError::ExceedsMaxLength { length: raw.len() });
        }
        Ok(())
    }

    fn validate_no_leading_or_trailing_slash(raw: &[u8]) -> (r: Result<(), TopicError>)
        requires
            raw@.len() >= 1,
        ensures
            r == (if raw@[0] == LAYER_SEPARATOR {
                Err::<(), TopicError>(TopicError::LeadingSlash)
            } else if raw@[raw@.len() - 1] == LAYER_SEPARATOR {
                Err::<(), TopicError>(TopicError::TrailingSlash)
            } else {
                Ok::<(), TopicError>(())
            }),
    {
        if raw[0] == LAYER_SEPARATOR {
            return Err(TopicError::LeadingSlash);
        }
        if raw[raw.len() - 1] == LAYER_SEPARATOR {
            return Err(TopicError::TrailingSlash);
        }
        Ok(())
    }

    fn scan_slashes(raw: &[u8]) -> (r: Result<([u8; 7], u8), TopicError>)
        requires
            raw@.len() <= MAXIMUM_TOPIC_LENGTH,
        ensures
            match scan_check(raw@, raw@.len()) {
                Ok(_) => r is Ok && r->Ok_0.1 == layer_count(raw@) && forall|k: int|
                    0 <= k < separators(raw@).len() ==> #[trigger] r->Ok_0.0[k] == separators(
                        raw@,
                    )[k],
                Err(e) => r == Err::<([u8; 7], u8), TopicError>(e),
            },
    {
        let mut slash_positions = [0u8;7];
        let mut slash_count: usize = 0;
        let mut prev_was_slash = false;
        let mut i: usize = 0;
        while i < raw.len()
            invariant
                i <= raw@.len() <= MAXIMUM_TOPIC_LENGTH,
                scan_check(raw@, i as nat) is Ok,
                slash_count == separators_upto(raw@, i as nat).len(),
                slash_count <= MAX_SLASH_COUNT,
                prev_was_slash == (i > 0 && raw@[i - 1] == LAYER_SEPARATOR),
                forall|k: int|
                    0 <= k < slash_count ==> #[trigger] slash_positions[k] == separators_upto(
                        raw@,
                        i as nat,
                    )[k],
            decreases raw@.len() - i,
        {
            let byte = raw[i];
            if byte == LAYER_SEPARATOR {
                if prev_was_slash {
                    proof {
                        lemma_scan_error_stays(raw@, (i + 1) as nat, raw@.len());
                    }
                    return Err(TopicError::EmptyLayer);
                }
                if slash_count >= MAX_SLASH_COUNT {
                    let detected_layer_count = slash_count + 2;
                    proof {
                        lemma_scan_error_stays(raw@, (i + 1) as nat, raw@.len());
                    }
                    return Err(TopicError::ExceedsMaxLayerCount { count: detected_layer_count });
                }
                slash_positions[slash_count] = i as u8;
                slash_count += 1;
                prev_was_slash = true;
            } else {
                prev_was_slash = false;
            }
            i += 1;
        }
        let layer_count = slash_count + 1;
        if layer_count > MAXIMUM_TOPIC_LAYER {
            return Err(TopicError::ExceedsMaxLayerCount { count: layer_count });
        }
        Ok((slash_positions, layer_count as u8))
    }

    /// Writes the topic behind a two-byte length.
    pub(crate) fn encode_to(&self, dst: &mut BytesMut)
        requires
            has_room(bytes_mut_contents(*old(dst)).len(), self@.len() + 2),
        ensures
            bytes_mut_contents(*final(dst)) == bytes_mut_contents(*old(dst)) + length_prefixed_u16(
                self@,
            ),
    {
        dst.put_length_prefixed_u16(bytes_as_slice(&self.raw));
    }

    /// The raw bytes of the topic.
    pub(crate) fn as_bytes(&self) -> (r: &Bytes)
        ensures
            bytes_contents(*r) == self@,
    {
        &self.raw
    }

    /// The number of layers.
    pub(crate) fn layer_count(&self) -> (r: u8)
        ensures
            r == layer_count(self@),
            1 <= r <= MAXIMUM_TOPIC_LAYER,
    {
        proof {
            use_type_invariant(self);
        }
        self.layer_count
    }

    /// The bytes of the layer at `index`, which must be below the layer
    /// count.
    pub(crate) fn layer(&self, index: u8) -> (r: &[u8])
        requires
            index < layer_count(self@),
        ensures
            r@ == layer(self@, index as int),
    {
        proof {
            use_type_invariant(self);
            lemma_layers_nonempty(self@, index as int);
            lemma_separators_upto(self@, self@.len());
        }
        let raw = bytes_as_slice(&self.raw);
        let start = if index == 0 {
            0
        } else {
            self.slash_positions[(index - 1) as usize] as usize + 1
        };
        let end = if index + 1 < self.layer_count {
            self.slash_positions[index as usize] as usize
        } else {
            raw.len()
        };
        slice_subrange(raw, start, end)
    }
}

} // verus!
