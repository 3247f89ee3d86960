//! Topics and topic filters.
//!
//! A topic is a byte string of slash-separated layers. [`Topic`] names one
//! subject to publish to and holds no wildcard; [`TopicFilter`] is a pattern
//! to subscribe with and may hold `+` (one layer) and `#` (the remaining
//! layers, legal in the last layer only).
//!
//! The rules are stated here over `Seq<u8>`; the types hold bytes that meet
//! them, with the separator positions found once at construction.

pub mod error;
mod topic_wire;

use vstd::prelude::*;
use bytes::{Bytes, BytesMut};
use crate::buf::{bytes_as_slice, bytes_contents, bytes_mut_contents};
use crate::common::wire::{
    has_room, lemma_length_prefixed_u16_round_trip, length_prefixed_u16, parse_length_prefixed_u16,
};
pub use crate::topic::error::TopicError;
use crate::topic::topic_wire::{parse_topic_wire, TopicWire};

verus! {

pub const MAXIMUM_TOPIC_LENGTH: usize = 256;

pub const MAXIMUM_TOPIC_LAYER: usize = 8;

pub const MAX_SLASH_COUNT: usize = 7;

/// The byte `/`, which separates layers.
pub const LAYER_SEPARATOR: u8 = 0x2F;

/// The byte `+`, which stands for exactly one layer.
pub const SINGLE_LAYER_WILDCARD: u8 = 0x2B;

/// The byte `#`, which stands for one or more trailing layers.
pub const MULTI_LAYER_WILDCARD: u8 = 0x23;

/// The places of the separators among the first `n` bytes of `raw`, ascending.
pub open spec fn separators_upto(raw: Seq<u8>, n: nat) -> Seq<int>
    decreases n,
{
    if n == 0 {
        Seq::empty()
    } else if raw[n - 1] == LAYER_SEPARATOR {
        separators_upto(raw, (n - 1) as nat).push(n - 1)
    } else {
        separators_upto(raw, (n - 1) as nat)
    }
}

/// The places of all separators in `raw`, ascending.
pub open spec fn separators(raw: Seq<u8>) -> Seq<int> {
    separators_upto(raw, raw.len())
}

/// The number of layers of `raw`: one more than it has separators.
pub open spec fn layer_count(raw: Seq<u8>) -> nat {
    separators(raw).len() + 1
}

/// Where layer `i` of `raw` begins: at 0, or just behind separator `i - 1`.
pub open spec fn layer_start(raw: Seq<u8>, i: int) -> int {
    if i == 0 {
        0
    } else {
        separators(raw)[i - 1] + 1
    }
}

/// Where layer `i` of `raw` ends: at separator `i`, or with `raw`.
pub open spec fn layer_end(raw: Seq<u8>, i: int) -> int {
    if i + 1 < layer_count(raw) {
        separators(raw)[i]
    } else {
        raw.len() as int
    }
}

/// Layer `i` of `raw`, for `0 <= i < layer_count(raw)`.
pub open spec fn layer(raw: Seq<u8>, i: int) -> Seq<u8> {
    raw.subrange(layer_start(raw, i), layer_end(raw, i))
}

/// What the scan over the first `n` bytes of `raw` finds: the first
/// separator, in order, that follows another directly (`EmptyLayer`) or that
/// is the eighth (`ExceedsMaxLayerCount`), if there is one.
pub open spec fn scan_check(raw: Seq<u8>, n: nat) -> Result<(), TopicError>
    decreases n,
{
    if n == 0 {
        Ok(())
    } else {
        match scan_check(raw, (n - 1) as nat) {
            Err(e) => Err(e),
            Ok(_) => {
                let seen = separators_upto(raw, (n - 1) as nat).len();
                if raw[n - 1] != LAYER_SEPARATOR {
                    Ok(())
                } else if n >= 2 && raw[n - 2] == LAYER_SEPARATOR {
                    Err(TopicError::EmptyLayer)
                } else if seen >= MAX_SLASH_COUNT {
                    Err(TopicError::ExceedsMaxLayerCount { count: (seen + 2) as usize })
                } else {
                    Ok(())
                }
            },
        }
    }
}

/// The check that topics and filters share: the length, the two ends, then
/// the scan. The first rule broken, in that order, names the error.
pub open spec fn check_layers(raw: Seq<u8>) -> Result<(), TopicError> {
    if raw.len() == 0 || raw.len() > MAXIMUM_TOPIC_LENGTH {
        Err(TopicError::ExceedsMaxLength { length: raw.len() as usize })
    } else if raw[0] == LAYER_SEPARATOR {
        Err(TopicError::LeadingSlash)
    } else if raw[raw.len() - 1] == LAYER_SEPARATOR {
        Err(TopicError::TrailingSlash)
    } else {
        scan_check(raw, raw.len())
    }
}

/// `raw` is laid out as layers: between 1 and 256 bytes, no separator at
/// either end, no two separators side by side, and at most eight layers.
pub open spec fn well_layered(raw: Seq<u8>) -> bool {
    &&& 1 <= raw.len() <= MAXIMUM_TOPIC_LENGTH
    &&& raw[0] != LAYER_SEPARATOR
    &&& raw[raw.len() - 1] != LAYER_SEPARATOR
    &&& forall|i: int|
        1 <= i < raw.len() ==> !(#[trigger] raw[i] == LAYER_SEPARATOR && raw[i - 1]
            == LAYER_SEPARATOR)
    &&& layer_count(raw) <= MAXIMUM_TOPIC_LAYER
}

/// `raw` holds `+` or `#` somewhere.
pub open spec fn has_wildcard(raw: Seq<u8>) -> bool {
    raw.contains(SINGLE_LAYER_WILDCARD) || raw.contains(MULTI_LAYER_WILDCARD)
}

/// The check of a topic to publish to: the shared check, then no wildcard.
pub open spec fn check_topic(raw: Seq<u8>) -> Result<(), TopicError> {
    match check_layers(raw) {
        Err(e) => Err(e),
        Ok(_) => if has_wildcard(raw) {
            Err(TopicError::WildcardInPublishTopic)
        } else {
            Ok(())
        },
    }
}

/// What reading a topic from `s` gives: the raw bytes of the topic and the
/// bytes left over, or the error.
pub open spec fn parse_topic(s: Seq<u8>) -> Result<(Seq<u8>, Seq<u8>), TopicError> {
    match parse_length_prefixed_u16(s) {
        Err(e) => Err(TopicError::Wire(e)),
        Ok((raw, rest)) => match check_topic(raw) {
            Err(e) => Err(e),
            Ok(_) => Ok((raw, rest)),
        },
    }
}

/// Every place in `separators_upto(raw, n)` is below `n` and holds a
/// separator, the places ascend, and no separator below `n` is left out.
pub proof fn lemma_separators_upto(raw: Seq<u8>, n: nat)
    requires
        n <= raw.len(),
    ensures
        separators_upto(raw, n).len() <= n,
        forall|k: int|
            0 <= k < separators_upto(raw, n).len() ==> 0 <= #[trigger] separators_upto(raw, n)[k]
                < n && raw[separators_upto(raw, n)[k]] == LAYER_SEPARATOR,
        forall|j: int, k: int|
            0 <= j < k < separators_upto(raw, n).len() ==> #[trigger] separators_upto(raw, n)[j]
                < #[trigger] separators_upto(raw, n)[k],
        forall|i: int|
            0 <= i < n && raw[i] == LAYER_SEPARATOR ==> separators_upto(raw, n).contains(i),
    decreases n,
{
    if n > 0 {
        let m = (n - 1) as nat;
        lemma_separators_upto(raw, m);
        let before = separators_upto(raw, m);
        let now = separators_upto(raw, n);
        assert forall|i: int| 0 <= i < n && raw[i] == LAYER_SEPARATOR implies now.contains(i) by {
            if i < m {
                let k = choose|k: int| 0 <= k < before.len() && before[k] == i;
                assert(now[k] == i);
            } else {
                assert(now[now.len() - 1] == i);
            }
        }
    }
}

/// The separators found in a longer prefix begin with those of a shorter one.
pub proof fn lemma_separators_prefix(raw: Seq<u8>, m: nat, n: nat)
    requires
        m <= n <= raw.len(),
    ensures
        separators_upto(raw, m).len() <= separators_upto(raw, n).len(),
        forall|k: int|
            0 <= k < separators_upto(raw, m).len() ==> separators_upto(raw, n)[k]
                == #[trigger] separators_upto(raw, m)[k],
    decreases n - m,
{
    if m < n {
        lemma_separators_prefix(raw, m, (n - 1) as nat);
    }
}

/// Once the scan has found an error, it keeps it.
pub proof fn lemma_scan_error_stays(raw: Seq<u8>, m: nat, n: nat)
    requires
        m <= n,
        scan_check(raw, m) is Err,
    ensures
        scan_check(raw, n) == scan_check(raw, m),
    decreases n - m,
{
    if m < n {
        lemma_scan_error_stays(raw, m, (n - 1) as nat);
    }
}

/// The scan passes the first `n` bytes exactly when no two separators stand
/// side by side among them and they hold at most seven separators.
pub proof fn lemma_scan_check_ok(raw: Seq<u8>, n: nat)
    requires
        n <= raw.len(),
    ensures
        scan_check(raw, n) is Ok <==> {
            &&& forall|i: int|
                1 <= i < n ==> !(#[trigger] raw[i] == LAYER_SEPARATOR && raw[i - 1]
                    == LAYER_SEPARATOR)
            &&& separators_upto(raw, n).len() <= MAX_SLASH_COUNT
        },
    decreases n,
{
    if n > 0 {
        let m = (n - 1) as nat;
        lemma_scan_check_ok(raw, m);
        lemma_separators_upto(raw, m);
        if scan_check(raw, m) is Ok {
            if raw[n - 1] == LAYER_SEPARATOR && n >= 2 && raw[n - 2] == LAYER_SEPARATOR {
                assert(raw[n - 1] == LAYER_SEPARATOR && raw[n - 1 - 1] == LAYER_SEPARATOR);
            }
        } else {
            if forall|i: int|
                1 <= i < m ==> !(#[trigger] raw[i] == LAYER_SEPARATOR && raw[i - 1]
                    == LAYER_SEPARATOR) {
                assert(separators_upto(raw, m).len() > MAX_SLASH_COUNT);
            } else {
                let i = choose|i: int|
                    1 <= i < m && (#[trigger] raw[i] == LAYER_SEPARATOR && raw[i - 1]
                        == LAYER_SEPARATOR);
                assert(1 <= i < n);
            }
        }
    }
}

/// The shared check passes exactly the byte strings that are laid out as
/// layers.
pub proof fn lemma_check_layers_ok(raw: Seq<u8>)
    ensures
        check_layers(raw) is Ok <==> well_layered(raw),
{
    lemma_scan_check_ok(raw, raw.len());
}

/// The check of a topic passes exactly the byte strings that are laid out
/// as layers and hold no wildcard.
pub proof fn lemma_check_topic_ok(raw: Seq<u8>)
    ensures
        check_topic(raw) is Ok <==> well_layered(raw) && !has_wildcard(raw),
{
    lemma_check_layers_ok(raw);
}

/// In a byte string laid out as layers, every layer lies within the string,
/// holds at least one byte, and holds no separator.
pub proof fn lemma_layers_nonempty(raw: Seq<u8>, i: int)
    requires
        well_layered(raw),
        0 <= i < layer_count(raw),
    ensures
        0 <= layer_start(raw, i) < layer_end(raw, i) <= raw.len(),
        layer(raw, i).len() >= 1,
        !layer(raw, i).contains(LAYER_SEPARATOR),
{
    let seps = separators(raw);
    lemma_separators_upto(raw, raw.len());
    let start = layer_start(raw, i);
    let end = layer_end(raw, i);
    if i > 0 {
        assert(raw[seps[i - 1]] == LAYER_SEPARATOR);
    }
    if i + 1 < layer_count(raw) {
        assert(raw[seps[i]] == LAYER_SEPARATOR);
        if i > 0 {
            assert(seps[i - 1] < seps[i]);
            if seps[i - 1] + 1 == seps[i] {
                assert(raw[seps[i]] == LAYER_SEPARATOR && raw[seps[i] - 1] == LAYER_SEPARATOR);
            }
        }
    }
    assert(start < end);
    assert forall|p: int| start <= p < end implies raw[p] != LAYER_SEPARATOR by {
        if raw[p] == LAYER_SEPARATOR {
            let k = choose|k: int| 0 <= k < seps.len() && seps[k] == p;
            if i > 0 && k <= i - 1 {
                assert(k == i - 1 || seps[k] < seps[i - 1]);
            }
            if i + 1 < layer_count(raw) && k >= i {
                assert(k == i || seps[i] < seps[k]);
            }
        }
    }
    assert forall|q: int| 0 <= q < layer(raw, i).len() implies layer(raw, i)[q]
        != LAYER_SEPARATOR by {
        assert(layer(raw, i)[q] == raw[start + q]);
    }
}

/// Which wildcards a topic filter holds. A filter without any names one
/// topic and can be looked up directly; the others need a walk over layers.
#[derive(Debug, Clone, Copy, PartialEq, Eq)]
pub enum WildcardKind {
    /// No wildcard: the filter is one exact topic.
    NoWildcard,
    /// `+` in some layer, and no `#`.
    SingleLayer,
    /// `#` in the last layer, and no `+`.
    MultiLayer,
    /// Both `+` and `#`.
    Both,
}

/// `#` stands in a layer of `raw` that is not the last.
pub open spec fn multi_layer_not_terminal(raw: Seq<u8>) -> bool {
    exists|i: int|
        0 <= i < layer_count(raw) - 1 && (#[trigger] layer(raw, i)).contains(MULTI_LAYER_WILDCARD)
}

/// Some layer of `raw` holds `+`.
pub open spec fn has_single_layer(raw: Seq<u8>) -> bool {
    exists|i: int|
        0 <= i < layer_count(raw) && (#[trigger] layer(raw, i)).contains(SINGLE_LAYER_WILDCARD)
}

/// The last layer of `raw` holds `#`.
pub open spec fn has_multi_layer(raw: Seq<u8>) -> bool {
    layer(raw, layer_count(raw) - 1).contains(MULTI_LAYER_WILDCARD)
}

/// The kind that the two findings make.
pub open spec fn wildcard_kind(single_layer: bool, multi_layer: bool) -> WildcardKind {
    if single_layer {
        if multi_layer {
            WildcardKind::Both
        } else {
            WildcardKind::SingleLayer
        }
    } else {
        if multi_layer {
            WildcardKind::MultiLayer
        } else {
            WildcardKind::NoWildcard
        }
    }
}

/// The wildcards of `raw`, layer by layer: `#` before the last layer is an
/// error; otherwise the kind says whether any layer holds `+` and whether the
/// last holds `#`. A layer that holds `#` beside other bytes counts as
/// holding it.
pub open spec fn classify_wildcards(raw: Seq<u8>) -> Result<WildcardKind, TopicError> {
    if multi_layer_not_terminal(raw) {
        Err(TopicError::MultiLayerWildcardNotTerminal)
    } else {
        Ok(wildcard_kind(has_single_layer(raw), has_multi_layer(raw)))
    }
}

/// The check of a topic filter: the shared check, then the wildcards.
pub open spec fn check_filter(raw: Seq<u8>) -> Result<WildcardKind, TopicError> {
    match check_layers(raw) {
        Err(e) => Err(e),
        Ok(_) => classify_wildcards(raw),
    }
}

/// The check of a filter passes exactly the byte strings that are laid out
/// as layers and hold `#` in no layer but the last.
pub proof fn lemma_check_filter_ok(raw: Seq<u8>)
    ensures
        check_filter(raw) is Ok <==> well_layered(raw) && !multi_layer_not_terminal(raw),
{
    lemma_check_layers_ok(raw);
}

/// What reading a topic filter from `s` gives: the raw bytes of the filter
/// and the bytes left over, or the error.
pub open spec fn parse_filter(s: Seq<u8>) -> Result<(Seq<u8>, Seq<u8>), TopicError> {
    match parse_length_prefixed_u16(s) {
        Err(e) => Err(TopicError::Wire(e)),
        Ok((raw, rest)) => match check_filter(raw) {
            Err(e) => Err(e),
            Ok(_) => Ok((raw, rest)),
        },
    }
}

/// Whether `bytes` holds `byte`.
fn slice_contains(bytes: &[u8], byte: u8) -> (r: bool)
    ensures
        r == bytes@.contains(byte),
{
    let mut i: usize = 0;
    while i < bytes.len()
        invariant
            i <= bytes@.len(),
            forall|j: int| 0 <= j < i ==> bytes@[j] != byte,
        decreases bytes@.len() - i,
    {
        if bytes[i] == byte {
            return true;
        }
        i += 1;
    }
    false
}

/// A topic to publish to: laid out as layers, and free of wildcards.
pub struct Topic {
    wire: TopicWire,
}

impl Topic {
    /// The raw bytes of the topic.
    pub closed spec fn view(&self) -> Seq<u8> {
        self.wire@
    }

    /// The bytes pass the check of a topic.
    #[verifier::type_invariant]
    pub closed spec fn wf(&self) -> bool {
        self.wire.wf() && !has_wildcard(self@)
    }

    /// The bytes of a well-formed topic pass `check_topic`.
    pub proof fn lemma_wf(&self)
        requires
            self.wf(),
        ensures
            check_topic(self@) is Ok,
            well_layered(self@),
    {
        self.wire.lemma_wf();
        lemma_check_layers_ok(self@);
    }

    /// Reads a topic behind a two-byte length. Fails where the bytes are not
    /// laid out as layers, and where they hold a wildcard.
    pub fn decode(src: &mut Bytes) -> (r: Result<Self, TopicError>)
        ensures
            match parse_topic(bytes_contents(*old(src))) {
                Ok((raw, rest)) => r is Ok && r->Ok_0@ == raw && r->Ok_0.wf() && bytes_contents(
                    *final(src),
                ) == rest,
                Err(e) => r == Err::<Self, TopicError>(e),
            },
    {
        let wire = match TopicWire::decode(src) {
            Ok(wire) => wire,
            Err(e) => { return Err(e); },
        };
        let raw = bytes_as_slice(wire.as_bytes());
        let mut i: usize = 0;
        while i < raw.len()
            invariant
                i <= raw@.len(),
                parse_topic_wire(bytes_contents(*old(src))) == Ok::<
                    (Seq<u8>, Seq<u8>),
                    TopicError,
                >((raw@, bytes_contents(*src))),
                forall|j: int|
                    0 <= j < i ==> raw@[j] != SINGLE_LAYER_WILDCARD && raw@[j]
                        != MULTI_LAYER_WILDCARD,
            decreases raw@.len() - i,
        {
            let byte = raw[i];
            if byte == SINGLE_LAYER_WILDCARD || byte == MULTI_LAYER_WILDCARD {
                assert(raw@.contains(raw@[i as int]));
                return Err(TopicError::WildcardInPublishTopic);
            }
            i += 1;
        }
        Ok(Self { wire })
    }

    /// Writes the topic behind a two-byte length, as it was read.
    pub fn encode_to(&self, dst: &mut BytesMut)
        requires
            has_room(bytes_mut_contents(*old(dst)).len(), self@.len() + 2),
        ensures
            bytes_mut_contents(*final(dst)) == bytes_mut_contents(*old(dst)) + length_prefixed_u16(
                self@,
            ),
    {
        self.wire.encode_to(dst);
    }

    /// The raw bytes of the topic. They obey the rules of a topic.
    pub fn as_bytes(&self) -> (r: &Bytes)
        ensures
            bytes_contents(*r) == self@,
            check_topic(self@) is Ok,
    {
        proof {
            use_type_invariant(self);
            self.lemma_wf();
        }
        self.wire.as_bytes()
    }

    /// The number of layers.
    pub fn layer_count(&self) -> (r: u8)
        ensures
            r == layer_count(self@),
            1 <= r <= MAXIMUM_TOPIC_LAYER,
    {
        self.wire.layer_count()
    }

    /// The bytes of the layer at `index`, which must be below the layer
    /// count.
    pub fn layer(&self, index: u8) -> (r: &[u8])
        requires
            index < layer_count(self@),
        ensures
            r@ == layer(self@, index as int),
    {
        self.wire.layer(index)
    }
}

/// A pattern to subscribe with: laid out as layers, `#` in the last layer
/// only, with the kind of its wildcards found once at construction.
pub struct TopicFilter {
    wire: TopicWire,
    wildcard: WildcardKind,
}

impl TopicFilter {
    /// The raw bytes of the filter.
    pub closed spec fn view(&self) -> Seq<u8> {
        self.wire@
    }

    /// The bytes pass the check of a filter, and the stored kind is theirs.
    #[verifier::type_invariant]
    pub closed spec fn wf(&self) -> bool {
        self.wire.wf() && classify_wildcards(self@) == Ok::<WildcardKind, TopicError>(
            self.wildcard,
        )
    }

    /// The bytes of a well-formed filter pass `check_filter`.
    pub proof fn lemma_wf(&self)
        requires
            self.wf(),
        ensures
            check_filter(self@) is Ok,
            well_layered(self@),
    {
        self.wire.lemma_wf();
        lemma_check_layers_ok(self@);
    }

    /// Reads a topic filter behind a two-byte length. Fails where the bytes
    /// are not laid out as layers, and where `#` stands before the last
    /// layer.
    pub fn decode(src: &mut Bytes) -> (r: Result<Self, TopicError>)
        ensures
            match parse_filter(bytes_contents(*old(src))) {
                Ok((raw, rest)) => r is Ok && r->Ok_0@ == raw && r->Ok_0.wf() && bytes_contents(
                    *final(src),
                ) == rest,
                Err(e) => r == Err::<Self, TopicError>(e),
            },
    {
        let wire = match TopicWire::decode(src) {
            Ok(wire) => wire,
            Err(e) => { return Err(e); },
        };
        let wildcard = match Self::classify_wildcards(&wire) {
            Ok(wildcard) => wildcard,
            Err(e) => { return Err(e); },
        };
        Ok(Self { wire, wildcard })
    }

    /// Writes the filter behind a two-byte length, as it was read.
    pub fn encode_to(&self, dst: &mut BytesMut)
        requires
            has_room(bytes_mut_contents(*old(dst)).len(), self@.len() + 2),
        ensures
            bytes_mut_contents(*final(dst)) == bytes_mut_contents(*old(dst)) + length_prefixed_u16(
                self@,
            ),
    {
        self.wire.encode_to(dst);
    }

    /// The raw bytes of the filter. They obey the rules of a filter.
    pub fn as_bytes(&self) -> (r: &Bytes)
        ensures
            bytes_contents(*r) == self@,
            check_filter(self@) is Ok,
    {
        proof {
            use_type_invariant(self);
            self.lemma_wf();
        }
        self.wire.as_bytes()
    }

    /// The number of layers.
    pub fn layer_count(&self) -> (r: u8)
        ensures
            r == layer_count(self@),
            1 <= r <= MAXIMUM_TOPIC_LAYER,
    {
        self.wire.layer_count()
    }

    /// The bytes of the layer at `index`, which must be below the layer
    /// count.
    pub fn layer(&self, index: u8) -> (r: &[u8])
        requires
            index < layer_count(self@),
        ensures
            r@ == layer(self@, index as int),
    {
        self.wire.layer(index)
    }

    /// The kind of wildcards the filter holds: what the check of a filter
    /// finds in its bytes.
    pub fn wildcard(&self) -> (r: WildcardKind)
        ensures
            check_filter(self@) == Ok::<WildcardKind, TopicError>(r),
    {
        proof {
            use_type_invariant(self);
            self.lemma_wf();
        }
        self.wildcard
    }

    /// Looks through the layers for `+` and `#`, and refuses `#` anywhere
    /// but in the last.
    fn classify_wildcards(wire: &TopicWire) -> (r: Result<WildcardKind, TopicError>)
        ensures
            r == self::classify_wildcards(wire@),
    {
        let layer_count = wire.layer_count();
        let mut has_single_layer = false;
        let mut has_multi_layer = false;
        let mut layer_index: u8 = 0;
        while layer_index < layer_count
            invariant
                layer_index <= layer_count == self::layer_count(wire@),
                layer_count <= MAXIMUM_TOPIC_LAYER,
                has_single_layer == exists|i: int|
                    0 <= i < layer_index && (#[trigger] self::layer(wire@, i)).contains(
                        SINGLE_LAYER_WILDCARD,
                    ),
                has_multi_layer == (layer_index == layer_count && self::has_multi_layer(wire@)),
                forall|i: int|
                    0 <= i < layer_index && i < layer_count - 1 ==> !(#[trigger] self::layer(
                        wire@,
                        i,
                    )).contains(MULTI_LAYER_WILDCARD),
            decreases layer_count - layer_index,
        {
            let layer = wire.layer(layer_index);
            let is_terminal_layer = layer_index + 1 == layer_count;
            let layer_has_plus = slice_contains(layer, SINGLE_LAYER_WILDCARD);
            let layer_has_hash = slice_contains(layer, MULTI_LAYER_WILDCARD);
            if layer_has_plus {
                has_single_layer = true;
            }
            if layer_has_hash {
                if !is_terminal_layer {
                    return Err(TopicError::MultiLayerWildcardNotTerminal);
                }
                has_multi_layer = true;
            }
            layer_index += 1;
        }
        let wildcard = match (has_single_layer, has_multi_layer) {
            (false, false) => WildcardKind::NoWildcard,
            (true, false) => WildcardKind::SingleLayer,
            (false, true) => WildcardKind::MultiLayer,
            (true, true) => WildcardKind::Both,
        };
        Ok(wildcard)
    }
}

/// Reading back a written topic gives its bytes and leaves what followed.
pub proof fn lemma_topic_round_trip(raw: Seq<u8>, tail: Seq<u8>)
    requires
        check_topic(raw) is Ok,
    ensures
        parse_topic(length_prefixed_u16(raw) + tail) == Ok::<(Seq<u8>, Seq<u8>), TopicError>(
            (raw, tail),
        ),
{
    lemma_length_prefixed_u16_round_trip(raw, tail);
}

/// Reading back a written topic filter gives its bytes and leaves what
/// followed.
pub proof fn lemma_filter_round_trip(raw: Seq<u8>, tail: Seq<u8>)
    requires
        check_filter(raw) is Ok,
    ensures
        parse_filter(length_prefixed_u16(raw) + tail) == Ok::<(Seq<u8>, Seq<u8>), TopicError>(
            (raw, tail),
        ),
{
    lemma_length_prefixed_u16_round_trip(raw, tail);
}

/// In a byte string laid out as layers, every byte that is no separator
/// lies in a layer: in the one whose index is the number of separators in
/// front of the byte.
pub proof fn lemma_byte_in_layer(raw: Seq<u8>, p: int) -> (i: int)
    requires
        well_layered(raw),
        0 <= p < raw.len(),
        raw[p] != LAYER_SEPARATOR,
    ensures
        0 <= i < layer_count(raw),
        layer_start(raw, i) <= p < layer_end(raw, i),
        layer(raw, i)[p - layer_start(raw, i)] == raw[p],
{
    let seps = separators(raw);
    let before = separators_upto(raw, p as nat);
    let i = before.len() as int;
    lemma_separators_upto(raw, raw.len());
    lemma_separators_upto(raw, p as nat);
    lemma_separators_prefix(raw, p as nat, raw.len());
    if i > 0 {
        assert(seps[i - 1] == before[i - 1]);
    }
    if i < seps.len() {
        if seps[i] <= p {
            assert(raw[seps[i]] == LAYER_SEPARATOR);
            let j = choose|j: int| 0 <= j < before.len() && before[j] == seps[i];
            assert(seps[j] == before[j]);
            assert(j == i || seps[j] < seps[i]);
        }
    }
    i
}

/// In a byte string laid out as layers, a byte that is no separator occurs
/// in some layer exactly when it occurs in the string.
pub proof fn lemma_layers_hold_bytes(raw: Seq<u8>, byte: u8)
    requires
        well_layered(raw),
        byte != LAYER_SEPARATOR,
    ensures
        raw.contains(byte) <==> exists|i: int|
            0 <= i < layer_count(raw) && (#[trigger] layer(raw, i)).contains(byte),
{
    if raw.contains(byte) {
        let p = choose|p: int| 0 <= p < raw.len() && raw[p] == byte;
        let i = lemma_byte_in_layer(raw, p);
        lemma_layers_nonempty(raw, i);
        let q = p - layer_start(raw, i);
        assert(0 <= q < layer(raw, i).len() && layer(raw, i)[q] == byte);
    }
    if exists|i: int| 0 <= i < layer_count(raw) && (#[trigger] layer(raw, i)).contains(byte) {
        let i = choose|i: int|
            0 <= i < layer_count(raw) && (#[trigger] layer(raw, i)).contains(byte);
        lemma_layers_nonempty(raw, i);
        let q = choose|q: int| 0 <= q < layer(raw, i).len() && layer(raw, i)[q] == byte;
        assert(raw[layer_start(raw, i) + q] == byte);
    }
}

/// The kind of a filter's wildcards can be read off its bytes: a filter
/// that passes the check holds `+` exactly when its kind is `SingleLayer` or
/// `Both`, and `#` exactly when its kind is `MultiLayer` or `Both`.
pub proof fn lemma_wildcards_by_bytes(raw: Seq<u8>)
    requires
        check_filter(raw) is Ok,
    ensures
        raw.contains(SINGLE_LAYER_WILDCARD) <==> (check_filter(raw)->Ok_0
            == WildcardKind::SingleLayer || check_filter(raw)->Ok_0 == WildcardKind::Both),
        raw.contains(MULTI_LAYER_WILDCARD) <==> (check_filter(raw)->Ok_0
            == WildcardKind::MultiLayer || check_filter(raw)->Ok_0 == WildcardKind::Both),
{
    lemma_check_layers_ok(raw);
    lemma_layers_hold_bytes(raw, SINGLE_LAYER_WILDCARD);
    lemma_layers_hold_bytes(raw, MULTI_LAYER_WILDCARD);
    if exists|i: int|
        0 <= i < layer_count(raw) && (#[trigger] layer(raw, i)).contains(MULTI_LAYER_WILDCARD) {
        let i = choose|i: int|
            0 <= i < layer_count(raw) && (#[trigger] layer(raw, i)).contains(
                MULTI_LAYER_WILDCARD,
            );
        assert(i == layer_count(raw) - 1);
    }
}

/// A topic is a filter without wildcards: the bytes that pass the check of a
/// topic are those that pass the check of a filter with the kind
/// `NoWildcard`.
pub proof fn lemma_topic_is_exact_filter(raw: Seq<u8>)
    ensures
        check_topic(raw) is Ok <==> check_filter(raw) == Ok::<WildcardKind, TopicError>(
            WildcardKind::NoWildcard,
        ),
{
    if check_layers(raw) is Ok {
        lemma_check_layers_ok(raw);
        lemma_layers_hold_bytes(raw, SINGLE_LAYER_WILDCARD);
        lemma_layers_hold_bytes(raw, MULTI_LAYER_WILDCARD);
        if check_filter(raw) is Ok {
            lemma_wildcards_by_bytes(raw);
        } else {
            let i = choose|i: int|
                0 <= i < layer_count(raw) - 1 && (#[trigger] layer(raw, i)).contains(
                    MULTI_LAYER_WILDCARD,
                );
            assert(layer(raw, i).contains(MULTI_LAYER_WILDCARD));
        }
    }
}

} // verus!
