use vstd::prelude::*;

verus! {

/// Why reading a typed field from a wire buffer failed.
#[derive(Debug, Clone, Copy, PartialEq, Eq)]
pub enum WireError {
    /// The field needs `expected` bytes and only `actual` remain.
    BufferTooShort { expected: usize, actual: usize },
    /// A variable-length integer goes on past its fourth byte.
    VariableLengthOverflow,
}

} // verus!
