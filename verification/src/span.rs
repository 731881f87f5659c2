//! Interned identifiers and source locations, as the parser hands them over.

use vstd::prelude::*;

verus! {

/// An identifier interned to a comparable, hashable form by the external
/// interner that runs before semantic analysis.
#[derive(Clone, Copy, Debug, PartialEq, Eq, Structural, Hash)]
pub struct Symbol(pub u64);

/// A source location attached to syntax nodes and to every error this
/// library reports.
#[derive(Clone, Copy, Debug, PartialEq, Eq, Structural, Hash)]
pub struct Span {
    /// Offset of the first byte covered by the node.
    pub lo: u64,
    /// Offset one past the last byte covered by the node.
    pub hi: u64,
}

impl Span {
    /// A span covering the given byte range.
    pub fn new(lo: u64, hi: u64) -> (r: Span)
        ensures
            r == (Span { lo, hi }),
    {
        Span { lo, hi }
    }
}

} // verus!
