//! The failures that name resolution and type resolution surface, each
//! carrying the source span it arose at.

use vstd::prelude::*;
use crate::span::{Span, Symbol};

verus! {

/// A resolution failure returned to the caller; the surrounding driver is
/// responsible for formatting and reporting it.
#[derive(Clone, Copy, Debug, PartialEq, Eq, Structural)]
pub enum AsgError {
    /// A type name with no circuit or alias binding anywhere in the scope
    /// chain; carries the name and its span.
    UnresolvedName(Symbol, Span),
    /// A numeric literal used as an array dimension does not denote an
    /// unsigned 32-bit count.
    MalformedArraySize(Span),
    /// The circuit-self type marker appeared outside a circuit body, where an
    /// earlier pass should already have substituted it.
    InvalidSelfReference(Span),
    /// An internal-invariant violation: a multi-dimensional array marker
    /// reached type resolution although the desugaring pass flattens those.
    InternalError(Span),
}

impl AsgError {
    /// The source span the error arose at.
    pub fn span(&self) -> (r: Span)
        ensures
            r == self.span_of(),
    {
        match self {
            AsgError::UnresolvedName(_, span) => *span,
            AsgError::MalformedArraySize(span) => *span,
            AsgError::InvalidSelfReference(span) => *span,
            AsgError::InternalError(span) => *span,
        }
    }

    /// The span carried by each error kind.
    pub open spec fn span_of(self) -> Span {
        match self {
            AsgError::UnresolvedName(_, span) => span,
            AsgError::MalformedArraySize(span) => span,
            AsgError::InvalidSelfReference(span) => span,
            AsgError::InternalError(span) => span,
        }
    }
}

} // verus!
