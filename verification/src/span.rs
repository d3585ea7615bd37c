//! Source locations and identifiers.

use vstd::prelude::*;

verus! {

/// A half-open range of source offsets.
#[derive(Clone, Copy, Debug, PartialEq, Eq, Structural)]
pub struct Span {
    pub lo: u64,
    pub hi: u64,
}

impl Span {
    /// The unknown location.
    pub fn none() -> (span: Span)
        ensures
            span.lo == 0 && span.hi == 0,
    {
        Span { lo: 0, hi: 0 }
    }

    /// Whether this span is the unknown location.
    pub fn is_none(&self) -> (b: bool)
        ensures
            b == (self.lo == 0 && self.hi == 0),
    {
        self.lo == 0 && self.hi == 0
    }
}

} // verus!
