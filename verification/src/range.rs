//! One axis of the viewport.
use crate::ieee::{equal, spec_equal};
use vstd::prelude::*;

verus! {

/// The visible interval along one axis: its low and high bound, each a
/// binary64 bit pattern.
#[derive(Clone, Copy, Debug, PartialEq, Eq, Structural)]
pub struct Range(pub u64, pub u64);

impl Range {
    /// Whether the two bounds are numerically equal, so that the interval has
    /// no extent to spread pixels over.
    pub open spec fn spec_is_degenerate(&self) -> bool {
        spec_equal(self.0, self.1)
    }

    pub fn new(a: u64, b: u64) -> (r: Range)
        ensures
            r.0 == a,
            r.1 == b,
    {
        Range(a, b)
    }

    pub fn is_degenerate(&self) -> (r: bool)
        ensures
            r == self.spec_is_degenerate(),
    {
        equal(self.0, self.1)
    }
}

} // verus!
