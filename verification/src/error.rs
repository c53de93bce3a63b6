//! The failures that construction and evaluation report.
use vstd::prelude::*;

verus! {

#[derive(Clone, Copy, Debug, PartialEq, Eq, Structural)]
pub enum Error {
    /// The grid has no pixels, the iteration budget is zero, or the palette
    /// has fewer entries than the budget.
    Configuration,
    /// A viewport axis has equal bounds.
    DegenerateViewport,
    /// A point value, carried here, has no palette entry.
    PaletteIndex(u32),
}

} // verus!
