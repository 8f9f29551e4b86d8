use vstd::prelude::*;

verus! {

/// Why a page could not take a tile.
#[derive(Debug, Copy, Clone, PartialEq, Eq, Structural)]
pub enum AllocationFailure {
    /// No free block is large enough now; growing the page or another page may help.
    NoSpace,
    /// The tile is larger than the largest page, or has no area.
    ExceedsCapacity,
}

/// The errors of the atlas.
#[derive(Debug, Copy, Clone, PartialEq, Eq, Structural)]
pub enum AtlasError {
    AllocationFailed(AllocationFailure),
    /// The tile is not (or no longer) placed where the handle says.
    InvalidHandle,
    /// A new size is smaller than the current one in some dimension.
    GrowthRejected,
    /// No tileset in the chain provides the code.
    GlyphNotFound,
}

} // verus!
