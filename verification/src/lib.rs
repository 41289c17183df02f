//! On-demand, tile-based multi-resolution texture streaming cache.
//!
//! Large images are never loaded whole: a texture is an ordered pyramid of
//! mip levels, each level a grid of fixed-size tiles, and a tile's pixels
//! are decoded lazily the first time a sample request touches it.  This
//! crate holds the cache registry, the pyramid and tile data structures,
//! the pixel-addressing math and the lazy-loading protocol; reading image
//! files, decoding tile bytes and compiling source images into the tiled
//! container are left to unverified callers, which hand the results in as
//! plain values.

use vstd::prelude::*;

pub mod cache;
pub mod geom;
pub mod pattern;
pub mod texture;

verus! {

/// Sum of two sizes.
pub fn add(left: usize, right: usize) -> (r: usize)
    requires
        left + right <= usize::MAX,
    ensures
        r == left + right,
{
    left + right
}

} // verus!
