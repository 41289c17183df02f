//! Tile-grid and mip-pyramid arithmetic.
//!
//! Every level of a texture pyramid is cut into tiles of a fixed 64-pixel
//! edge; the functions here compute, per axis, how many tiles cover a level,
//! the true pixel footprint of one tile (smaller than the edge on the last,
//! partially used tile of an axis), and the halving rule that derives each
//! level's resolution from the previous one.

use vstd::prelude::*;

verus! {

/// Edge length, in pixels, of every tile of every level.
pub const TILE_EDGE: usize = 64;

/// Number of tiles that cover `extent` pixels along one axis:
/// ceiling division by the tile edge.
pub open spec fn blocks_of(extent: int) -> int {
    (extent + 63) / 64
}

/// True pixel footprint, along one axis, of the tile with the given index:
/// the full tile edge except on the last tile of an axis that the grid
/// overhangs, where only `extent - index * 64` pixels remain.
pub open spec fn block_extent(extent: int, index: int) -> int {
    if (index + 1) * 64 <= extent {
        64
    } else {
        extent - index * 64
    }
}

/// One halving step of the mip pyramid: floor division by two, pinned at 1
/// so that the coarsest level is 1 pixel wide, never 0.
pub open spec fn half_extent(extent: int) -> int {
    if extent / 2 >= 1 {
        extent / 2
    } else {
        1
    }
}

/// Both axes of `next` are one halving step below `prev`.
pub open spec fn is_halving(prev: (usize, usize), next: (usize, usize)) -> bool {
    &&& next.0 == half_extent(prev.0 as int)
    &&& next.1 == half_extent(prev.1 as int)
}

/// Tile count along one axis.
pub fn tiles_across(extent: usize) -> (n: usize)
    requires
        extent + 63 <= usize::MAX,
    ensures
        n == blocks_of(extent as int),
{
    (extent + 63) / 64
}

/// Pixel footprint of one tile along one axis.
pub fn tile_extent(extent: usize, index: usize) -> (e: usize)
    requires
        index * 64 < extent,
    ensures
        e == block_extent(extent as int, index as int),
        1 <= e <= 64,
{
    let start = index * 64;
    if extent - start >= 64 {
        64
    } else {
        extent - start
    }
}

/// One halving step of the pyramid.
pub fn halve(extent: usize) -> (h: usize)
    ensures
        h == half_extent(extent as int),
{
    if extent / 2 >= 1 {
        extent / 2
    } else {
        1
    }
}

/// A tile index below the tile count addresses pixels inside the axis:
/// its first pixel column (or row) lies strictly before `extent`.
pub proof fn lemma_block_start_in_extent(extent: int, index: int)
    requires
        extent >= 1,
        0 <= index < blocks_of(extent),
    ensures
        index * 64 < extent,
{
    assert(index <= (extent + 63) / 64 - 1);
    assert(((extent + 63) / 64 - 1) * 64 < extent) by (nonlinear_arith);
    assert(index * 64 <= ((extent + 63) / 64 - 1) * 64) by (nonlinear_arith)
        requires
            index <= (extent + 63) / 64 - 1,
    ;
}

/// The last tile of an axis covers `extent % 64` pixels where the tile edge
/// does not divide the axis evenly, and a full tile edge where it does.
pub proof fn lemma_last_tile_extent(extent: int)
    requires
        extent >= 1,
    ensures
        extent % 64 != 0 ==> block_extent(extent, blocks_of(extent) - 1) == extent % 64,
        extent % 64 == 0 ==> block_extent(extent, blocks_of(extent) - 1) == 64,
{
    let q = extent / 64;
    let r = extent % 64;
    vstd::arithmetic::div_mod::lemma_fundamental_div_mod(extent, 64);
    if r == 0 {
        assert(blocks_of(extent) == q) by (nonlinear_arith)
            requires
                extent == 64 * q,
                q >= 1,
        ;
        assert(q * 64 <= extent) by (nonlinear_arith)
            requires
                extent == 64 * q,
        ;
    } else {
        assert(blocks_of(extent) == q + 1) by (nonlinear_arith)
            requires
                extent == 64 * q + r,
                0 < r < 64,
        ;
        assert((q + 1) * 64 > extent && extent - q * 64 == r) by (nonlinear_arith)
            requires
                extent == 64 * q + r,
                0 < r < 64,
        ;
    }
}

/// Halving an axis never increases its tile count.
pub proof fn lemma_blocks_monotonic(a: int, b: int)
    requires
        0 <= a <= b,
    ensures
        blocks_of(a) <= blocks_of(b),
{
    vstd::arithmetic::div_mod::lemma_div_is_ordered(a + 63, b + 63, 64);
}

} // verus!
