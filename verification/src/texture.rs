//! Textures: a mip pyramid of tile grids with lazily loaded tiles.
//!
//! A [`Texture`] is an immutable path and base resolution together with an
//! ordered pyramid of [`MipMap`] levels, level 0 at full resolution and each
//! further level one halving step coarser, down to 1 x 1.  Every level is a
//! grid of tile slots, all empty at construction; [`Texture::tile_load`]
//! fills one slot with decoded samples, once, and [`Texture::sample`] reads
//! single pixels out of a loaded tile.
//!
//! Pixel samples are carried as the bit patterns of IEEE 754 single-precision
//! channel values, so that the addressing and storage logic is exact;
//! callers convert to and from floating point at the boundary.

use vstd::arithmetic::div_mod::{
    lemma_fundamental_div_mod_converse_div, lemma_fundamental_div_mod_converse_mod,
};
use vstd::arithmetic::mul::{lemma_mul_inequality, lemma_mul_is_commutative};
use vstd::prelude::*;

use crate::geom::{
    block_extent, blocks_of, halve, is_halving, lemma_block_start_in_extent,
    half_extent, lemma_blocks_monotonic, lemma_last_tile_extent, tile_extent, tiles_across,
    TILE_EDGE,
};

verus! {

/// One pixel: red, green, blue and alpha channels, each the bit pattern of
/// an IEEE 754 single-precision value.
#[derive(Clone, Copy, Debug, PartialEq, Eq, Structural)]
pub struct Rgba {
    pub r: u32,
    pub g: u32,
    pub b: u32,
    pub a: u32,
}

/// Failure of a tile-loading step.
#[derive(Clone, Copy, Debug, PartialEq, Eq, Structural)]
pub enum TextureError {
    /// The decoded sample buffer does not hold one four-channel pixel for
    /// every pixel of the tile's footprint.
    UnsupportedFormat,
}

/// A decoded pixel block of one (level, tile-coordinate) pair; immutable
/// once stored.
#[derive(Debug)]
pub struct Tile {
    /// True pixel footprint, per axis: the tile edge, or less on the last
    /// tile of an axis the grid overhangs.
    pub tile_size: (usize, usize),
    /// Interleaved RGBA channel bit patterns, row by row,
    /// `tile_size.0 * tile_size.1 * 4` values.
    pub pixels: Vec<u32>,
}

/// One resolution level of a texture: its dimensions, its tile-grid shape,
/// and one slot per tile, empty until loaded.
#[derive(Debug)]
pub struct MipMap {
    /// Pixel resolution of this level.
    pub resolution: (usize, usize),
    /// Nominal tile edge, always 64 x 64.
    pub tiles_size: (usize, usize),
    /// Tile-grid shape: tiles per row and number of rows.
    pub tiles_n: (usize, usize),
    /// Tile slots, indexed by `x + y * tiles_n.0`.
    pub tiles: Vec<Option<Tile>>,
}

/// A tile slot is either empty or holds a tile whose footprint and buffer
/// length are the ones its grid position dictates.
pub open spec fn tile_slot_wf(
    slot: Option<Tile>,
    resolution: (usize, usize),
    tiles_per_row: int,
    index: int,
) -> bool {
    match slot {
        Option::None => true,
        Option::Some(t) => {
            &&& t.tile_size.0 == block_extent(resolution.0 as int, index % tiles_per_row)
            &&& t.tile_size.1 == block_extent(resolution.1 as int, index / tiles_per_row)
            &&& t.pixels@.len() == t.tile_size.0 * t.tile_size.1 * 4
        },
    }
}

impl MipMap {
    /// Well-formedness: the grid shape matches the resolution, there is one
    /// slot per grid cell, and every loaded tile fits its cell.
    pub open spec fn wf(self) -> bool {
        &&& self.resolution.0 >= 1 && self.resolution.1 >= 1
        &&& self.tiles_size == (64usize, 64usize)
        &&& self.tiles_n.0 == blocks_of(self.resolution.0 as int)
        &&& self.tiles_n.1 == blocks_of(self.resolution.1 as int)
        &&& self.tiles@.len() == self.tiles_n.0 * self.tiles_n.1
        &&& forall|k: int|
            0 <= k < self.tiles@.len() ==> tile_slot_wf(
                #[trigger] self.tiles@[k],
                self.resolution,
                self.tiles_n.0 as int,
                k,
            )
    }

    /// True pixel footprint of the tile at the given grid position.
    pub open spec fn spec_footprint(self, tile_pos: (usize, usize)) -> (int, int) {
        (
            block_extent(self.resolution.0 as int, tile_pos.0 as int),
            block_extent(self.resolution.1 as int, tile_pos.1 as int),
        )
    }

    /// A level of the given resolution with every tile slot empty.
    pub fn empty(resolution: (usize, usize)) -> (m: MipMap)
        requires
            1 <= resolution.0,
            1 <= resolution.1,
            resolution.0 + 63 <= usize::MAX,
            resolution.1 + 63 <= usize::MAX,
            blocks_of(resolution.0 as int) * blocks_of(resolution.1 as int) <= usize::MAX,
        ensures
            m.wf(),
            m.resolution == resolution,
            m.tiles_n.0 == blocks_of(resolution.0 as int),
            m.tiles_n.1 == blocks_of(resolution.1 as int),
            forall|k: int| 0 <= k < m.tiles@.len() ==> (#[trigger] m.tiles@[k]) is None,
    {
        let nx = tiles_across(resolution.0);
        let ny = tiles_across(resolution.1);
        let n = nx * ny;
        let mut tiles: Vec<Option<Tile>> = Vec::new();
        let mut k: usize = 0;
        while k < n
            invariant
                k <= n,
                tiles@.len() == k,
                forall|j: int| 0 <= j < k ==> (#[trigger] tiles@[j]) is None,
            decreases n - k,
        {
            tiles.push(Option::None);
            k = k + 1;
        }
        MipMap { resolution, tiles_size: (TILE_EDGE, TILE_EDGE), tiles_n: (nx, ny), tiles }
    }
}

/// One logical image: an immutable path and base resolution, and the mip
/// pyramid built from them.
#[derive(Debug)]
pub struct Texture {
    /// Path of the tiled container this texture reads from.
    pub path: String,
    /// Base (level 0) resolution.
    pub resolution: (usize, usize),
    /// The pyramid, level 0 first, each level one halving step coarser,
    /// ending at 1 x 1.
    pub mipmaps: Vec<MipMap>,
}

impl Texture {
    /// Well-formedness: level 0 matches the base resolution, each level is
    /// well formed and one halving step below its predecessor, and the
    /// pyramid stops exactly at the first 1 x 1 level.
    pub open spec fn wf(self) -> bool {
        &&& self.resolution.0 >= 1 && self.resolution.1 >= 1
        &&& self.mipmaps@.len() >= 1
        &&& self.mipmaps@[0].resolution == self.resolution
        &&& forall|l: int| 0 <= l < self.mipmaps@.len() ==> (#[trigger] self.mipmaps@[l]).wf()
        &&& forall|l: int|
            1 <= l < self.mipmaps@.len() ==> is_halving(
                self.mipmaps@[l - 1].resolution,
                (#[trigger] self.mipmaps@[l]).resolution,
            )
        &&& self.mipmaps@[self.mipmaps@.len() - 1].resolution == (1usize, 1usize)
        &&& forall|l: int|
            0 <= l < self.mipmaps@.len() - 1 ==> (#[trigger] self.mipmaps@[l]).resolution != (
            1usize,
            1usize,
            )
    }

    /// The slot of the given level and tile index holds a decoded tile.
    pub open spec fn tile_is_loaded(self, mipmap_lvl: int, tile_index: int) -> bool {
        self.mipmaps@[mipmap_lvl].tiles@[tile_index] is Some
    }

    /// A texture over the given container path and base resolution, its
    /// whole pyramid constructed, every tile slot empty.  Only the
    /// container's header is consulted for the resolution; no pixel data
    /// is touched.
    pub fn new(file_path: String, resolution: (usize, usize)) -> (t: Texture)
        requires
            1 <= resolution.0,
            1 <= resolution.1,
            resolution.0 + 63 <= usize::MAX,
            resolution.1 + 63 <= usize::MAX,
            blocks_of(resolution.0 as int) * blocks_of(resolution.1 as int) <= usize::MAX,
        ensures
            t.wf(),
            t.path == file_path,
            t.resolution == resolution,
            forall|l: int, k: int|
                0 <= l < t.mipmaps@.len() && 0 <= k < t.mipmaps@[l].tiles@.len()
                    ==> !t.tile_is_loaded(l, k),
    {
        let mut mipmaps: Vec<MipMap> = Vec::new();
        let mut w = resolution.0;
        let mut h = resolution.1;
        mipmaps.push(MipMap::empty((w, h)));
        while !(w == 1 && h == 1)
            invariant
                1 <= w <= resolution.0,
                1 <= h <= resolution.1,
                resolution.0 + 63 <= usize::MAX,
                resolution.1 + 63 <= usize::MAX,
                blocks_of(resolution.0 as int) * blocks_of(resolution.1 as int) <= usize::MAX,
                mipmaps@.len() >= 1,
                mipmaps@[0].resolution == resolution,
                mipmaps@[mipmaps@.len() - 1].resolution == (w, h),
                forall|l: int| 0 <= l < mipmaps@.len() ==> (#[trigger] mipmaps@[l]).wf(),
                forall|l: int|
                    1 <= l < mipmaps@.len() ==> is_halving(
                        mipmaps@[l - 1].resolution,
                        (#[trigger] mipmaps@[l]).resolution,
                    ),
                forall|l: int|
                    0 <= l < mipmaps@.len() - 1 ==> (#[trigger] mipmaps@[l]).resolution != (
                    1usize,
                    1usize,
                    ),
                forall|l: int, k: int|
                    0 <= l < mipmaps@.len() && 0 <= k < mipmaps@[l].tiles@.len()
                        ==> (#[trigger] mipmaps@[l].tiles@[k]) is None,
            decreases w + h,
        {
            let nw = halve(w);
            let nh = halve(h);
            proof {
                lemma_blocks_monotonic(nw as int, resolution.0 as int);
                lemma_blocks_monotonic(nh as int, resolution.1 as int);
                lemma_mul_inequality(
                    blocks_of(nw as int),
                    blocks_of(resolution.0 as int),
                    blocks_of(nh as int),
                );
                lemma_mul_inequality(
                    blocks_of(nh as int),
                    blocks_of(resolution.1 as int),
                    blocks_of(resolution.0 as int),
                );
                lemma_mul_is_commutative(blocks_of(resolution.0 as int), blocks_of(nh as int));
                lemma_mul_is_commutative(
                    blocks_of(resolution.1 as int),
                    blocks_of(resolution.0 as int),
                );
            }
            w = nw;
            h = nh;
            mipmaps.push(MipMap::empty((w, h)));
        }
        Texture { path: file_path, resolution, mipmaps }
    }

    /// Slot index of a grid coordinate at one level: the tile column plus
    /// the tile row times the tiles-per-row of that level.
    pub open spec fn tile_index_at(self, mipmap_lvl: int, coord: (int, int)) -> int {
        coord.0 + coord.1 * self.mipmaps@[mipmap_lvl].tiles_n.0
    }

    /// Whether the tile a pixel position addresses at the given level is
    /// already resident.  Pure query: returns the load state, the tile's
    /// grid coordinate and its slot index, and changes nothing.
    pub fn tile_loaded(&self, pixel_pos: (usize, usize), mipmap_lvl: usize) -> (r: (
        bool,
        (usize, usize),
        usize,
    ))
        requires
            self.wf(),
            mipmap_lvl < self.mipmaps@.len(),
            pixel_pos.0 as int / 64 < self.mipmaps@[mipmap_lvl as int].tiles_n.0,
            pixel_pos.1 as int / 64 < self.mipmaps@[mipmap_lvl as int].tiles_n.1,
        ensures
            (r.1.0 as int, r.1.1 as int) == tile_coord_of(pixel_pos),
            r.2 == self.tile_index_at(mipmap_lvl as int, tile_coord_of(pixel_pos)),
            r.2 < self.mipmaps@[mipmap_lvl as int].tiles@.len(),
            r.0 == self.tile_is_loaded(mipmap_lvl as int, r.2 as int),
    {
        let tx = pixel_pos.0 / 64;
        let ty = pixel_pos.1 / 64;
        let m = &self.mipmaps[mipmap_lvl];
        let total = m.tiles.len();
        proof {
            assert(m.wf());
            lemma_tile_index_in_grid(m.tiles_n.0 as int, m.tiles_n.1 as int, tx as int, ty as int);
            assert(tx + ty * m.tiles_n.0 < total);
        }
        let tile_index = tx + ty * m.tiles_n.0;
        (m.tiles[tile_index].is_some(), (tx, ty), tile_index)
    }

    /// True pixel footprint of one tile of one level: the full tile edge
    /// per axis, except on the last tile of an axis the grid overhangs.
    pub fn tile_footprint(&self, mipmap_lvl: usize, tile_pos: (usize, usize)) -> (f: (
        usize,
        usize,
    ))
        requires
            self.wf(),
            mipmap_lvl < self.mipmaps@.len(),
            tile_pos.0 < self.mipmaps@[mipmap_lvl as int].tiles_n.0,
            tile_pos.1 < self.mipmaps@[mipmap_lvl as int].tiles_n.1,
        ensures
            (f.0 as int, f.1 as int) == self.mipmaps@[mipmap_lvl as int].spec_footprint(tile_pos),
            1 <= f.0 <= 64,
            1 <= f.1 <= 64,
    {
        let m = &self.mipmaps[mipmap_lvl];
        proof {
            lemma_block_start_in_extent(m.resolution.0 as int, tile_pos.0 as int);
            lemma_block_start_in_extent(m.resolution.1 as int, tile_pos.1 as int);
        }
        (tile_extent(m.resolution.0, tile_pos.0), tile_extent(m.resolution.1, tile_pos.1))
    }

    /// Number of sample values a decoded buffer for this tile must hold:
    /// four channels per pixel of the tile's true footprint.
    pub open spec fn spec_samples_len(self, mipmap_lvl: int, tile_pos: (usize, usize)) -> int {
        let fp = self.mipmaps@[mipmap_lvl].spec_footprint(tile_pos);
        fp.0 * fp.1 * 4
    }

    /// Load one tile.  A no-op when the slot is already resident — the
    /// second of two identical loads changes nothing, whatever decoded
    /// buffer it was handed.  Otherwise the decoded samples (interleaved
    /// RGBA channel bit patterns covering the tile's true footprint) become
    /// the slot's tile, once and for all; a buffer of any other length is
    /// rejected as `UnsupportedFormat` and the texture is left unchanged.
    /// Nothing outside the addressed slot is ever touched.
    pub fn tile_load(
        &mut self,
        mipmap_lvl: usize,
        tile_index: usize,
        tile_pos: (usize, usize),
        samples: Vec<u32>,
    ) -> (r: Result<(), TextureError>)
        requires
            old(self).wf(),
            mipmap_lvl < old(self).mipmaps@.len(),
            tile_pos.0 < old(self).mipmaps@[mipmap_lvl as int].tiles_n.0,
            tile_pos.1 < old(self).mipmaps@[mipmap_lvl as int].tiles_n.1,
            tile_index == old(self).tile_index_at(
                mipmap_lvl as int,
                (tile_pos.0 as int, tile_pos.1 as int),
            ),
        ensures
            final(self).wf(),
            final(self).path == old(self).path,
            final(self).resolution == old(self).resolution,
            final(self).mipmaps@.len() == old(self).mipmaps@.len(),
            forall|l: int|
                0 <= l < old(self).mipmaps@.len() && l != mipmap_lvl ==> final(self).mipmaps@[l]
                    == old(self).mipmaps@[l],
            final(self).mipmaps@[mipmap_lvl as int].resolution == old(self).mipmaps@[mipmap_lvl as int].resolution,
            final(self).mipmaps@[mipmap_lvl as int].tiles_n == old(self).mipmaps@[mipmap_lvl as int].tiles_n,
            final(self).mipmaps@[mipmap_lvl as int].tiles@.len() == old(self).mipmaps@[mipmap_lvl as int].tiles@.len(),
            forall|k: int|
                0 <= k < old(self).mipmaps@[mipmap_lvl as int].tiles@.len() && k != tile_index
                    ==> final(self).mipmaps@[mipmap_lvl as int].tiles@[k] == old(
                    self,
                ).mipmaps@[mipmap_lvl as int].tiles@[k],
            old(self).tile_is_loaded(mipmap_lvl as int, tile_index as int) ==> *final(self)
                == *old(self) && r is Ok,
            !old(self).tile_is_loaded(mipmap_lvl as int, tile_index as int) && samples@.len()
                == old(self).spec_samples_len(mipmap_lvl as int, tile_pos) ==> r is Ok && ({
                let fp = old(self).mipmaps@[mipmap_lvl as int].spec_footprint(tile_pos);
                final(self).mipmaps@[mipmap_lvl as int].tiles@[tile_index as int] == Some(
                    Tile { tile_size: (fp.0 as usize, fp.1 as usize), pixels: samples },
                )
            }),
            !old(self).tile_is_loaded(mipmap_lvl as int, tile_index as int) && samples@.len()
                != old(self).spec_samples_len(mipmap_lvl as int, tile_pos) ==> r == Result::<
                (),
                TextureError,
            >::Err(TextureError::UnsupportedFormat) && *final(self) == *old(self),
            final(self).tile_is_loaded(mipmap_lvl as int, tile_index as int) <==> old(
                self,
            ).tile_is_loaded(mipmap_lvl as int, tile_index as int) || samples@.len() == old(
                self,
            ).spec_samples_len(mipmap_lvl as int, tile_pos),
    {
        proof {
            let m = old(self).mipmaps@[mipmap_lvl as int];
            lemma_tile_index_in_grid(
                m.tiles_n.0 as int,
                m.tiles_n.1 as int,
                tile_pos.0 as int,
                tile_pos.1 as int,
            );
        }
        if self.mipmaps[mipmap_lvl].tiles[tile_index].is_some() {
            return Result::Ok(());
        }
        let f = self.tile_footprint(mipmap_lvl, tile_pos);
        proof {
            assert(f.0 * f.1 * 4 <= 16384) by (nonlinear_arith)
                requires
                    1 <= f.0 <= 64,
                    1 <= f.1 <= 64,
            ;
        }
        if samples.len() != f.0 * f.1 * 4 {
            return Result::Err(TextureError::UnsupportedFormat);
        }
        self.mipmaps[mipmap_lvl].tiles[tile_index] = Some(Tile { tile_size: f, pixels: samples });
        proof {
            let oldm = old(self).mipmaps@[mipmap_lvl as int];
            let newm = self.mipmaps@[mipmap_lvl as int];
            assert(newm.resolution == oldm.resolution && newm.tiles_n == oldm.tiles_n
                && newm.tiles_size == oldm.tiles_size);
            assert(newm.tiles@ == oldm.tiles@.update(
                tile_index as int,
                Some(Tile { tile_size: f, pixels: samples }),
            ));
            assert forall|k: int| 0 <= k < newm.tiles@.len() implies tile_slot_wf(
                #[trigger] newm.tiles@[k],
                newm.resolution,
                newm.tiles_n.0 as int,
                k,
            ) by {
                if k == tile_index as int {
                    assert(k % newm.tiles_n.0 as int == tile_pos.0 as int);
                    assert(k / newm.tiles_n.0 as int == tile_pos.1 as int);
                } else {
                    assert(tile_slot_wf(
                        oldm.tiles@[k],
                        oldm.resolution,
                        oldm.tiles_n.0 as int,
                        k,
                    ));
                }
            }
            assert(newm.wf());
            assert(self.mipmaps@ == old(self).mipmaps@.update(mipmap_lvl as int, newm));
            assert forall|l: int| 0 <= l < self.mipmaps@.len() implies (
            #[trigger] self.mipmaps@[l]).wf() by {
                if l != mipmap_lvl as int {
                    assert(self.mipmaps@[l] == old(self).mipmaps@[l]);
                }
            }
            assert forall|l: int| 1 <= l < self.mipmaps@.len() implies is_halving(
                self.mipmaps@[l - 1].resolution,
                (#[trigger] self.mipmaps@[l]).resolution,
            ) by {
                assert(self.mipmaps@[l].resolution == old(self).mipmaps@[l].resolution);
                assert(self.mipmaps@[l - 1].resolution == old(self).mipmaps@[l - 1].resolution);
            }
            assert forall|l: int| 0 <= l < self.mipmaps@.len() - 1 implies (
            #[trigger] self.mipmaps@[l]).resolution != (1usize, 1usize) by {
                assert(self.mipmaps@[l].resolution == old(self).mipmaps@[l].resolution);
            }
            assert(self.mipmaps@[self.mipmaps@.len() - 1].resolution == (1usize, 1usize));
            assert(self.wf());
        }
        Result::Ok(())
    }

    /// The arguments address a pixel inside a loaded tile: the grid
    /// coordinate and slot index agree with each other, the slot is
    /// resident, and the pixel position falls inside that tile's true
    /// footprint.
    pub open spec fn can_sample(
        self,
        pixel_pos: (usize, usize),
        mipmap_lvl: int,
        tile_pos: (usize, usize),
        tile_index: int,
    ) -> bool {
        let m = self.mipmaps@[mipmap_lvl];
        &&& tile_pos.0 < m.tiles_n.0
        &&& tile_pos.1 < m.tiles_n.1
        &&& tile_index == self.tile_index_at(mipmap_lvl, (tile_pos.0 as int, tile_pos.1 as int))
        &&& self.tile_is_loaded(mipmap_lvl, tile_index)
        &&& tile_pos.0 * 64 <= pixel_pos.0
        &&& tile_pos.1 * 64 <= pixel_pos.1
        &&& pixel_pos.0 - tile_pos.0 * 64 < m.tiles@[tile_index]->Some_0.tile_size.0
        &&& pixel_pos.1 - tile_pos.1 * 64 < m.tiles@[tile_index]->Some_0.tile_size.1
    }

    /// The four channel bit patterns of the addressed pixel: the pixel's
    /// offset inside its tile selects four consecutive values of the
    /// tile's interleaved buffer.
    pub open spec fn spec_sample(
        self,
        pixel_pos: (usize, usize),
        mipmap_lvl: int,
        tile_pos: (usize, usize),
        tile_index: int,
    ) -> Rgba {
        let t = self.mipmaps@[mipmap_lvl].tiles@[tile_index]->Some_0;
        let local_x = pixel_pos.0 - tile_pos.0 * 64;
        let local_y = pixel_pos.1 - tile_pos.1 * 64;
        let base = (local_x + local_y * t.tile_size.0) * 4;
        Rgba {
            r: t.pixels@[base],
            g: t.pixels@[base + 1],
            b: t.pixels@[base + 2],
            a: t.pixels@[base + 3],
        }
    }

    /// Read one pixel out of an already loaded tile; no filtering, no mip
    /// blending.  A level index past the end of the pyramid reads as
    /// all-zero channels, mirroring the query surface; for a level inside
    /// the pyramid the addressed tile must be resident and the pixel
    /// inside its footprint.
    pub fn sample(
        &self,
        pixel_pos: (usize, usize),
        mipmap_lvl: usize,
        tile_pos: (usize, usize),
        tile_index: usize,
    ) -> (rgba: Rgba)
        requires
            self.wf(),
            mipmap_lvl < self.mipmaps@.len() ==> self.can_sample(
                pixel_pos,
                mipmap_lvl as int,
                tile_pos,
                tile_index as int,
            ),
        ensures
            mipmap_lvl >= self.mipmaps@.len() ==> rgba == (Rgba { r: 0, g: 0, b: 0, a: 0 }),
            mipmap_lvl < self.mipmaps@.len() ==> rgba == self.spec_sample(
                pixel_pos,
                mipmap_lvl as int,
                tile_pos,
                tile_index as int,
            ),
    {
        if mipmap_lvl >= self.mipmaps.len() {
            return Rgba { r: 0, g: 0, b: 0, a: 0 };
        }
        let m = &self.mipmaps[mipmap_lvl];
        proof {
            lemma_tile_index_in_grid(
                m.tiles_n.0 as int,
                m.tiles_n.1 as int,
                tile_pos.0 as int,
                tile_pos.1 as int,
            );
        }
        let local_x = pixel_pos.0 - tile_pos.0 * 64;
        let local_y = pixel_pos.1 - tile_pos.1 * 64;
        match &m.tiles[tile_index] {
            Option::Some(t) => {
                let sx = t.tile_size.0;
                let sy = t.tile_size.1;
                let plen = t.pixels.len();
                proof {
                    assert(m.wf());
                    assert(tile_slot_wf(
                        m.tiles@[tile_index as int],
                        m.resolution,
                        m.tiles_n.0 as int,
                        tile_index as int,
                    ));
                    assert(plen == sx * sy * 4);
                    assert((local_x + local_y * sx) * 4 + 3 < plen) by (nonlinear_arith)
                        requires
                            local_x < sx,
                            local_y < sy,
                            plen == sx * sy * 4,
                    ;
                }
                let base = (local_x + local_y * sx) * 4;
                Rgba {
                    r: t.pixels[base],
                    g: t.pixels[base + 1],
                    b: t.pixels[base + 2],
                    a: t.pixels[base + 3],
                }
            },
            Option::None => unreached(),
        }
    }
}

/// Resolution of level `l` of a pyramid over the given base resolution:
/// the base taken through `l` halving steps.
pub open spec fn level_resolution(resolution: (usize, usize), l: int) -> (int, int)
    decreases l,
{
    if l <= 0 {
        (resolution.0 as int, resolution.1 as int)
    } else {
        (
            half_extent(level_resolution(resolution, l - 1).0),
            half_extent(level_resolution(resolution, l - 1).1),
        )
    }
}

/// Law: in a well-formed texture, level `l` is exactly `l` halving steps
/// below the base resolution.
pub proof fn lemma_level_resolution(t: Texture, l: int)
    requires
        t.wf(),
        0 <= l < t.mipmaps@.len(),
    ensures
        (t.mipmaps@[l].resolution.0 as int, t.mipmaps@[l].resolution.1 as int)
            == level_resolution(t.resolution, l),
    decreases l,
{
    if l > 0 {
        lemma_level_resolution(t, l - 1);
    }
}

/// Grid coordinate of the tile containing a pixel position: pixel
/// position divided by the tile edge, per axis.
pub open spec fn tile_coord_of(pixel_pos: (usize, usize)) -> (int, int) {
    (pixel_pos.0 as int / 64, pixel_pos.1 as int / 64)
}

/// A grid position inside the grid shape yields a slot index inside the
/// slot vector, and the index determines the position again.
pub proof fn lemma_tile_index_in_grid(nx: int, ny: int, tx: int, ty: int)
    requires
        0 <= tx < nx,
        0 <= ty < ny,
    ensures
        0 <= tx + ty * nx < nx * ny,
        (tx + ty * nx) % nx == tx,
        (tx + ty * nx) / nx == ty,
{
    assert(tx + ty * nx < nx * ny) by (nonlinear_arith)
        requires
            0 <= tx < nx,
            0 <= ty < ny,
    ;
    lemma_fundamental_div_mod_converse_mod(tx + ty * nx, nx, ty, tx);
    lemma_fundamental_div_mod_converse_div(tx + ty * nx, nx, ty, tx);
}

/// Law: the slot index of a query is the tile column plus the tile row
/// times the tiles-per-row of the level, so two pixel positions that fall
/// into the same 64 x 64 region of one level address the same slot.
pub proof fn lemma_same_region_same_tile(
    t: Texture,
    p1: (usize, usize),
    p2: (usize, usize),
    mipmap_lvl: int,
)
    requires
        tile_coord_of(p1) == tile_coord_of(p2),
    ensures
        t.tile_index_at(mipmap_lvl, tile_coord_of(p1)) == t.tile_index_at(
            mipmap_lvl,
            tile_coord_of(p2),
        ),
{
}

/// Law: a pixel position that falls inside a tile's true footprint
/// addresses exactly that tile — its grid coordinate is the tile's
/// position, so a residency query, a load and a sample for that pixel all
/// speak of the same slot.
pub proof fn lemma_pixel_addresses_its_tile(
    t: Texture,
    pixel_pos: (usize, usize),
    mipmap_lvl: int,
    tile_pos: (usize, usize),
)
    requires
        t.wf(),
        0 <= mipmap_lvl < t.mipmaps@.len(),
        tile_pos.0 < t.mipmaps@[mipmap_lvl].tiles_n.0,
        tile_pos.1 < t.mipmaps@[mipmap_lvl].tiles_n.1,
        tile_pos.0 * 64 <= pixel_pos.0,
        tile_pos.1 * 64 <= pixel_pos.1,
        pixel_pos.0 - tile_pos.0 * 64 < t.mipmaps@[mipmap_lvl].spec_footprint(tile_pos).0,
        pixel_pos.1 - tile_pos.1 * 64 < t.mipmaps@[mipmap_lvl].spec_footprint(tile_pos).1,
    ensures
        tile_coord_of(pixel_pos) == (tile_pos.0 as int, tile_pos.1 as int),
{
    lemma_fundamental_div_mod_converse_div(
        pixel_pos.0 as int,
        64,
        tile_pos.0 as int,
        pixel_pos.0 - tile_pos.0 * 64,
    );
    lemma_fundamental_div_mod_converse_div(
        pixel_pos.1 as int,
        64,
        tile_pos.1 as int,
        pixel_pos.1 - tile_pos.1 * 64,
    );
}

/// Law: on an axis whose resolution the tile edge does not divide evenly,
/// the last tile of a level covers only the remainder `resolution % 64`;
/// on an axis it divides evenly, the last tile is a full tile edge wide.
pub proof fn lemma_edge_tile_footprint(m: MipMap)
    requires
        m.wf(),
    ensures
        ({
            let fp = m.spec_footprint(((m.tiles_n.0 - 1) as usize, (m.tiles_n.1 - 1) as usize));
            &&& fp.0 == if m.resolution.0 as int % 64 == 0 {
                64int
            } else {
                m.resolution.0 as int % 64
            }
            &&& fp.1 == if m.resolution.1 as int % 64 == 0 {
                64int
            } else {
                m.resolution.1 as int % 64
            }
        }),
{
    lemma_last_tile_extent(m.resolution.0 as int);
    lemma_last_tile_extent(m.resolution.1 as int);
}

} // verus!
