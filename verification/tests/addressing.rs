use muskox::texture::{MipMap, Rgba, Texture, TextureError};

fn flat_samples(value: f32, count: usize) -> Vec<u32> {
    vec![value.to_bits(); count]
}

#[test]
fn pyramid_levels_pow2() {
    let t = Texture::new("grid.tx".to_string(), (256, 256));
    assert_eq!(t.resolution, (256, 256));
    assert_eq!(t.mipmaps.len(), 9);
    let expected = [256, 128, 64, 32, 16, 8, 4, 2, 1];
    for (level, e) in expected.iter().enumerate() {
        assert_eq!(t.mipmaps[level].resolution, (*e, *e));
    }
    assert_eq!(t.mipmaps[0].tiles_n, (4, 4));
    assert_eq!(t.mipmaps[0].tiles.len(), 16);
    assert_eq!(t.mipmaps[8].tiles_n, (1, 1));
}

#[test]
fn pyramid_levels_odd() {
    let t = Texture::new("odd.tx".to_string(), (100, 60));
    let expected = [(100, 60), (50, 30), (25, 15), (12, 7), (6, 3), (3, 1), (1, 1)];
    assert_eq!(t.mipmaps.len(), expected.len());
    for (level, e) in expected.iter().enumerate() {
        assert_eq!(t.mipmaps[level].resolution, *e);
    }
}

#[test]
fn mipmap_empty_grid() {
    let m = MipMap::empty((130, 64));
    assert_eq!(m.resolution, (130, 64));
    assert_eq!(m.tiles_size, (64, 64));
    assert_eq!(m.tiles_n, (3, 1));
    assert_eq!(m.tiles.len(), 3);
    assert!(m.tiles.iter().all(|t| t.is_none()));
}

#[test]
fn tile_index_formula() {
    let t = Texture::new("t.tx".to_string(), (200, 200));
    assert_eq!(t.mipmaps[0].tiles_n, (4, 4));
    let (loaded, pos, index) = t.tile_loaded((70, 130), 0);
    assert!(!loaded);
    assert_eq!(pos, (1, 2));
    assert_eq!(index, 1 + 2 * 4);
}

#[test]
fn same_region_same_index() {
    let t = Texture::new("t.tx".to_string(), (200, 200));
    let (_, pos_a, index_a) = t.tile_loaded((70, 130), 0);
    let (_, pos_b, index_b) = t.tile_loaded((100, 180), 0);
    assert_eq!(pos_a, pos_b);
    assert_eq!(index_a, index_b);
}

#[test]
fn tile_footprint_edge() {
    let t = Texture::new("t.tx".to_string(), (100, 128));
    assert_eq!(t.mipmaps[0].tiles_n, (2, 2));
    // 100 % 64 == 36 on the overhung axis; 128 divides evenly.
    assert_eq!(t.tile_footprint(0, (1, 1)), (36, 64));
    assert_eq!(t.tile_footprint(0, (0, 0)), (64, 64));
}

#[test]
fn load_then_sample_flat_color() {
    let mut t = Texture::new("flat.tx".to_string(), (100, 100));
    let samples = flat_samples(0.5, 36 * 36 * 4);
    let r = t.tile_load(0, 1 + 1 * 2, (1, 1), samples);
    assert_eq!(r, Ok(()));
    let (loaded, pos, index) = t.tile_loaded((70, 70), 0);
    assert!(loaded);
    assert_eq!(pos, (1, 1));
    assert_eq!(index, 3);
    let rgba = t.sample((70, 70), 0, pos, index);
    let half = 0.5f32.to_bits();
    assert_eq!(rgba, Rgba { r: half, g: half, b: half, a: half });
    // Every pixel of the tile's true footprint reads the same color.
    for py in 64..100 {
        for px in 64..100 {
            let rgba = t.sample((px, py), 0, pos, index);
            assert_eq!(rgba, Rgba { r: half, g: half, b: half, a: half });
        }
    }
}

#[test]
fn sample_reads_interleaved_buffer() {
    let mut t = Texture::new("ramp.tx".to_string(), (64, 64));
    // One full tile; pixel (x, y) gets channel values encoding its index.
    let mut samples: Vec<u32> = Vec::with_capacity(64 * 64 * 4);
    for i in 0..(64 * 64) {
        samples.push(i as u32);
        samples.push(i as u32 + 1_000_000);
        samples.push(i as u32 + 2_000_000);
        samples.push(i as u32 + 3_000_000);
    }
    assert_eq!(t.tile_load(0, 0, (0, 0), samples), Ok(()));
    // pixel (5, 3): linear index 5 + 3 * 64.
    let rgba = t.sample((5, 3), 0, (0, 0), 0);
    let i = (5 + 3 * 64) as u32;
    assert_eq!(rgba, Rgba { r: i, g: i + 1_000_000, b: i + 2_000_000, a: i + 3_000_000 });
}

#[test]
fn tile_load_idempotent() {
    let mut t = Texture::new("idem.tx".to_string(), (64, 64));
    let first = flat_samples(0.25, 64 * 64 * 4);
    let second = flat_samples(0.75, 64 * 64 * 4);
    assert_eq!(t.tile_load(0, 0, (0, 0), first), Ok(()));
    // The second load of the same tile is a no-op, whatever it carries.
    assert_eq!(t.tile_load(0, 0, (0, 0), second), Ok(()));
    let rgba = t.sample((10, 10), 0, (0, 0), 0);
    assert_eq!(rgba.r, 0.25f32.to_bits());
}

#[test]
fn tile_load_rejects_wrong_length() {
    let mut t = Texture::new("bad.tx".to_string(), (100, 100));
    // Tile (1, 1) has footprint 36 x 36; hand it a full-tile buffer.
    let samples = flat_samples(1.0, 64 * 64 * 4);
    let r = t.tile_load(0, 3, (1, 1), samples);
    assert_eq!(r, Err(TextureError::UnsupportedFormat));
    let (loaded, _, _) = t.tile_loaded((70, 70), 0);
    assert!(!loaded);
}

#[test]
fn sample_out_of_range_level_is_zero() {
    let t = Texture::new("z.tx".to_string(), (64, 64));
    let rgba = t.sample((0, 0), 99, (0, 0), 0);
    assert_eq!(rgba, Rgba { r: 0, g: 0, b: 0, a: 0 });
}

#[test]
fn coarse_levels_address_independently() {
    let mut t = Texture::new("mip.tx".to_string(), (256, 256));
    // Level 2 is 64 x 64: one tile.
    let samples = flat_samples(0.125, 64 * 64 * 4);
    assert_eq!(t.tile_load(2, 0, (0, 0), samples), Ok(()));
    let (loaded0, _, _) = t.tile_loaded((10, 10), 0);
    let (loaded2, pos2, index2) = t.tile_loaded((10, 10), 2);
    assert!(!loaded0);
    assert!(loaded2);
    let rgba = t.sample((10, 10), 2, pos2, index2);
    assert_eq!(rgba.b, 0.125f32.to_bits());
}
