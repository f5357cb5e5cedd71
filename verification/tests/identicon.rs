use identicon::color::{generate_color, Color};
use identicon::pattern::generate_pattern;
use identicon::raster::{create_identicon, ConfigError};
use sha2::{Digest, Sha256};

fn digest_of(seed: &str) -> Vec<u8> {
    Sha256::digest(seed.as_bytes()).to_vec()
}

fn banded(v: u8) -> u8 {
    (50 + (v as u32) * 150 / 255) as u8
}

fn white() -> Color {
    Color { r: 255, g: 255, b: 255 }
}

#[test]
fn determinism_same_inputs_identical_buffers() {
    for seed in ["alice", "bob", "", "日本語"] {
        let a = create_identicon(seed, 100, 5, 8).unwrap();
        let b = create_identicon(seed, 100, 5, 8).unwrap();
        assert_eq!(a.size, b.size);
        assert_eq!(a.pixels, b.pixels);
    }
}

#[test]
fn mirror_symmetry_odd_grid() {
    let hash = digest_of("alice");
    let pat = generate_pattern(&hash, 5);
    assert_eq!(pat.len(), 5);
    for row in &pat {
        assert_eq!(row.len(), 5);
    }
    for y in 0..5 {
        for x in 0..5 {
            assert_eq!(pat[y][x], pat[y][4 - x]);
        }
    }
}

#[test]
fn mirror_symmetry_even_grid() {
    for seed in ["alice", "bob", "carol"] {
        let hash = digest_of(seed);
        let pat = generate_pattern(&hash, 6);
        for y in 0..6 {
            for x in 0..6 {
                assert_eq!(pat[y][x], pat[y][5 - x]);
            }
        }
    }
}

#[test]
fn pattern_bits_follow_digest_lsb_first() {
    // One fixed byte everywhere makes every consumed bit predictable:
    // bits of 0b1011_0100 from the least significant end are 0,0,1,0,1,1,0,1.
    let hash = vec![0b1011_0100u8; 32];
    let pat = generate_pattern(&hash, 4);
    // half width 2: row 0 takes bits 0,1; row 1 bits 2,3; row 2 bits 4,5; row 3 bits 6,7
    let expected_left = [[false, false], [true, false], [true, true], [false, true]];
    for y in 0..4 {
        for x in 0..2 {
            assert_eq!(pat[y][x], expected_left[y][x]);
            assert_eq!(pat[y][3 - x], expected_left[y][x]);
        }
    }
}

#[test]
fn color_channels_stay_inside_brightness_band() {
    for seed in ["alice", "bob", "", "x", "a long seed with spaces"] {
        let c = generate_color(&digest_of(seed));
        for ch in [c.r, c.g, c.b] {
            assert!((50..=200).contains(&ch));
        }
    }
}

#[test]
fn color_exact_formula_on_fixed_bytes() {
    let c = generate_color(&vec![0u8, 255u8, 128u8]);
    assert_eq!(c, Color { r: 50, g: 200, b: 125 });
    let c2 = generate_color(&vec![255u8, 255u8, 255u8]);
    assert_eq!(c2, Color { r: 200, g: 200, b: 200 });
    let c3 = generate_color(&vec![0u8, 0u8, 0u8]);
    assert_eq!(c3, Color { r: 50, g: 50, b: 50 });
}

#[test]
fn color_derived_from_real_digest() {
    // Fails if the seed were not actually hashed with SHA-256.
    let d = digest_of("alice");
    let c = generate_color(&d);
    assert_eq!(c, Color { r: banded(d[0]), g: banded(d[1]), b: banded(d[2]) });
}

#[test]
fn coverage_every_pixel_white_or_derived_color() {
    let d = digest_of("alice");
    let fill = Color { r: banded(d[0]), g: banded(d[1]), b: banded(d[2]) };
    let canvas = create_identicon("alice", 100, 5, 8).unwrap();
    assert_eq!(canvas.pixels.len(), 100 * 100);
    for px in &canvas.pixels {
        assert!(*px == white() || *px == fill);
    }
}

#[test]
fn painted_pixels_stay_inside_centered_grid() {
    // size 100, grid 5, padding 8%: margin 8, drawable 84, cell 16,
    // leftover 4 split as offset 10; grid spans [10, 90) on both axes.
    let canvas = create_identicon("alice", 100, 5, 8).unwrap();
    for y in 0..100u32 {
        for x in 0..100u32 {
            let px = canvas.pixel(x, y);
            if px != white() {
                assert!((10..90).contains(&x) && (10..90).contains(&y));
            }
        }
    }
    // The two gaps inside the drawable region [8, 92) are 2 and 2.
    assert_eq!(10 - 8, 92 - 90);
}

#[test]
fn cell_blocks_match_pattern() {
    // Every pixel of the block of cell (row, col) has the cell's color.
    let d = digest_of("bob");
    let fill = Color { r: banded(d[0]), g: banded(d[1]), b: banded(d[2]) };
    let pat = generate_pattern(&d, 5);
    let canvas = create_identicon("bob", 100, 5, 8).unwrap();
    for row in 0..5u32 {
        for col in 0..5u32 {
            for dy in 0..16u32 {
                for dx in 0..16u32 {
                    let x = 10 + col * 16 + dx;
                    let y = 10 + row * 16 + dy;
                    let expected = if pat[row as usize][col as usize] { fill } else { white() };
                    assert_eq!(canvas.pixel(x, y), expected);
                }
            }
        }
    }
}

#[test]
fn image_is_mirror_symmetric() {
    // layout for (100, 5, 8): offset 10, cell 16, grid span [10, 90),
    // whose center line is also the canvas center line.
    let canvas = create_identicon("alice", 100, 5, 8).unwrap();
    for y in 0..100u32 {
        for x in 0..100u32 {
            assert_eq!(canvas.pixel(x, y), canvas.pixel(99 - x, y));
        }
    }
}

#[test]
fn empty_seed_is_valid() {
    let a = create_identicon("", 100, 5, 8).unwrap();
    let b = create_identicon("", 100, 5, 8).unwrap();
    assert_eq!(a.pixels, b.pixels);
    let d = digest_of("");
    let c = generate_color(&d);
    assert_eq!(c, Color { r: banded(d[0]), g: banded(d[1]), b: banded(d[2]) });
}

#[test]
fn digest_exhaustion_leaves_trailing_cells_unfilled() {
    // A grid of 25 needs 25 * 13 = 325 bits but 29 digest bytes hold only
    // 232; cells from bit index 232 on stay unfilled, on every run.
    let hash = vec![0xffu8; 32];
    let pat = generate_pattern(&hash, 25);
    // bit 231 is the last available one: left cell (17, 10)
    assert!(pat[17][10]);
    assert!(pat[17][14]); // its mirror
    // left cells (17, 11) and (17, 12) are past the end
    assert!(!pat[17][11]);
    assert!(!pat[17][12]);
    assert!(!pat[17][13]); // mirror of (17, 11)
    for y in 18..25 {
        for x in 0..25 {
            assert!(!pat[y][x]);
        }
    }
    // Every cell before the exhaustion point was set from an all-ones byte.
    for y in 0..17 {
        for x in 0..25 {
            assert!(pat[y][x]);
        }
    }
    let again = generate_pattern(&vec![0xffu8; 32], 25);
    assert_eq!(pat, again);
}

#[test]
fn exhaustion_on_real_digest_is_deterministic() {
    let hash = digest_of("alice");
    let a = generate_pattern(&hash, 25);
    let b = generate_pattern(&hash, 25);
    assert_eq!(a, b);
    for y in 18..25 {
        for x in 0..25 {
            assert!(!a[y][x]);
        }
    }
}

#[test]
fn grid_fifteen_uses_digest_within_bounds() {
    // 15 rows of 8 left-half cells need 120 bits, well inside the 232
    // available: the whole grid is digest-driven and symmetric.
    let hash = digest_of("alice");
    let pat = generate_pattern(&hash, 15);
    assert_eq!(pat.len(), 15);
    for y in 0..15 {
        for x in 0..15 {
            assert_eq!(pat[y][x], pat[y][14 - x]);
        }
    }
}

#[test]
fn too_much_padding_is_rejected() {
    let r = create_identicon("alice", 10, 3, 50);
    assert_eq!(r.unwrap_err(), ConfigError::EmptyDrawable);
    let r2 = create_identicon("alice", 0, 3, 0);
    assert_eq!(r2.unwrap_err(), ConfigError::EmptyDrawable);
}

#[test]
fn oversized_grid_is_rejected() {
    let r = create_identicon("alice", 100, 200, 0);
    assert_eq!(r.unwrap_err(), ConfigError::EmptyCell);
    let r2 = create_identicon("alice", 100, 0, 0);
    assert_eq!(r2.unwrap_err(), ConfigError::EmptyCell);
}

#[test]
fn boundary_configurations_render() {
    // smallest and largest recommended sizes
    let small = create_identicon("alice", 50, 15, 25).unwrap();
    assert_eq!(small.pixels.len(), 50 * 50);
    let large = create_identicon("alice", 2000, 3, 0).unwrap();
    assert_eq!(large.pixels.len(), 2000 * 2000);
}
