//! Rasterization: the pattern grid is painted as square cell blocks onto a
//! white canvas, centered inside the drawable region left by the padding.

use crate::color::{color_spec, generate_color, white, Color};
use crate::digest::{hash_seed, sha256_of};
use crate::pattern::{generate_pattern, pattern_cell};
use vstd::arithmetic::div_mod::{
    lemma_div_pos_is_pos, lemma_fundamental_div_mod, lemma_fundamental_div_mod_converse,
    lemma_mod_bound, lemma_multiply_divide_lt,
};
use vstd::prelude::*;

verus! {

/// The outer margin in pixels: `S * P / 100`, truncated.
pub open spec fn margin_spec(s: int, p: int) -> int {
    s * p / 100
}

/// The side length of the drawable region once both margins are taken out.
pub open spec fn drawable_spec(s: int, p: int) -> int {
    s - 2 * margin_spec(s, p)
}

/// The side length of one cell block: the drawable side divided by the
/// grid side, truncated.
pub open spec fn cell_size_spec(s: int, g: int, p: int) -> int
    recommends
        g >= 1,
{
    drawable_spec(s, p) / g
}

/// The offset of the rendered grid from the canvas edge on both axes: the
/// margin plus half of the leftover that cell-size truncation produced.
pub open spec fn offset_spec(s: int, g: int, p: int) -> int
    recommends
        g >= 1,
{
    margin_spec(s, p) + (drawable_spec(s, p) - cell_size_spec(s, g, p) * g) / 2
}

/// A configuration can be rendered when the drawable region and the cell
/// blocks are at least one pixel wide.
pub open spec fn valid_config(s: int, g: int, p: int) -> bool {
    g >= 1 && drawable_spec(s, p) >= 1 && cell_size_spec(s, g, p) >= 1
}

/// Whether pixel `(x, y)` lies inside the block of a filled grid cell,
/// for a grid rendered with offset `off` and cell side `cs`.
pub open spec fn painted_spec(hash: Seq<u8>, g: int, off: int, cs: int, x: int, y: int) -> bool {
    &&& off <= x < off + g * cs
    &&& off <= y < off + g * cs
    &&& pattern_cell(hash, g, (y - off) / cs, (x - off) / cs)
}

/// The color of pixel `(x, y)`: the derived color inside a filled cell
/// block, the white background everywhere else.
pub open spec fn pixel_spec(hash: Seq<u8>, g: int, off: int, cs: int, x: int, y: int) -> Color {
    if painted_spec(hash, g, off, cs, x, y) {
        color_spec(hash)
    } else {
        white()
    }
}

/// The full identicon for a seed and a configuration: a row-major square
/// pixel buffer of side `s`.
pub open spec fn identicon_spec(seed: Seq<char>, s: u32, g: u32, p: u32) -> Seq<Color>
    recommends
        valid_config(s as int, g as int, p as int),
{
    Seq::new(
        ((s as nat) * (s as nat)) as nat,
        |i: int|
            pixel_spec(
                sha256_of(seed),
                g as int,
                offset_spec(s as int, g as int, p as int),
                cell_size_spec(s as int, g as int, p as int),
                i % (s as int),
                i / (s as int),
            ),
    )
}

/// The rejected configurations: a padding that consumes the whole canvas,
/// or a drawable region too small to give every cell at least one pixel.
#[derive(Clone, Copy, Debug, PartialEq, Eq, Structural)]
pub enum ConfigError {
    /// The margins meet or cross: no drawable pixel is left.
    EmptyDrawable,
    /// The grid does not fit: a cell block would be zero pixels wide.
    EmptyCell,
}

/// A square RGB pixel buffer, stored row-major.
#[derive(Debug)]
pub struct Canvas {
    /// Side length of the canvas in pixels.
    pub size: u32,
    /// Row-major pixels; index `y * size + x` holds pixel `(x, y)`.
    pub pixels: Vec<Color>,
}

impl Canvas {
    /// The buffer holds exactly one pixel per canvas coordinate.
    pub open spec fn wf(&self) -> bool {
        self.pixels@.len() == (self.size as int) * (self.size as int)
    }

    /// Reads the pixel at `(x, y)`.
    pub fn pixel(&self, x: u32, y: u32) -> (c: Color)
        requires
            self.wf(),
            x < self.size,
            y < self.size,
        ensures
            c == self.pixels@[(y as int) * (self.size as int) + (x as int)],
    {
        // the vector's length bounds the index by usize::MAX
        let n: usize = self.pixels.len();
        proof {
            assert((y as int) * (self.size as int) + (x as int) < (self.size as int) * (
            self.size as int)) by (nonlinear_arith)
                requires
                    y < self.size,
                    x < self.size,
            ;
        }
        self.pixels[(y as usize) * (self.size as usize) + (x as usize)]
    }
}

/// Paints the pattern onto a fresh canvas of side `s`: every pixel of a
/// filled cell block gets `color`, every other pixel stays white.
#[verifier::loop_isolation(false)]
fn rasterize(
    color: Color,
    pattern: &Vec<Vec<bool>>,
    s: u32,
    g: u32,
    off: u32,
    cs: u32,
    Ghost(hash): Ghost<Seq<u8>>,
) -> (pix: Vec<Color>)
    requires
        g >= 1,
        cs >= 1,
        off + (cs as int) * (g as int) <= s,
        (s as int) * (s as int) <= usize::MAX,
        hash.len() >= 3,
        color == color_spec(hash),
        pattern@.len() == g,
        forall|y: int| 0 <= y < g ==> (#[trigger] pattern@[y])@.len() == g,
        forall|y: int, x: int|
            0 <= y < g && 0 <= x < g ==> (#[trigger] pattern@[y]@[x])
                == pattern_cell(hash, g as int, y, x),
    ensures
        pix@.len() == (s as int) * (s as int),
        forall|i: int|
            0 <= i < pix@.len() ==> (#[trigger] pix@[i])
                == pixel_spec(hash, g as int, off as int, cs as int, i % (s as int), i / (s as int)),
{
    let mut pix: Vec<Color> = Vec::new();
    proof {
        assert((cs as int) * (g as int) >= 0) by (nonlinear_arith)
            requires
                cs >= 0,
                g >= 0,
        ;
    }
    let grid_end: u32 = off + cs * g;
    let mut y: u32 = 0;
    while y < s
        invariant
            y <= s,
            pix@.len() == (y as int) * (s as int),
            forall|i: int|
                0 <= i < pix@.len() ==> (#[trigger] pix@[i])
                    == pixel_spec(
                    hash,
                    g as int,
                    off as int,
                    cs as int,
                    i % (s as int),
                    i / (s as int),
                ),
        decreases s - y,
    {
        let mut x: u32 = 0;
        while x < s
            invariant
                x <= s,
                y < s,
                pix@.len() == (y as int) * (s as int) + (x as int),
                forall|i: int|
                    0 <= i < pix@.len() ==> (#[trigger] pix@[i])
                        == pixel_spec(
                        hash,
                        g as int,
                        off as int,
                        cs as int,
                        i % (s as int),
                        i / (s as int),
                    ),
            decreases s - x,
        {
            let c: Color = if x >= off && x < grid_end && y >= off && y < grid_end {
                let col: u32 = (x - off) / cs;
                let row: u32 = (y - off) / cs;
                proof {
                    lemma_multiply_divide_lt((x - off) as int, cs as int, g as int);
                    lemma_multiply_divide_lt((y - off) as int, cs as int, g as int);
                }
                if pattern[row as usize][col as usize] {
                    color
                } else {
                    Color { r: 255, g: 255, b: 255 }
                }
            } else {
                Color { r: 255, g: 255, b: 255 }
            };
            proof {
                let i: int = (y as int) * (s as int) + (x as int);
                lemma_fundamental_div_mod_converse(i, s as int, y as int, x as int);
                assert(i < (s as int) * (s as int)) by (nonlinear_arith)
                    requires
                        y < s,
                        x < s,
                        i == (y as int) * (s as int) + (x as int),
                ;
                assert(c == pixel_spec(hash, g as int, off as int, cs as int, x as int, y as int));
            }
            pix.push(c);
            x = x + 1;
        }
        proof {
            assert((y as int) * (s as int) + (s as int) == ((y as int) + 1) * (s as int))
                by (nonlinear_arith);
        }
        y = y + 1;
    }
    pix
}

/// Generates the identicon for `seed`: the seed is hashed, the color and
/// the symmetric pattern grid are derived from the digest, and the grid is
/// rasterized onto an `image_size` x `image_size` white canvas with a
/// margin of `padding_percent` percent on every side.
///
/// Returns a configuration error, and only then, when the margins leave no
/// drawable pixel or a cell block would be zero pixels wide.
pub fn create_identicon(
    seed: &str,
    image_size: u32,
    grid_size: u32,
    padding_percent: u32,
) -> (r: Result<Canvas, ConfigError>)
    requires
        padding_percent <= 100,
        (image_size as int) * (image_size as int) <= usize::MAX,
    ensures
        r is Ok <==> valid_config(image_size as int, grid_size as int, padding_percent as int),
        r matches Ok(c) ==> c.size == image_size && c.wf() && c.pixels@ == identicon_spec(
            seed@,
            image_size,
            grid_size,
            padding_percent,
        ),
        r matches Err(e) ==> (e == ConfigError::EmptyDrawable <==> drawable_spec(
            image_size as int,
            padding_percent as int,
        ) < 1),
        r matches Err(e) ==> (e == ConfigError::EmptyCell <==> drawable_spec(
            image_size as int,
            padding_percent as int,
        ) >= 1 && (grid_size == 0 || cell_size_spec(
            image_size as int,
            grid_size as int,
            padding_percent as int,
        ) < 1)),
{
    let s = image_size;
    let g = grid_size;
    let p = padding_percent;

    let hash = hash_seed(seed);
    let color = generate_color(&hash);
    let pattern = generate_pattern(&hash, g);

    proof {
        assert(0 <= (s as int) * (p as int) <= (s as int) * 100) by (nonlinear_arith)
            requires
                0 <= p <= 100,
                s >= 0,
        ;
    }
    let margin64: u64 = (s as u64) * (p as u64) / 100;
    proof {
        assert((s as int) * (p as int) / 100 <= (s as int) * 100 / 100) by (nonlinear_arith)
            requires
                (s as int) * (p as int) <= (s as int) * 100,
        ;
        assert((s as int) * 100 / 100 == s as int) by (nonlinear_arith);
    }
    let margin: u32 = margin64 as u32;

    if 2 * (margin as u64) >= (s as u64) {
        return Err(ConfigError::EmptyDrawable);
    }
    let drawable: u32 = s - 2 * margin;
    if g == 0 {
        return Err(ConfigError::EmptyCell);
    }
    let cell: u32 = drawable / g;
    if cell == 0 {
        return Err(ConfigError::EmptyCell);
    }
    proof {
        lemma_fundamental_div_mod(drawable as int, g as int);
        lemma_mod_bound(drawable as int, g as int);
        assert((cell as int) * (g as int) == (g as int) * ((drawable as int) / (g as int)))
            by (nonlinear_arith)
            requires
                cell == (drawable as int) / (g as int),
        ;
        assert((cell as int) * (g as int) <= drawable as int);
    }
    let used: u32 = cell * g;
    let extra: u32 = (drawable - used) / 2;
    let off: u32 = margin + extra;
    proof {
        assert(extra <= drawable - used);
        assert(off + (cell as int) * (g as int) <= s as int);
    }
    let pix = rasterize(color, &pattern, s, g, off, cell, Ghost(hash@));
    let canvas = Canvas { size: s, pixels: pix };
    proof {
        assert(canvas.pixels@ =~= identicon_spec(seed@, s, g, p));
    }
    Ok(canvas)
}

/// Generating twice from the same seed and the same configuration yields
/// byte-identical pixel buffers: any two buffers that satisfy the
/// generator's contract are equal.
pub proof fn lemma_deterministic(
    a: Seq<Color>,
    b: Seq<Color>,
    seed: Seq<char>,
    s: u32,
    g: u32,
    p: u32,
)
    requires
        a == identicon_spec(seed, s, g, p),
        b == identicon_spec(seed, s, g, p),
    ensures
        a == b,
{
}

/// Every pixel of a generated buffer is either the background white or the
/// color derived from the seed's digest: no third value appears.
pub proof fn lemma_pixel_coverage(seed: Seq<char>, s: u32, g: u32, p: u32)
    ensures
        forall|i: int|
            0 <= i < identicon_spec(seed, s, g, p).len() ==> #[trigger] identicon_spec(
                seed,
                s,
                g,
                p,
            )[i] == white() || identicon_spec(seed, s, g, p)[i] == color_spec(sha256_of(seed)),
{
}

/// The painted region is mirror-symmetric about the rendered grid's
/// vertical center line: pixel `(x, y)` is painted exactly when its
/// reflection `(2 * off + g * cs - 1 - x, y)` is.
pub proof fn lemma_painted_mirror(hash: Seq<u8>, g: int, off: int, cs: int, x: int, y: int)
    requires
        g >= 1,
        cs >= 1,
    ensures
        painted_spec(hash, g, off, cs, x, y) == painted_spec(
            hash,
            g,
            off,
            cs,
            2 * off + g * cs - 1 - x,
            y,
        ),
{
    let a = x - off;
    let m = 2 * off + g * cs - 1 - x;
    assert(g * cs == cs * g) by (nonlinear_arith);
    if 0 <= a < g * cs {
        lemma_fundamental_div_mod(a, cs);
        lemma_mod_bound(a, cs);
        lemma_multiply_divide_lt(a, cs, g);
        lemma_div_pos_is_pos(a, cs);
        let q = a / cs;
        let r = a % cs;
        assert(cs * q == q * cs) by (nonlinear_arith);
        assert(m - off == (g - 1 - q) * cs + (cs - 1 - r)) by (nonlinear_arith)
            requires
                m - off == g * cs - 1 - a,
                a == q * cs + r,
        ;
        lemma_fundamental_div_mod_converse(m - off, cs, g - 1 - q, cs - 1 - r);
        if off <= y < off + g * cs {
            let row = (y - off) / cs;
            lemma_multiply_divide_lt(y - off, cs, g);
            lemma_div_pos_is_pos(y - off, cs);
            crate::pattern::lemma_pattern_symmetric(hash, g, row, q);
        }
    }
}

/// The gap between the drawable region's near edge and the rendered grid,
/// on each axis.
pub open spec fn leading_gap(s: int, g: int, p: int) -> int {
    offset_spec(s, g, p) - margin_spec(s, p)
}

/// The gap between the rendered grid and the drawable region's far edge,
/// on each axis.
pub open spec fn trailing_gap(s: int, g: int, p: int) -> int {
    (margin_spec(s, p) + drawable_spec(s, p)) - (offset_spec(s, g, p) + cell_size_spec(s, g, p) * g)
}

/// The rendered grid is centered within the drawable region to within one
/// pixel on both axes: the leftover of cell-size truncation is split into
/// two gaps that differ by at most one.
pub proof fn lemma_grid_centered(s: int, g: int, p: int)
    requires
        valid_config(s, g, p),
    ensures
        leading_gap(s, g, p) >= 0,
        leading_gap(s, g, p) <= trailing_gap(s, g, p),
        trailing_gap(s, g, p) - leading_gap(s, g, p) <= 1,
{
    let e: int = drawable_spec(s, p) - cell_size_spec(s, g, p) * g;
    lemma_fundamental_div_mod(drawable_spec(s, p), g);
    lemma_mod_bound(drawable_spec(s, p), g);
    assert(e == drawable_spec(s, p) % g) by (nonlinear_arith)
        requires
            drawable_spec(s, p) == g * cell_size_spec(s, g, p) + drawable_spec(s, p) % g,
            e == drawable_spec(s, p) - cell_size_spec(s, g, p) * g,
    ;
    lemma_fundamental_div_mod(e, 2);
    lemma_mod_bound(e, 2);
}

} // verus!
