//! Pattern synthesis: digest bits drive the left half of a square boolean
//! grid, row-major and least-significant bit first, and every cell is
//! mirrored across the vertical axis.

use vstd::arithmetic::div_mod::{
    lemma_div_is_ordered, lemma_fundamental_div_mod, lemma_fundamental_div_mod_converse,
};
use vstd::prelude::*;

verus! {

/// Number of independently derived columns: the left half, rounded up.
pub open spec fn half_width(g: int) -> int {
    g / 2 + g % 2
}

/// Whether bit `i` (counted from the least significant end) of `b` is set.
pub open spec fn bit_of(b: u8, i: u8) -> bool {
    (b >> i) & 1 == 1
}

/// The value of the `k`-th pattern bit drawn from the digest: bits are
/// consumed from byte 3 onward, least-significant first; a bit past the
/// end of the digest is unfilled.
pub open spec fn cell_bit(hash: Seq<u8>, k: int) -> bool
    recommends
        k >= 0,
{
    let bi = 3 + k / 8;
    bi < hash.len() && bit_of(hash[bi], (k % 8) as u8)
}

/// The value of cell `(row, col)` in the pattern grid: columns in the left
/// half consume digest bits in row-major order; the rest mirror the left.
pub open spec fn pattern_cell(hash: Seq<u8>, g: int, row: int, col: int) -> bool
    recommends
        0 <= row < g,
        0 <= col < g,
{
    let half = half_width(g);
    let c = if col < half { col } else { g - 1 - col };
    cell_bit(hash, row * half + c)
}

/// Cells mirror across the vertical axis: for every row, the cell in
/// column `col` equals the cell in column `g - 1 - col`.
pub proof fn lemma_pattern_symmetric(hash: Seq<u8>, g: int, row: int, col: int)
    requires
        0 <= row < g,
        0 <= col < g,
    ensures
        pattern_cell(hash, g, row, col) == pattern_cell(hash, g, row, g - 1 - col),
{
    lemma_fundamental_div_mod(g, 2);
}

/// The bit cursor `(byte_idx, bit_idx)` stands just before the `k`-th
/// pattern bit, or is parked at the end of an exhausted digest.
spec fn cursor_ok(hash: Seq<u8>, byte_idx: int, bit_idx: int, k: int) -> bool {
    &&& 0 <= bit_idx < 8
    &&& 3 <= byte_idx
    &&& if 3 + k / 8 < hash.len() {
        byte_idx == 3 + k / 8 && bit_idx == k % 8
    } else {
        byte_idx >= hash.len()
    }
}

/// Builds the `grid_size` x `grid_size` boolean pattern grid from the
/// digest, consuming one bit per left-half cell starting at byte 3, and
/// mirroring each cell horizontally.
///
/// The resulting grid is horizontally symmetric: for every row, the cell
/// in column `x` equals the cell in column `grid_size - 1 - x`.
#[verifier::loop_isolation(false)]
pub fn generate_pattern(hash: &Vec<u8>, grid_size: u32) -> (pattern: Vec<Vec<bool>>)
    ensures
        pattern@.len() == grid_size,
        forall|y: int| 0 <= y < grid_size ==> (#[trigger] pattern@[y])@.len() == grid_size,
        forall|y: int, x: int|
            0 <= y < grid_size && 0 <= x < grid_size ==> (#[trigger] pattern@[y]@[x])
                == pattern_cell(hash@, grid_size as int, y, x),
        forall|y: int, x: int|
            0 <= y < grid_size && 0 <= x < grid_size ==> (#[trigger] pattern@[y]@[x])
                == pattern@[y]@[grid_size - 1 - x],
{
    let g = grid_size;
    let half: u32 = g / 2 + g % 2;
    let mut pattern: Vec<Vec<bool>> = Vec::new();
    let mut byte_idx: usize = 3;
    let mut bit_idx: u8 = 0;

    let mut y: u32 = 0;
    while y < g
        invariant
            y <= g,
            pattern@.len() == y,
            forall|i: int| 0 <= i < y ==> (#[trigger] pattern@[i])@.len() == g,
            forall|i: int, j: int|
                0 <= i < y && 0 <= j < g ==> (#[trigger] pattern@[i]@[j])
                    == pattern_cell(hash@, g as int, i, j),
            cursor_ok(hash@, byte_idx as int, bit_idx as int, (y as int) * (half as int)),
        decreases g - y,
    {
        // First pass: consume one digest bit per left-half column.
        let mut half_row: Vec<bool> = Vec::new();
        let mut x: u32 = 0;
        while x < half
            invariant
                x <= half,
                half_row@.len() == x,
                forall|j: int|
                    0 <= j < x ==> (#[trigger] half_row@[j])
                        == cell_bit(hash@, (y as int) * (half as int) + j),
                cursor_ok(
                    hash@,
                    byte_idx as int,
                    bit_idx as int,
                    (y as int) * (half as int) + (x as int),
                ),
            decreases half - x,
        {
            let ghost kk: int = (y as int) * (half as int) + (x as int);
            let filled: bool;
            if byte_idx < hash.len() {
                let byte = hash[byte_idx];
                let bit = (byte >> bit_idx) & 1;
                filled = bit == 1;
                proof {
                    lemma_fundamental_div_mod(kk, 8);
                    if bit_idx == 7 {
                        lemma_fundamental_div_mod_converse(kk + 1, 8, kk / 8 + 1, 0);
                    } else {
                        lemma_fundamental_div_mod_converse(kk + 1, 8, kk / 8, kk % 8 + 1);
                    }
                }
                bit_idx = bit_idx + 1;
                if bit_idx >= 8 {
                    bit_idx = 0;
                    byte_idx = byte_idx + 1;
                }
            } else {
                filled = false;
                proof {
                    lemma_div_is_ordered(kk, kk + 1, 8);
                }
            }
            assert(filled == cell_bit(hash@, kk));
            half_row.push(filled);
            x = x + 1;
        }

        // Second pass: lay out the full row, mirroring the left half.
        let mut row: Vec<bool> = Vec::new();
        let mut x2: u32 = 0;
        while x2 < g
            invariant
                x2 <= g,
                row@.len() == x2,
                forall|j: int|
                    0 <= j < x2 ==> (#[trigger] row@[j]) == pattern_cell(hash@, g as int, y as int, j),
            decreases g - x2,
        {
            let src: u32 = if x2 < half {
                x2
            } else {
                proof {
                    lemma_fundamental_div_mod(g as int, 2);
                }
                assert(g - 1 - x2 < half);
                g - 1 - x2
            };
            row.push(half_row[src as usize]);
            x2 = x2 + 1;
        }

        proof {
            assert((y as int) * (half as int) + (half as int) == ((y as int) + 1) * (half as int))
                by (nonlinear_arith);
        }
        pattern.push(row);
        y = y + 1;
    }

    proof {
        assert forall|yy: int, xx: int|
            0 <= yy < g && 0 <= xx < g implies (#[trigger] pattern@[yy]@[xx])
            == pattern@[yy]@[g - 1 - xx] by {
            lemma_pattern_symmetric(hash@, g as int, yy, xx);
            assert(pattern@[yy]@[xx] == pattern_cell(hash@, g as int, yy, xx));
            assert(pattern@[yy]@[g - 1 - xx] == pattern_cell(hash@, g as int, yy, g - 1 - xx));
        }
    }
    pattern
}

} // verus!
