//! The pixels that intra prediction finds outside the frame.

use crate::grid::{blit, Pic};
use crate::reconinter::{chroma_at, luma_at};
use crate::types::{FramePlanes, Yuv};
use vstd::prelude::*;

verus! {

/// The pixels above the frame.
pub const INTRA_RECON_ABOVE_SEED: u8 = 127;

/// The pixels to the left of the frame.
pub const INTRA_RECON_LEFT_SEED: u8 = 129;

/// `p` with the row above the frame set, from the corner pixel to four pixels past the frame.
pub open spec fn top_line(p: Pic, border: int, width: int) -> Pic {
    blit(p, border - 1, border - 1, 1, width + 5, |i: int, j: int| INTRA_RECON_ABOVE_SEED)
}

/// `d` with the rows above the frame set.
#[verifier::opaque]
pub open spec fn top_lines(d: Yuv, cols: int) -> Yuv {
    Yuv {
        y: top_line(d.y, 32, 16 * cols),
        u: top_line(d.u, 16, 8 * cols),
        v: top_line(d.v, 16, 8 * cols),
    }
}

/// `p` with `n` pixels to the left of the frame set, from row `r0` on.
pub open spec fn left_line(p: Pic, r0: int, border: int, n: int) -> Pic {
    blit(p, r0, border - 1, n, 1, |i: int, j: int| INTRA_RECON_LEFT_SEED)
}

/// `d` with the pixels to the left of macroblock row `r` set.
#[verifier::opaque]
pub open spec fn left_lines(d: Yuv, r: int) -> Yuv {
    Yuv {
        y: left_line(d.y, luma_at(r), 32, 16),
        u: left_line(d.u, chroma_at(r), 16, 8),
        v: left_line(d.v, chroma_at(r), 16, 8),
    }
}

/// Sets the rows above a frame of `cols` macroblocks across.
pub fn vp8_setup_intra_recon_top_line(d: &mut FramePlanes, rows: usize, cols: usize)
    requires
        old(d).holds(rows as int, cols as int),
    ensures
        final(d)@ == top_lines(old(d)@, cols as int),
        final(d).sized_as(old(d)),
{
    proof {
        reveal(top_lines);
    }
    d.y.fill_rect(31, 31, 1, 16 * cols + 5, INTRA_RECON_ABOVE_SEED);
    d.u.fill_rect(15, 15, 1, 8 * cols + 5, INTRA_RECON_ABOVE_SEED);
    d.v.fill_rect(15, 15, 1, 8 * cols + 5, INTRA_RECON_ABOVE_SEED);
}

/// Sets the pixels to the left of macroblock row `r`.
pub fn setup_intra_recon_left(d: &mut FramePlanes, r: usize, rows: usize, cols: usize)
    requires
        old(d).holds(rows as int, cols as int),
        r < rows,
    ensures
        final(d)@ == left_lines(old(d)@, r as int),
        final(d).sized_as(old(d)),
{
    proof {
        reveal(left_lines);
    }
    d.y.fill_rect(32 + 16 * r, 31, 16, 1, INTRA_RECON_LEFT_SEED);
    d.u.fill_rect(16 + 8 * r, 15, 8, 1, INTRA_RECON_LEFT_SEED);
    d.v.fill_rect(16 + 8 * r, 15, 8, 1, INTRA_RECON_LEFT_SEED);
}

/// What intra prediction finds outside the frame: the same grey in the whole row above it, from the
/// corner to the four pixels past its end, and another one in the column to its left. Nothing else
/// changes.
pub proof fn law_outside_pixels(d: Yuv, r: int, cols: int, i: int, j: int)
    requires
        0 <= r,
        0 <= cols,
        0 <= i < d.y.len(),
        0 <= j < d.y[i].len(),
    ensures
        ({
            let above = top_lines(d, cols).y[i][j];
            let left = left_lines(d, r).y[i][j];
            &&& above == (if i == 31 && 31 <= j < 36 + 16 * cols {
                127
            } else {
                d.y[i][j]
            })
            &&& left == (if j == 31 && 32 + 16 * r <= i < 48 + 16 * r {
                129
            } else {
                d.y[i][j]
            })
        }),
{
    reveal(top_lines);
    reveal(left_lines);
}

/// The same of the chroma planes.
pub proof fn law_outside_pixels_chroma(d: Yuv, r: int, cols: int, i: int, j: int)
    requires
        0 <= r,
        0 <= cols,
        0 <= i < d.u.len(),
        0 <= j < d.u[i].len(),
        d.v.len() == d.u.len(),
        d.v[i].len() == d.u[i].len(),
    ensures
        ({
            let above = top_lines(d, cols);
            let left = left_lines(d, r);
            let in_row = i == 15 && 15 <= j < 20 + 8 * cols;
            let in_column = j == 15 && 16 + 8 * r <= i < 24 + 8 * r;
            &&& in_row ==> above.u[i][j] == 127 && above.v[i][j] == 127
            &&& !in_row ==> above.u[i][j] == d.u[i][j] && above.v[i][j] == d.v[i][j]
            &&& in_column ==> left.u[i][j] == 129 && left.v[i][j] == 129
            &&& !in_column ==> left.u[i][j] == d.u[i][j] && left.v[i][j] == d.v[i][j]
        }),
{
    reveal(top_lines);
    reveal(left_lines);
}

} // verus!
