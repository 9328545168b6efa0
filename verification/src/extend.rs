//! Extension of a frame beyond its edges.

use crate::arith::clamp_int;
use crate::grid::{blit, is_rect, Pic, Plane};
use crate::reconinter::{chroma_at, luma_at};
use crate::types::{FramePlanes, Yuv};
use vstd::prelude::*;

verus! {

/// `p` with the last pixels of its two rows from `r` on repeated four times past column `c`.
pub open spec fn extend_two(p: Pic, r: int, c: int) -> Pic {
    blit(p, r, c, 2, 4, |i: int, j: int| p[r + i][c - 1])
}

/// `d` with the last two pixel rows of macroblock row `r` extended a little to the right, for
/// the macroblocks below to look at.
#[verifier::opaque]
pub open spec fn extend_row_end(d: Yuv, r: int, cols: int) -> Yuv {
    Yuv {
        y: extend_two(d.y, luma_at(r) + 14, luma_at(cols)),
        u: extend_two(d.u, chroma_at(r) + 6, chroma_at(cols)),
        v: extend_two(d.v, chroma_at(r) + 6, chroma_at(cols)),
    }
}

/// Extends the last two pixel rows of macroblock row `r` a little to the right.
pub fn vp8_extend_mb_row(d: &mut FramePlanes, r: usize, rows: usize, cols: usize)
    requires
        old(d).holds(rows as int, cols as int),
        r < rows,
    ensures
        final(d)@ == extend_row_end(old(d)@, r as int, cols as int),
        final(d).sized_as(old(d)),
{
    proof {
        reveal(extend_row_end);
    }
    let yc: usize = 32 + 16 * cols;
    let cc: usize = 16 + 8 * cols;
    d.y.spread_column(32 + 16 * r + 14, 2, yc - 1, yc, 4);
    d.u.spread_column(16 + 8 * r + 6, 2, cc - 1, cc, 4);
    d.v.spread_column(16 + 8 * r + 6, 2, cc - 1, cc, 4);
}

/// `p` with `h` rows from `r` on extended by `b` pixels to both sides; the frame is `w` pixels
/// wide.
pub open spec fn extend_sides(p: Pic, r: int, h: int, b: int, w: int) -> Pic {
    let q = blit(p, r, 0, h, b, |i: int, j: int| p[r + i][b]);
    blit(q, r, b + w, h, b, |i: int, j: int| q[r + i][b + w - 1])
}

/// `d` with macroblock row `r` extended to both sides.
#[verifier::opaque]
pub open spec fn extend_left_right(d: Yuv, r: int, cols: int) -> Yuv {
    Yuv {
        y: extend_sides(d.y, luma_at(r), 16, 32, 16 * cols),
        u: extend_sides(d.u, chroma_at(r), 8, 16, 8 * cols),
        v: extend_sides(d.v, chroma_at(r), 8, 16, 8 * cols),
    }
}

fn extend_plane_sides(p: &mut Plane, r: usize, h: usize, b: usize, w: usize)
    requires
        r + h <= old(p).spec_rows(),
        1 <= b,
        1 <= w,
        2 * b + w <= old(p).spec_stride(),
    ensures
        final(p)@ == extend_sides(old(p)@, r as int, h as int, b as int, w as int),
        final(p).spec_rows() == old(p).spec_rows(),
        final(p).spec_stride() == old(p).spec_stride(),
{
    p.spread_column(r, h, b, 0, b);
    p.spread_column(r, h, b + w - 1, b + w, b);
}

/// Extends macroblock row `r` to both sides. A row number one past the last is taken too: the
/// rows of the lower border are then extended.
pub fn yv12_extend_frame_left_right_c(d: &mut FramePlanes, r: usize, rows: usize, cols: usize)
    requires
        old(d).holds(rows as int, cols as int),
        r <= rows,
    ensures
        final(d)@ == extend_left_right(old(d)@, r as int, cols as int),
        final(d).sized_as(old(d)),
{
    proof {
        reveal(extend_left_right);
    }
    extend_plane_sides(&mut d.y, 32 + 16 * r, 16, 32, 16 * cols);
    extend_plane_sides(&mut d.u, 16 + 8 * r, 8, 16, 8 * cols);
    extend_plane_sides(&mut d.v, 16 + 8 * r, 8, 16, 8 * cols);
}

/// `p` with its first row inside the border repeated upwards; a row is `s` pixels long.
pub open spec fn extend_up(p: Pic, b: int, s: int) -> Pic {
    blit(p, 0, 0, b, s, |i: int, j: int| p[b][j])
}

/// `p` with its last row inside the border repeated downwards.
pub open spec fn extend_down(p: Pic, b: int, h: int, s: int) -> Pic {
    blit(p, b + h, 0, b, s, |i: int, j: int| p[b + h - 1][j])
}

/// The length of the rows of `p`.
pub open spec fn row_length(p: Pic) -> int {
    p[0].len() as int
}

/// `d` extended upwards.
#[verifier::opaque]
pub open spec fn extend_top(d: Yuv) -> Yuv {
    Yuv {
        y: extend_up(d.y, 32, row_length(d.y)),
        u: extend_up(d.u, 16, row_length(d.u)),
        v: extend_up(d.v, 16, row_length(d.v)),
    }
}

/// `d` extended downwards.
#[verifier::opaque]
pub open spec fn extend_bottom(d: Yuv, rows: int) -> Yuv {
    Yuv {
        y: extend_down(d.y, 32, 16 * rows, row_length(d.y)),
        u: extend_down(d.u, 16, 8 * rows, row_length(d.u)),
        v: extend_down(d.v, 16, 8 * rows, row_length(d.v)),
    }
}

/// Extends a frame upwards.
pub fn yv12_extend_frame_top_c(d: &mut FramePlanes, rows: usize, cols: usize)
    requires
        old(d).holds(rows as int, cols as int),
    ensures
        final(d)@ == extend_top(old(d)@),
        final(d).sized_as(old(d)),
{
    proof {
        reveal(extend_top);
        d.y.lemma_rect();
        d.u.lemma_rect();
        d.v.lemma_rect();
    }
    d.y.spread_row(32, 0, 32);
    d.u.spread_row(16, 0, 16);
    d.v.spread_row(16, 0, 16);
}

/// Extends a frame downwards.
pub fn yv12_extend_frame_bottom_c(d: &mut FramePlanes, rows: usize, cols: usize)
    requires
        old(d).holds(rows as int, cols as int),
    ensures
        final(d)@ == extend_bottom(old(d)@, rows as int),
        final(d).sized_as(old(d)),
{
    proof {
        reveal(extend_bottom);
        d.y.lemma_rect();
        d.u.lemma_rect();
        d.v.lemma_rect();
    }
    d.y.spread_row(32 + 16 * rows - 1, 32 + 16 * rows, 32);
    d.u.spread_row(16 + 8 * rows - 1, 16 + 8 * rows, 16);
    d.v.spread_row(16 + 8 * rows - 1, 16 + 8 * rows, 16);
}

/// The rows from `r` on, `h` of them, repeat their first and last pixels inside the border on both
/// sides.
pub open spec fn sides_repeat(p: Pic, r: int, h: int, b: int, w: int) -> bool {
    forall|i: int, j: int|
        r <= i < r + h && 0 <= j < 2 * b + w ==> #[trigger] p[i][j] == p[i][clamp_int(
            j,
            b,
            b + w - 1,
        )]
}

/// Extending rows to both sides makes them repeat their edges, and leaves what lies inside the
/// border, and all other rows, as they are.
pub proof fn law_sides_repeat(p: Pic, r: int, h: int, b: int, w: int, rows: int, stride: int)
    requires
        is_rect(p, rows, stride),
        0 <= r,
        0 <= h,
        r + h <= rows,
        1 <= b,
        1 <= w,
        2 * b + w <= stride,
    ensures
        sides_repeat(extend_sides(p, r, h, b, w), r, h, b, w),
        forall|i: int, j: int|
            0 <= i < rows && b <= j < b + w ==> #[trigger] extend_sides(p, r, h, b, w)[i][j]
                == p[i][j],
        forall|i: int|
            0 <= i < rows && !(r <= i < r + h) ==> #[trigger] extend_sides(p, r, h, b, w)[i] == p[i],
{
    let q = extend_sides(p, r, h, b, w);
    assert forall|i: int| 0 <= i < rows && !(r <= i < r + h) implies #[trigger] q[i] == p[i] by {
        assert(q[i] =~= p[i]);
    }
}

/// Once all rows repeat their edges, extending upwards and downwards makes every pixel of the
/// border the nearest pixel inside it.
pub proof fn law_border_repeats_edge(p: Pic, b: int, h: int, w: int, stride: int, i: int, j: int)
    requires
        is_rect(p, h + 2 * b, stride),
        1 <= b,
        1 <= h,
        1 <= w,
        2 * b + w <= stride,
        sides_repeat(p, b, h, b, w),
        0 <= i < h + 2 * b,
        0 <= j < w + 2 * b,
    ensures
        extend_down(extend_up(p, b, stride), b, h, stride)[i][j] == p[clamp_int(
            i,
            b,
            b + h - 1,
        )][clamp_int(j, b, b + w - 1)],
{
    let up = extend_up(p, b, stride);
    let k = clamp_int(i, b, b + h - 1);
    assert(up[k] =~= p[k]);
    assert(up[b + h - 1] =~= p[b + h - 1]);
    assert(p[k][j] == p[k][clamp_int(j, b, b + w - 1)]);
    assert(p[b + h - 1][j] == p[b + h - 1][clamp_int(j, b, b + w - 1)]);
}

/// The last two pixel rows of a macroblock row go on to the right with their last pixel, four
/// times. Nothing else changes.
pub proof fn law_row_end_repeats(d: Yuv, r: int, cols: int, i: int, j: int)
    requires
        0 <= r,
        0 < cols,
        0 <= i < d.y.len(),
        0 <= j < d.y[i].len(),
    ensures
        extend_row_end(d, r, cols).y[i][j] == (if 46 + 16 * r <= i < 48 + 16 * r && 32 + 16 * cols
            <= j < 36 + 16 * cols {
            d.y[i][31 + 16 * cols]
        } else {
            d.y[i][j]
        }),
{
    reveal(extend_row_end);
}

/// The same of the chroma planes.
pub proof fn law_row_end_repeats_chroma(d: Yuv, r: int, cols: int, i: int, j: int)
    requires
        0 <= r,
        0 < cols,
        0 <= i < d.u.len(),
        0 <= j < d.u[i].len(),
        d.v.len() == d.u.len(),
        d.v[i].len() == d.u[i].len(),
    ensures
        ({
            let e = extend_row_end(d, r, cols);
            let from = if 22 + 8 * r <= i < 24 + 8 * r && 16 + 8 * cols <= j < 20 + 8 * cols {
                15 + 8 * cols
            } else {
                j
            };
            e.u[i][j] == d.u[i][from] && e.v[i][j] == d.v[i][from]
        }),
{
    reveal(extend_row_end);
}

} // verus!
