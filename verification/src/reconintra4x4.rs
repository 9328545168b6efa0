//! Intra prediction of subblocks.

use crate::grid::{put, Pic, Plane};
use crate::intrapred::{predict4, predict4_pic, Edge, Left};
use crate::reconintra::{edge_of, left_of, read_edge, read_left};
use crate::types::BPredictionMode;
use vstd::prelude::*;

verus! {

/// `p` with the first `n` of the four pixels above and to the right of the macroblock at
/// `(r0, c0)` repeated in row `r`.
pub open spec fn copy_right(p: Pic, r0: int, c0: int, r: int, n: int) -> Pic
    decreases n,
{
    if n <= 0 {
        p
    } else {
        put(copy_right(p, r0, c0, r, n - 1), r, c0 + 16 + n - 1, p[r0 - 1][c0 + 16 + n - 1])
    }
}

/// `p` with the four pixels above and to the right of the macroblock at `(r0, c0)` repeated
/// to the right of its fourth, eighth and twelfth rows, where the subblocks below look for
/// the pixels above and to their right.
pub open spec fn down_copy(p: Pic, r0: int, c0: int) -> Pic {
    copy_right(
        copy_right(copy_right(p, r0, c0, r0 + 3, 4), r0, c0, r0 + 7, 4),
        r0,
        c0,
        r0 + 11,
        4,
    )
}

/// Repeats the four pixels above and to the right of a macroblock in row `r`.
fn copy_right_row(dst: &mut Plane, r0: usize, c0: usize, r: usize)
    requires
        1 <= r0 <= r,
        r < old(dst).spec_rows(),
        c0 + 20 <= old(dst).spec_stride(),
    ensures
        final(dst)@ == copy_right(old(dst)@, r0 as int, c0 as int, r as int, 4),
        final(dst).spec_rows() == old(dst).spec_rows(),
        final(dst).spec_stride() == old(dst).spec_stride(),
{
    let mut n: usize = 0;
    while n < 4
        invariant
            n <= 4,
            1 <= r0 <= r,
            r < dst.spec_rows(),
            c0 + 20 <= dst.spec_stride(),
            dst.spec_rows() == old(dst).spec_rows(),
            dst.spec_stride() == old(dst).spec_stride(),
            dst@ == copy_right(old(dst)@, r0 as int, c0 as int, r as int, n as int),
            dst@[r0 - 1] == old(dst)@[r0 - 1],
        decreases 4 - n,
    {
        let v: u8 = dst.get(r0 - 1, c0 + 16 + n);
        proof {
            dst.lemma_rect();
        }
        dst.set(r, c0 + 16 + n, v);
        n += 1;
    }
}

/// Repeats the pixels above and to the right of the macroblock at `(r0, c0)` further down.
pub fn intra_prediction_down_copy(dst: &mut Plane, r0: usize, c0: usize)
    requires
        1 <= r0,
        r0 + 16 <= old(dst).spec_rows(),
        c0 + 20 <= old(dst).spec_stride(),
    ensures
        final(dst)@ == down_copy(old(dst)@, r0 as int, c0 as int),
        final(dst).spec_rows() == old(dst).spec_rows(),
        final(dst).spec_stride() == old(dst).spec_stride(),
{
    copy_right_row(dst, r0, c0, r0 + 3);
    copy_right_row(dst, r0, c0, r0 + 7);
    copy_right_row(dst, r0, c0, r0 + 11);
}

/// `p` with the 4x4 block at `(r0, c0)` predicted from its neighbours.
pub open spec fn intra4(p: Pic, r0: int, c0: int, mode: BPredictionMode) -> Pic {
    predict4_pic(p, r0, c0, mode, edge_of(p, r0, c0, 8), left_of(p, r0, c0, 4))
}

/// Predicts the 4x4 block at `(r0, c0)` from its neighbours.
pub fn vp8_intra4x4_predict(dst: &mut Plane, r0: usize, c0: usize, b_mode: BPredictionMode)
    requires
        1 <= r0,
        1 <= c0,
        r0 + 4 <= old(dst).spec_rows(),
        c0 + 8 <= old(dst).spec_stride(),
    ensures
        final(dst)@ == intra4(old(dst)@, r0 as int, c0 as int, b_mode),
        final(dst).spec_rows() == old(dst).spec_rows(),
        final(dst).spec_stride() == old(dst).spec_stride(),
{
    let e: Edge = read_edge(dst, r0, c0, 8);
    let l: Left = read_left(dst, r0, c0, 4);
    predict4(dst, r0, c0, b_mode, &e, &l);
}

} // verus!
