//! Intra prediction of whole macroblocks.

use crate::grid::{Pic, Plane};
use crate::intrapred::{predict_square, predict_square_pic, Edge, Left, Shape};
use crate::types::{MbPredictionMode, ModeInfo};
use vstd::prelude::*;

verus! {

/// The corner pixel and the `n` pixels above the block at `(r0, c0)`.
pub open spec fn edge_of(p: Pic, r0: int, c0: int, n: int) -> Seq<u8> {
    Seq::new(
        17,
        |k: int|
            if k <= n {
                p[r0 - 1][c0 - 1 + k]
            } else {
                0
            },
    )
}

/// The `n` pixels to the left of the block at `(r0, c0)`.
pub open spec fn left_of(p: Pic, r0: int, c0: int, n: int) -> Seq<u8> {
    Seq::new(
        16,
        |k: int|
            if k < n {
                p[r0 + k][c0 - 1]
            } else {
                0
            },
    )
}

/// Reads the corner pixel and the `n` pixels above the block at `(r0, c0)`.
pub fn read_edge(p: &Plane, r0: usize, c0: usize, n: usize) -> (e: Edge)
    requires
        n <= 16,
        1 <= r0 <= p.spec_rows(),
        1 <= c0,
        c0 + n <= p.spec_stride(),
    ensures
        e@ == edge_of(p@, r0 as int, c0 as int, n as int),
{
    let mut e: Edge = [0; 17];
    let mut k: usize = 0;
    while k <= n
        invariant
            k <= n + 1,
            n <= 16,
            1 <= r0 <= p.spec_rows(),
            1 <= c0,
            c0 + n <= p.spec_stride(),
            forall|i: int| 0 <= i < k ==> #[trigger] e[i] == p@[r0 - 1][c0 - 1 + i],
            forall|i: int| k <= i < 17 ==> #[trigger] e[i] == 0,
        decreases n + 1 - k,
    {
        e[k] = p.get(r0 - 1, c0 - 1 + k);
        k += 1;
    }
    assert(e@ =~= edge_of(p@, r0 as int, c0 as int, n as int));
    e
}

/// Reads the `n` pixels to the left of the block at `(r0, c0)`.
pub fn read_left(p: &Plane, r0: usize, c0: usize, n: usize) -> (e: Left)
    requires
        n <= 16,
        r0 + n <= p.spec_rows(),
        1 <= c0 <= p.spec_stride(),
    ensures
        e@ == left_of(p@, r0 as int, c0 as int, n as int),
{
    let mut e: Left = [0; 16];
    let mut k: usize = 0;
    while k < n
        invariant
            k <= n,
            n <= 16,
            r0 + n <= p.spec_rows(),
            1 <= c0 <= p.spec_stride(),
            forall|i: int| 0 <= i < k ==> #[trigger] e[i] == p@[r0 + i][c0 - 1],
            forall|i: int| k <= i < 16 ==> #[trigger] e[i] == 0,
        decreases n - k,
    {
        e[k] = p.get(r0 + k, c0 - 1);
        k += 1;
    }
    assert(e@ =~= left_of(p@, r0 as int, c0 as int, n as int));
    e
}

/// How an intra mode predicts a square block. A mean is taken over those edges that lie
/// inside the frame.
pub open spec fn shape_of(mode: MbPredictionMode, up: bool, left: bool) -> Shape {
    match mode {
        MbPredictionMode::VPred => Shape::V,
        MbPredictionMode::HPred => Shape::H,
        MbPredictionMode::TmPred => Shape::Tm,
        _ => if left && up {
            Shape::Dc
        } else if left {
            Shape::DcLeft
        } else if up {
            Shape::DcTop
        } else {
            Shape::Dc128
        },
    }
}

/// Picks the way in which an intra mode predicts a square block.
fn pick_shape(mode: MbPredictionMode, up: bool, left: bool) -> (s: Shape)
    ensures
        s == shape_of(mode, up, left),
{
    match mode {
        MbPredictionMode::VPred => Shape::V,
        MbPredictionMode::HPred => Shape::H,
        MbPredictionMode::TmPred => Shape::Tm,
        _ => {
            if left && up {
                Shape::Dc
            } else if left {
                Shape::DcLeft
            } else if up {
                Shape::DcTop
            } else {
                Shape::Dc128
            }
        },
    }
}

/// `p` with the `bs x bs` block at `(r0, c0)` predicted from its neighbours.
pub open spec fn intra_square(
    p: Pic,
    r0: int,
    c0: int,
    bs: int,
    mode: MbPredictionMode,
    up: bool,
    left: bool,
) -> Pic {
    predict_square_pic(
        p,
        r0,
        c0,
        bs,
        shape_of(mode, up, left),
        edge_of(p, r0, c0, bs),
        left_of(p, r0, c0, bs),
    )
}

/// Predicts the `bs x bs` block at `(r0, c0)` from its neighbours.
fn predict_mb(
    dst: &mut Plane,
    r0: usize,
    c0: usize,
    bs: usize,
    mode: MbPredictionMode,
    up: bool,
    left: bool,
)
    requires
        bs == 8 || bs == 16,
        1 <= r0,
        1 <= c0,
        r0 + bs <= old(dst).spec_rows(),
        c0 + bs <= old(dst).spec_stride(),
    ensures
        final(dst)@ == intra_square(old(dst)@, r0 as int, c0 as int, bs as int, mode, up, left),
        final(dst).spec_rows() == old(dst).spec_rows(),
        final(dst).spec_stride() == old(dst).spec_stride(),
{
    let e: Edge = read_edge(dst, r0, c0, bs);
    let l: Left = read_left(dst, r0, c0, bs);
    predict_square(dst, r0, c0, bs, pick_shape(mode, up, left), &e, &l);
}

/// Predicts the luma of an intra macroblock whose first pixel is at `(r0, c0)`.
pub fn vp8_build_intra_predictors_mby_s(
    up_available: bool,
    left_available: bool,
    mi: &ModeInfo,
    dst: &mut Plane,
    r0: usize,
    c0: usize,
)
    requires
        1 <= r0,
        1 <= c0,
        r0 + 16 <= old(dst).spec_rows(),
        c0 + 16 <= old(dst).spec_stride(),
    ensures
        final(dst)@ == intra_square(
            old(dst)@,
            r0 as int,
            c0 as int,
            16,
            mi.mbmi.mode,
            up_available,
            left_available,
        ),
        final(dst).spec_rows() == old(dst).spec_rows(),
        final(dst).spec_stride() == old(dst).spec_stride(),
{
    predict_mb(dst, r0, c0, 16, mi.mbmi.mode, up_available, left_available);
}

/// Predicts the chroma of an intra macroblock whose first pixels are at `(r0, c0)`.
pub fn vp8_build_intra_predictors_mbuv_s(
    up_available: bool,
    left_available: bool,
    mi: &ModeInfo,
    dst_u: &mut Plane,
    dst_v: &mut Plane,
    r0: usize,
    c0: usize,
)
    requires
        1 <= r0,
        1 <= c0,
        r0 + 8 <= old(dst_u).spec_rows(),
        c0 + 8 <= old(dst_u).spec_stride(),
        r0 + 8 <= old(dst_v).spec_rows(),
        c0 + 8 <= old(dst_v).spec_stride(),
    ensures
        final(dst_u)@ == intra_square(
            old(dst_u)@,
            r0 as int,
            c0 as int,
            8,
            mi.mbmi.uv_mode,
            up_available,
            left_available,
        ),
        final(dst_v)@ == intra_square(
            old(dst_v)@,
            r0 as int,
            c0 as int,
            8,
            mi.mbmi.uv_mode,
            up_available,
            left_available,
        ),
        final(dst_u).spec_rows() == old(dst_u).spec_rows(),
        final(dst_u).spec_stride() == old(dst_u).spec_stride(),
        final(dst_v).spec_rows() == old(dst_v).spec_rows(),
        final(dst_v).spec_stride() == old(dst_v).spec_stride(),
{
    predict_mb(dst_u, r0, c0, 8, mi.mbmi.uv_mode, up_available, left_available);
    predict_mb(dst_v, r0, c0, 8, mi.mbmi.uv_mode, up_available, left_available);
}

/// A flat block goes by the edges that lie inside the frame: by both, by one, or by none.
pub proof fn law_flat_shape(mode: MbPredictionMode, up: bool, left: bool)
    ensures
        mode == MbPredictionMode::DcPred ==> {
            let s = shape_of(mode, up, left);
            &&& up && left <==> s == Shape::Dc
            &&& up && !left <==> s == Shape::DcTop
            &&& !up && left <==> s == Shape::DcLeft
            &&& !up && !left <==> s == Shape::Dc128
        },
        mode == MbPredictionMode::VPred ==> shape_of(mode, up, left) == Shape::V,
        mode == MbPredictionMode::HPred ==> shape_of(mode, up, left) == Shape::H,
        mode == MbPredictionMode::TmPred ==> shape_of(mode, up, left) == Shape::Tm,
{
}

/// The pixels that a block is predicted from are those that touch it: the row just above it,
/// beginning with the corner, and the column just to its left.
pub proof fn law_touching_pixels(p: Pic, r0: int, c0: int, n: int, k: int)
    requires
        0 <= n <= 16,
    ensures
        0 <= k <= n ==> edge_of(p, r0, c0, n)[k] == p[r0 - 1][c0 - 1 + k],
        0 <= k < n && n <= 16 ==> left_of(p, r0, c0, n)[k] == p[r0 + k][c0 - 1],
{
}

} // verus!
