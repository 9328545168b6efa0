//! The ways of predicting a 4x4 block, each by its name.

use crate::grid::{blit, lemma_blit_same, Block, Plane};
use crate::intrapred::{above2, above3, avg2, avg3, predict4, predict4_pic, Edge, Left};
use crate::types::BPredictionMode;
use vstd::prelude::*;

verus! {

/// Each row is a smoothed pixel from the left.
pub fn vpx_he_predictor_4x4_c(dst: &mut Plane, r0: usize, c0: usize, above: &Edge, left: &Left)
    requires
        r0 + 4 <= old(dst).spec_rows(),
        c0 + 4 <= old(dst).spec_stride(),
    ensures
        final(dst)@ == predict4_pic(
            old(dst)@,
            r0 as int,
            c0 as int,
            BPredictionMode::HePred,
            above@,
            left@,
        ),
        final(dst).spec_rows() == old(dst).spec_rows(),
        final(dst).spec_stride() == old(dst).spec_stride(),
{
    predict4(dst, r0, c0, BPredictionMode::HePred, above, left);
}

/// Each column is a smoothed pixel from above.
pub fn vpx_ve_predictor_4x4_c(dst: &mut Plane, r0: usize, c0: usize, above: &Edge, left: &Left)
    requires
        r0 + 4 <= old(dst).spec_rows(),
        c0 + 4 <= old(dst).spec_stride(),
    ensures
        final(dst)@ == predict4_pic(
            old(dst)@,
            r0 as int,
            c0 as int,
            BPredictionMode::VePred,
            above@,
            left@,
        ),
        final(dst).spec_rows() == old(dst).spec_rows(),
        final(dst).spec_stride() == old(dst).spec_stride(),
{
    predict4(dst, r0, c0, BPredictionMode::VePred, above, left);
}

/// Along lines that rise gently to the right.
pub fn vpx_d207_predictor_4x4_c(dst: &mut Plane, r0: usize, c0: usize, above: &Edge, left: &Left)
    requires
        r0 + 4 <= old(dst).spec_rows(),
        c0 + 4 <= old(dst).spec_stride(),
    ensures
        final(dst)@ == predict4_pic(
            old(dst)@,
            r0 as int,
            c0 as int,
            BPredictionMode::HuPred,
            above@,
            left@,
        ),
        final(dst).spec_rows() == old(dst).spec_rows(),
        final(dst).spec_stride() == old(dst).spec_stride(),
{
    predict4(dst, r0, c0, BPredictionMode::HuPred, above, left);
}

/// Along lines that rise steeply to the right, with two exceptions at the end.
pub fn vpx_d63e_predictor_4x4_c(dst: &mut Plane, r0: usize, c0: usize, above: &Edge, left: &Left)
    requires
        r0 + 4 <= old(dst).spec_rows(),
        c0 + 4 <= old(dst).spec_stride(),
    ensures
        final(dst)@ == predict4_pic(
            old(dst)@,
            r0 as int,
            c0 as int,
            BPredictionMode::VlPred,
            above@,
            left@,
        ),
        final(dst).spec_rows() == old(dst).spec_rows(),
        final(dst).spec_stride() == old(dst).spec_stride(),
{
    predict4(dst, r0, c0, BPredictionMode::VlPred, above, left);
}

/// Along the rising diagonal, smoothed to the end.
pub fn vpx_d45e_predictor_4x4_c(dst: &mut Plane, r0: usize, c0: usize, above: &Edge, left: &Left)
    requires
        r0 + 4 <= old(dst).spec_rows(),
        c0 + 4 <= old(dst).spec_stride(),
    ensures
        final(dst)@ == predict4_pic(
            old(dst)@,
            r0 as int,
            c0 as int,
            BPredictionMode::LdPred,
            above@,
            left@,
        ),
        final(dst).spec_rows() == old(dst).spec_rows(),
        final(dst).spec_stride() == old(dst).spec_stride(),
{
    predict4(dst, r0, c0, BPredictionMode::LdPred, above, left);
}

/// Along lines that fall steeply to the right.
pub fn vpx_d117_predictor_4x4_c(dst: &mut Plane, r0: usize, c0: usize, above: &Edge, left: &Left)
    requires
        r0 + 4 <= old(dst).spec_rows(),
        c0 + 4 <= old(dst).spec_stride(),
    ensures
        final(dst)@ == predict4_pic(
            old(dst)@,
            r0 as int,
            c0 as int,
            BPredictionMode::VrPred,
            above@,
            left@,
        ),
        final(dst).spec_rows() == old(dst).spec_rows(),
        final(dst).spec_stride() == old(dst).spec_stride(),
{
    predict4(dst, r0, c0, BPredictionMode::VrPred, above, left);
}

/// Along the falling diagonal.
pub fn vpx_d135_predictor_4x4_c(dst: &mut Plane, r0: usize, c0: usize, above: &Edge, left: &Left)
    requires
        r0 + 4 <= old(dst).spec_rows(),
        c0 + 4 <= old(dst).spec_stride(),
    ensures
        final(dst)@ == predict4_pic(
            old(dst)@,
            r0 as int,
            c0 as int,
            BPredictionMode::RdPred,
            above@,
            left@,
        ),
        final(dst).spec_rows() == old(dst).spec_rows(),
        final(dst).spec_stride() == old(dst).spec_stride(),
{
    predict4(dst, r0, c0, BPredictionMode::RdPred, above, left);
}

/// Along lines that fall gently to the right.
pub fn vpx_d153_predictor_4x4_c(dst: &mut Plane, r0: usize, c0: usize, above: &Edge, left: &Left)
    requires
        r0 + 4 <= old(dst).spec_rows(),
        c0 + 4 <= old(dst).spec_stride(),
    ensures
        final(dst)@ == predict4_pic(
            old(dst)@,
            r0 as int,
            c0 as int,
            BPredictionMode::HdPred,
            above@,
            left@,
        ),
        final(dst).spec_rows() == old(dst).spec_rows(),
        final(dst).spec_stride() == old(dst).spec_stride(),
{
    predict4(dst, r0, c0, BPredictionMode::HdPred, above, left);
}

/// The pixel in row `i` and column `j` of [`vpx_d45_predictor_4x4_c`].
pub open spec fn d45_pixel(edge: Seq<u8>, i: int, j: int) -> u8 {
    if i + j == 6 {
        edge[8]
    } else {
        above3(edge, i + j)
    }
}

fn pixel_d45(edge: &Edge, i: usize, j: usize) -> (v: u8)
    requires
        i < 4,
        j < 4,
    ensures
        v == d45_pixel(edge@, i as int, j as int),
{
    if i + j == 6 {
        edge[8]
    } else {
        avg3(edge[i + j + 1], edge[i + j + 2], edge[i + j + 3])
    }
}

/// Along the rising diagonal, with the last pixel above at the end.
pub fn vpx_d45_predictor_4x4_c(dst: &mut Plane, r0: usize, c0: usize, above: &Edge)
    requires
        r0 + 4 <= old(dst).spec_rows(),
        c0 + 4 <= old(dst).spec_stride(),
    ensures
        final(dst)@ == blit(
            old(dst)@,
            r0 as int,
            c0 as int,
            4,
            4,
            |i: int, j: int| d45_pixel(above@, i, j),
        ),
        final(dst).spec_rows() == old(dst).spec_rows(),
        final(dst).spec_stride() == old(dst).spec_stride(),
{
    let ghost p = dst@;
    let mut b: Block = [[0u8; 16]; 16];
    let mut i: usize = 0;
    while i < 4
        invariant
            i <= 4,
            forall|k: int, j: int|
                0 <= k < i && 0 <= j < 4 ==> #[trigger] b[k][j] == d45_pixel(above@, k, j),
        decreases 4 - i,
    {
        let mut j: usize = 0;
        while j < 4
            invariant
                i < 4,
                j <= 4,
                forall|k: int, m: int|
                    (0 <= k < i && 0 <= m < 4) || (k == i && 0 <= m < j)
                        ==> #[trigger] b[k][m] == d45_pixel(above@, k, m),
            decreases 4 - j,
        {
            b[i][j] = pixel_d45(above, i, j);
            j += 1;
        }
        i += 1;
    }
    dst.put_block(r0, c0, 4, 4, &b);
    proof {
        lemma_blit_same(
            p,
            r0 as int,
            c0 as int,
            4,
            4,
            |i: int, j: int| b[i][j],
            |i: int, j: int| d45_pixel(above@, i, j),
        );
    }
}

/// The pixel in row `i` and column `j` of [`vpx_d63_predictor_4x4_c`].
pub open spec fn d63_pixel(edge: Seq<u8>, i: int, j: int) -> u8 {
    if i % 2 == 0 {
        above2(edge, i / 2 + j)
    } else {
        above3(edge, i / 2 + j)
    }
}

fn pixel_d63(edge: &Edge, i: usize, j: usize) -> (v: u8)
    requires
        i < 4,
        j < 4,
    ensures
        v == d63_pixel(edge@, i as int, j as int),
{
    if i % 2 == 0 {
        avg2(edge[i / 2 + j + 1], edge[i / 2 + j + 2])
    } else {
        avg3(edge[i / 2 + j + 1], edge[i / 2 + j + 2], edge[i / 2 + j + 3])
    }
}

/// Along lines that rise steeply to the right.
pub fn vpx_d63_predictor_4x4_c(dst: &mut Plane, r0: usize, c0: usize, above: &Edge)
    requires
        r0 + 4 <= old(dst).spec_rows(),
        c0 + 4 <= old(dst).spec_stride(),
    ensures
        final(dst)@ == blit(
            old(dst)@,
            r0 as int,
            c0 as int,
            4,
            4,
            |i: int, j: int| d63_pixel(above@, i, j),
        ),
        final(dst).spec_rows() == old(dst).spec_rows(),
        final(dst).spec_stride() == old(dst).spec_stride(),
{
    let ghost p = dst@;
    let mut b: Block = [[0u8; 16]; 16];
    let mut i: usize = 0;
    while i < 4
        invariant
            i <= 4,
            forall|k: int, j: int|
                0 <= k < i && 0 <= j < 4 ==> #[trigger] b[k][j] == d63_pixel(above@, k, j),
        decreases 4 - i,
    {
        let mut j: usize = 0;
        while j < 4
            invariant
                i < 4,
                j <= 4,
                forall|k: int, m: int|
                    (0 <= k < i && 0 <= m < 4) || (k == i && 0 <= m < j)
                        ==> #[trigger] b[k][m] == d63_pixel(above@, k, m),
            decreases 4 - j,
        {
            b[i][j] = pixel_d63(above, i, j);
            j += 1;
        }
        i += 1;
    }
    dst.put_block(r0, c0, 4, 4, &b);
    proof {
        lemma_blit_same(
            p,
            r0 as int,
            c0 as int,
            4,
            4,
            |i: int, j: int| b[i][j],
            |i: int, j: int| d63_pixel(above@, i, j),
        );
    }
}

} // verus!
