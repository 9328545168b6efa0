//! Prediction of a block from the pixels above it and to its left.
//!
//! The pixels above are handed over as an `edge`: its first entry is the pixel above and to
//! the left of the block, and those above the block follow.

use crate::arith::{clip, clip_pixel};
use crate::grid::{blit, lemma_blit_same, Block, Pic, Plane};
use crate::types::BPredictionMode;
use vstd::prelude::*;

verus! {

/// The pixel above and to the left of a block, and the sixteen pixels above it.
pub type Edge = [u8; 17];

/// The pixels to the left of a block.
pub type Left = [u8; 16];

/// The rounded mean of two numbers.
pub open spec fn mean2(a: int, b: int) -> u8 {
    ((a + b + 1) / 2) as u8
}

/// The rounded mean of three numbers, the middle one counted twice.
pub open spec fn mean3(a: int, b: int, c: int) -> u8 {
    ((a + 2 * b + c + 2) / 4) as u8
}

/// Computes the rounded mean of two pixels.
pub fn avg2(a: u8, b: u8) -> (m: u8)
    ensures
        m == mean2(a as int, b as int),
{
    ((a as u32 + b as u32 + 1) / 2) as u8
}

/// Computes the weighted mean of three pixels.
pub fn avg3(a: u8, b: u8, c: u8) -> (m: u8)
    ensures
        m == mean3(a as int, b as int, c as int),
{
    ((a as u32 + 2 * (b as u32) + c as u32 + 2) / 4) as u8
}

/// Ways of predicting a square block as a whole.
#[derive(Clone, Copy, PartialEq, Eq, Structural, Debug)]
pub enum Shape {
    /// Each column repeats the pixel above it.
    V,
    /// Each row repeats the pixel to its left.
    H,
    /// The gradient of the two edges.
    Tm,
    /// Mid grey.
    Dc128,
    /// The mean of the pixels to the left.
    DcLeft,
    /// The mean of the pixels above.
    DcTop,
    /// The mean of both edges.
    Dc,
    /// Along lines that fall steeply to the right.
    D117,
    /// Along the diagonal.
    D135,
    /// Along lines that fall gently to the right.
    D153,
}

/// The sum of the first `n` entries of `s` from `from` on.
pub open spec fn edge_sum(s: Seq<u8>, from: int, n: int) -> int
    decreases n,
{
    if n <= 0 {
        0
    } else {
        edge_sum(s, from, n - 1) + s[from + n - 1]
    }
}

/// The mean that fills a block of `bs` rows and columns.
pub open spec fn dc_value(bs: int, shape: Shape, edge: Seq<u8>, left: Seq<u8>) -> u8 {
    match shape {
        Shape::DcLeft => ((edge_sum(left, 0, bs) + bs / 2) / bs) as u8,
        Shape::DcTop => ((edge_sum(edge, 1, bs) + bs / 2) / bs) as u8,
        Shape::Dc => ((edge_sum(edge, 1, bs) + edge_sum(left, 0, bs) + bs) / (2 * bs)) as u8,
        _ => 128,
    }
}

/// The pixels around the corner of a block of `bs` rows and columns: those to the left from
/// the bottom up, the corner, and those above from left to right.
pub open spec fn corner_line(bs: int, edge: Seq<u8>, left: Seq<u8>, k: int) -> int {
    if k < bs {
        left[bs - 1 - k] as int
    } else {
        edge[k - bs] as int
    }
}

/// The mean of the pixels of the corner line at `k` and `k + 1`.
pub open spec fn line2(bs: int, edge: Seq<u8>, left: Seq<u8>, k: int) -> u8 {
    mean2(corner_line(bs, edge, left, k), corner_line(bs, edge, left, k + 1))
}

/// The weighted mean of the pixels of the corner line around `k`.
pub open spec fn line3(bs: int, edge: Seq<u8>, left: Seq<u8>, k: int) -> u8 {
    mean3(
        corner_line(bs, edge, left, k - 1),
        corner_line(bs, edge, left, k),
        corner_line(bs, edge, left, k + 1),
    )
}

/// The predicted pixel in row `i` and column `j` of a square block.
pub open spec fn square_pixel(
    bs: int,
    shape: Shape,
    edge: Seq<u8>,
    left: Seq<u8>,
    i: int,
    j: int,
) -> u8 {
    match shape {
        Shape::V => edge[j + 1],
        Shape::H => left[i],
        Shape::Tm => clip(left[i] + edge[j + 1] - edge[0]),
        Shape::D117 => {
            let k = 2 * j - i;
            if k < 0 {
                line3(bs, edge, left, bs + 1 + k)
            } else if k % 2 == 0 {
                line2(bs, edge, left, bs + k / 2)
            } else {
                line3(bs, edge, left, bs + 1 + k / 2)
            }
        },
        Shape::D135 => line3(bs, edge, left, bs - i + j),
        Shape::D153 => {
            let k = 2 * i - j;
            if k < 0 {
                line3(bs, edge, left, bs - 1 - k)
            } else if k % 2 == 0 {
                line2(bs, edge, left, bs - 1 - k / 2)
            } else {
                line3(bs, edge, left, bs - 1 - k / 2)
            }
        },
        _ => dc_value(bs, shape, edge, left),
    }
}

/// `p` with the `bs x bs` block at `(r0, c0)` predicted.
pub open spec fn predict_square_pic(
    p: Pic,
    r0: int,
    c0: int,
    bs: int,
    shape: Shape,
    edge: Seq<u8>,
    left: Seq<u8>,
) -> Pic {
    blit(p, r0, c0, bs, bs, |i: int, j: int| square_pixel(bs, shape, edge, left, i, j))
}

fn sum16(s: &[u8], from: usize, n: usize) -> (t: u32)
    requires
        n <= 16,
        from <= 1,
        from + n <= s@.len(),
    ensures
        t == edge_sum(s@, from as int, n as int),
        t <= 255 * n,
{
    let mut t: u32 = 0;
    let mut k: usize = 0;
    while k < n
        invariant
            k <= n,
            n <= 16,
            from <= 1,
            from + n <= s@.len(),
            t == edge_sum(s@, from as int, k as int),
            t <= 255 * k,
        decreases n - k,
    {
        t = t + s[from + k] as u32;
        k += 1;
    }
    t
}

/// Computes the mean that fills a block.
fn dc_fill(bs: usize, shape: Shape, edge: &Edge, left: &Left) -> (v: u8)
    requires
        bs == 4 || bs == 8 || bs == 16,
    ensures
        v == dc_value(bs as int, shape, edge@, left@),
{
    match shape {
        Shape::DcLeft => {
            let s: u32 = sum16(left.as_slice(), 0, bs);
            ((s + bs as u32 / 2) / bs as u32) as u8
        },
        Shape::DcTop => {
            let s: u32 = sum16(edge.as_slice(), 1, bs);
            ((s + bs as u32 / 2) / bs as u32) as u8
        },
        Shape::Dc => {
            let a: u32 = sum16(edge.as_slice(), 1, bs);
            let l: u32 = sum16(left.as_slice(), 0, bs);
            ((a + l + bs as u32) / (2 * bs as u32)) as u8
        },
        _ => 128,
    }
}

fn corner(bs: usize, edge: &Edge, left: &Left, k: usize) -> (v: u8)
    requires
        bs == 4 || bs == 8 || bs == 16,
        k <= 2 * bs,
    ensures
        v == corner_line(bs as int, edge@, left@, k as int),
{
    if k < bs {
        left[bs - 1 - k]
    } else {
        edge[k - bs]
    }
}

fn mid2(bs: usize, edge: &Edge, left: &Left, k: usize) -> (v: u8)
    requires
        bs == 4 || bs == 8 || bs == 16,
        k < 2 * bs,
    ensures
        v == line2(bs as int, edge@, left@, k as int),
{
    avg2(corner(bs, edge, left, k), corner(bs, edge, left, k + 1))
}

fn mid3(bs: usize, edge: &Edge, left: &Left, k: usize) -> (v: u8)
    requires
        bs == 4 || bs == 8 || bs == 16,
        1 <= k < 2 * bs,
    ensures
        v == line3(bs as int, edge@, left@, k as int),
{
    avg3(corner(bs, edge, left, k - 1), corner(bs, edge, left, k), corner(bs, edge, left, k + 1))
}

/// Computes one predicted pixel; `fill` is the mean where the block is filled with one.
fn pixel_square(bs: usize, shape: Shape, edge: &Edge, left: &Left, fill: u8, i: usize, j: usize) -> (v:
    u8)
    requires
        bs == 4 || bs == 8 || bs == 16,
        i < bs,
        j < bs,
        fill == dc_value(bs as int, shape, edge@, left@),
    ensures
        v == square_pixel(bs as int, shape, edge@, left@, i as int, j as int),
{
    match shape {
        Shape::V => edge[j + 1],
        Shape::H => left[i],
        Shape::Tm => clip_pixel(left[i] as i32 + edge[j + 1] as i32 - edge[0] as i32),
        Shape::D117 => {
            if 2 * j < i {
                mid3(bs, edge, left, bs + 1 + 2 * j - i)
            } else {
                let k: usize = 2 * j - i;
                if k % 2 == 0 {
                    mid2(bs, edge, left, bs + k / 2)
                } else {
                    mid3(bs, edge, left, bs + 1 + k / 2)
                }
            }
        },
        Shape::D135 => mid3(bs, edge, left, bs + j - i),
        Shape::D153 => {
            if 2 * i < j {
                mid3(bs, edge, left, bs - 1 + j - 2 * i)
            } else {
                let k: usize = 2 * i - j;
                if k % 2 == 0 {
                    mid2(bs, edge, left, bs - 1 - k / 2)
                } else {
                    mid3(bs, edge, left, bs - 1 - k / 2)
                }
            }
        },
        _ => fill,
    }
}

/// Predicts the `bs x bs` block at `(r0, c0)`.
pub fn predict_square(
    dst: &mut Plane,
    r0: usize,
    c0: usize,
    bs: usize,
    shape: Shape,
    edge: &Edge,
    left: &Left,
)
    requires
        bs == 4 || bs == 8 || bs == 16,
        r0 + bs <= old(dst).spec_rows(),
        c0 + bs <= old(dst).spec_stride(),
    ensures
        final(dst)@ == predict_square_pic(
            old(dst)@,
            r0 as int,
            c0 as int,
            bs as int,
            shape,
            edge@,
            left@,
        ),
        final(dst).spec_rows() == old(dst).spec_rows(),
        final(dst).spec_stride() == old(dst).spec_stride(),
{
    let ghost p = dst@;
    let fill: u8 = dc_fill(bs, shape, edge, left);
    let mut b: Block = [[0u8; 16]; 16];
    let mut i: usize = 0;
    while i < bs
        invariant
            i <= bs,
            bs == 4 || bs == 8 || bs == 16,
            fill == dc_value(bs as int, shape, edge@, left@),
            forall|k: int, j: int|
                0 <= k < i && 0 <= j < bs ==> #[trigger] b[k][j] == square_pixel(
                    bs as int,
                    shape,
                    edge@,
                    left@,
                    k,
                    j,
                ),
        decreases bs - i,
    {
        let mut j: usize = 0;
        while j < bs
            invariant
                i < bs,
                j <= bs,
                bs == 4 || bs == 8 || bs == 16,
                fill == dc_value(bs as int, shape, edge@, left@),
                forall|k: int, m: int|
                    (0 <= k < i && 0 <= m < bs) || (k == i && 0 <= m < j)
                        ==> #[trigger] b[k][m] == square_pixel(bs as int, shape, edge@, left@, k, m),
            decreases bs - j,
        {
            b[i][j] = pixel_square(bs, shape, edge, left, fill, i, j);
            j += 1;
        }
        i += 1;
    }
    dst.put_block(r0, c0, bs, bs, &b);
    proof {
        lemma_blit_same(
            p,
            r0 as int,
            c0 as int,
            bs as int,
            bs as int,
            |i: int, j: int| b[i][j],
            |i: int, j: int| square_pixel(bs as int, shape, edge@, left@, i, j),
        );
    }
}

/// The mean of the pixels above at `k` and `k + 1`.
pub open spec fn above2(edge: Seq<u8>, k: int) -> u8 {
    mean2(edge[k + 1] as int, edge[k + 2] as int)
}

/// The weighted mean of the pixels above at `k`, `k + 1` and `k + 2`.
pub open spec fn above3(edge: Seq<u8>, k: int) -> u8 {
    mean3(edge[k + 1] as int, edge[k + 2] as int, edge[k + 3] as int)
}

/// The predicted pixel in row `i` and column `j` of a 4x4 block.
pub open spec fn b_pixel(
    mode: BPredictionMode,
    edge: Seq<u8>,
    left: Seq<u8>,
    i: int,
    j: int,
) -> u8 {
    match mode {
        BPredictionMode::DcPred => square_pixel(4, Shape::Dc, edge, left, i, j),
        BPredictionMode::TmPred => square_pixel(4, Shape::Tm, edge, left, i, j),
        BPredictionMode::VePred => mean3(edge[j] as int, edge[j + 1] as int, edge[j + 2] as int),
        BPredictionMode::HePred => if i == 3 {
            mean3(left[2] as int, left[3] as int, left[3] as int)
        } else {
            line3(4, edge, left, 3 - i)
        },
        BPredictionMode::LdPred => if i + j == 6 {
            mean3(edge[7] as int, edge[8] as int, edge[8] as int)
        } else {
            above3(edge, i + j)
        },
        BPredictionMode::RdPred => square_pixel(4, Shape::D135, edge, left, i, j),
        BPredictionMode::VrPred => square_pixel(4, Shape::D117, edge, left, i, j),
        BPredictionMode::HdPred => square_pixel(4, Shape::D153, edge, left, i, j),
        BPredictionMode::VlPred => if j == 3 && i >= 2 {
            above3(edge, i + 2)
        } else if i % 2 == 0 {
            above2(edge, i / 2 + j)
        } else {
            above3(edge, i / 2 + j)
        },
        _ => {
            let k = 2 * i + j;
            if k > 5 {
                left[3]
            } else if k == 5 {
                mean3(left[2] as int, left[3] as int, left[3] as int)
            } else if k % 2 == 0 {
                mean2(left[k / 2] as int, left[k / 2 + 1] as int)
            } else {
                mean3(left[k / 2] as int, left[k / 2 + 1] as int, left[k / 2 + 2] as int)
            }
        },
    }
}

/// `p` with the 4x4 block at `(r0, c0)` predicted.
pub open spec fn predict4_pic(
    p: Pic,
    r0: int,
    c0: int,
    mode: BPredictionMode,
    edge: Seq<u8>,
    left: Seq<u8>,
) -> Pic {
    blit(p, r0, c0, 4, 4, |i: int, j: int| b_pixel(mode, edge, left, i, j))
}

fn pixel4(mode: BPredictionMode, edge: &Edge, left: &Left, dc: u8, i: usize, j: usize) -> (v: u8)
    requires
        i < 4,
        j < 4,
        dc == dc_value(4, Shape::Dc, edge@, left@),
    ensures
        v == b_pixel(mode, edge@, left@, i as int, j as int),
{
    match mode {
        BPredictionMode::DcPred => dc,
        BPredictionMode::TmPred => pixel_square(4, Shape::Tm, edge, left, 128, i, j),
        BPredictionMode::VePred => avg3(edge[j], edge[j + 1], edge[j + 2]),
        BPredictionMode::HePred => {
            if i == 3 {
                avg3(left[2], left[3], left[3])
            } else {
                mid3(4, edge, left, 3 - i)
            }
        },
        BPredictionMode::LdPred => {
            if i + j == 6 {
                avg3(edge[7], edge[8], edge[8])
            } else {
                avg3(edge[i + j + 1], edge[i + j + 2], edge[i + j + 3])
            }
        },
        BPredictionMode::RdPred => pixel_square(4, Shape::D135, edge, left, 128, i, j),
        BPredictionMode::VrPred => pixel_square(4, Shape::D117, edge, left, 128, i, j),
        BPredictionMode::HdPred => pixel_square(4, Shape::D153, edge, left, 128, i, j),
        BPredictionMode::VlPred => {
            if j == 3 && i >= 2 {
                avg3(edge[i + 3], edge[i + 4], edge[i + 5])
            } else if i % 2 == 0 {
                avg2(edge[i / 2 + j + 1], edge[i / 2 + j + 2])
            } else {
                avg3(edge[i / 2 + j + 1], edge[i / 2 + j + 2], edge[i / 2 + j + 3])
            }
        },
        _ => {
            let k: usize = 2 * i + j;
            if k > 5 {
                left[3]
            } else if k == 5 {
                avg3(left[2], left[3], left[3])
            } else if k % 2 == 0 {
                avg2(left[k / 2], left[k / 2 + 1])
            } else {
                avg3(left[k / 2], left[k / 2 + 1], left[k / 2 + 2])
            }
        },
    }
}

/// Predicts the 4x4 block at `(r0, c0)`.
pub fn predict4(
    dst: &mut Plane,
    r0: usize,
    c0: usize,
    mode: BPredictionMode,
    edge: &Edge,
    left: &Left,
)
    requires
        r0 + 4 <= old(dst).spec_rows(),
        c0 + 4 <= old(dst).spec_stride(),
    ensures
        final(dst)@ == predict4_pic(old(dst)@, r0 as int, c0 as int, mode, edge@, left@),
        final(dst).spec_rows() == old(dst).spec_rows(),
        final(dst).spec_stride() == old(dst).spec_stride(),
{
    let ghost p = dst@;
    let dc: u8 = dc_fill(4, Shape::Dc, edge, left);
    let mut b: Block = [[0u8; 16]; 16];
    let mut i: usize = 0;
    while i < 4
        invariant
            i <= 4,
            dc == dc_value(4, Shape::Dc, edge@, left@),
            forall|k: int, j: int|
                0 <= k < i && 0 <= j < 4 ==> #[trigger] b[k][j] == b_pixel(mode, edge@, left@, k, j),
        decreases 4 - i,
    {
        let mut j: usize = 0;
        while j < 4
            invariant
                i < 4,
                j <= 4,
                dc == dc_value(4, Shape::Dc, edge@, left@),
                forall|k: int, m: int|
                    (0 <= k < i && 0 <= m < 4) || (k == i && 0 <= m < j)
                        ==> #[trigger] b[k][m] == b_pixel(mode, edge@, left@, k, m),
            decreases 4 - j,
        {
            b[i][j] = pixel4(mode, edge, left, dc, i, j);
            j += 1;
        }
        i += 1;
    }
    dst.put_block(r0, c0, 4, 4, &b);
    proof {
        lemma_blit_same(
            p,
            r0 as int,
            c0 as int,
            4,
            4,
            |i: int, j: int| b[i][j],
            |i: int, j: int| b_pixel(mode, edge@, left@, i, j),
        );
    }
}

/// Where all pixels around a subblock are the same, every mode predicts just that pixel.
pub proof fn law_flat_subblock(
    mode: BPredictionMode,
    edge: Seq<u8>,
    left: Seq<u8>,
    v: u8,
    i: int,
    j: int,
)
    requires
        edge.len() == 17,
        left.len() == 16,
        forall|k: int| 0 <= k <= 8 ==> #[trigger] edge[k] == v,
        forall|k: int| 0 <= k < 4 ==> #[trigger] left[k] == v,
        0 <= i < 4,
        0 <= j < 4,
        mode != BPredictionMode::Left4x4,
        mode != BPredictionMode::Above4x4,
        mode != BPredictionMode::Zero4x4,
        mode != BPredictionMode::New4x4,
    ensures
        b_pixel(mode, edge, left, i, j) == v,
{
    reveal_with_fuel(edge_sum, 5);
    assert(edge[0] == v && edge[1] == v && edge[2] == v && edge[3] == v && edge[4] == v && edge[5]
        == v && edge[6] == v && edge[7] == v && edge[8] == v);
    assert(left[0] == v && left[1] == v && left[2] == v && left[3] == v);
    assert(edge_sum(edge, 1, 4) == 4 * v);
    assert(edge_sum(left, 0, 4) == 4 * v);
    assert(forall|k: int| 0 <= k <= 12 ==> #[trigger] corner_line(4, edge, left, k) == v);
    assert(i == 0 || i == 1 || i == 2 || i == 3);
    assert(j == 0 || j == 1 || j == 2 || j == 3);
    let x = v as int;
    assert(mean2(x, x) == v && mean3(x, x, x) == v);
    assert(clip(x) == v);
    assert(forall|k: int| 1 <= k <= 11 ==> #[trigger] line3(4, edge, left, k) == v);
    assert(forall|k: int| 0 <= k <= 11 ==> #[trigger] line2(4, edge, left, k) == v);
    assert(forall|k: int| 0 <= k <= 5 ==> #[trigger] above3(edge, k) == v);
    assert(forall|k: int| 0 <= k <= 6 ==> #[trigger] above2(edge, k) == v);
    match mode {
        BPredictionMode::DcPred => {
            let sum = edge_sum(edge, 1, 4) + edge_sum(left, 0, 4) + 4;
            assert(sum == 8 * x + 4);
            assert(2 * 4int == 8);
            assert(sum / 8 == x);
            assert(dc_value(4, Shape::Dc, edge, left) == (sum / (2 * 4int)) as u8);
        },
        BPredictionMode::TmPred => {},
        BPredictionMode::VePred => {},
        BPredictionMode::HePred => {},
        BPredictionMode::LdPred => {},
        BPredictionMode::RdPred => {
            assert(line3(4, edge, left, 4 - i + j) == v);
        },
        BPredictionMode::VrPred => {
            let k = 2 * j - i;
            if k < 0 {
                assert(line3(4, edge, left, 5 + k) == v);
            } else if k % 2 == 0 {
                assert(line2(4, edge, left, 4 + k / 2) == v);
            } else {
                assert(line3(4, edge, left, 5 + k / 2) == v);
            }
        },
        BPredictionMode::HdPred => {
            let k = 2 * i - j;
            if k < 0 {
                assert(line3(4, edge, left, 3 - k) == v);
            } else if k % 2 == 0 {
                assert(line2(4, edge, left, 3 - k / 2) == v);
            } else {
                assert(line3(4, edge, left, 3 - k / 2) == v);
            }
        },
        _ => {},
    }
}

} // verus!
