//! What prediction inside a frame makes of the pixels around a block.

use crate::intrapred::{
    above2, above3, b_pixel, corner_line, dc_value, edge_sum, line2, line3, mean2, mean3,
    square_pixel, Shape,
};
use crate::types::BPredictionMode;
use vstd::prelude::*;

verus! {

/// Means of pixels are the nearest numbers, and the larger of two that are as near.
pub proof fn law_means(a: u8, b: u8, c: u8)
    ensures
        0 <= 2 * mean2(a as int, b as int) - (a + b) <= 1,
        -1 <= 4 * mean3(a as int, b as int, c as int) - (a + 2 * b + c) <= 2,
        mean3(a as int, b as int, c as int) == mean3(c as int, b as int, a as int),
{
}

/// A sum over an edge takes each of its pixels once: the first and the sum over the others.
pub proof fn law_edge_sum(s: Seq<u8>, from: int, n: int)
    requires
        0 < n,
    ensures
        edge_sum(s, from, n) == s[from] + edge_sum(s, from + 1, n - 1),
        edge_sum(s, from, 0) == 0,
        0 <= edge_sum(s, from, n) <= 255 * n,
    decreases n,
{
    if n > 1 {
        law_edge_sum(s, from, n - 1);
    } else {
        assert(edge_sum(s, from, 0) == 0);
    }
}

/// A block that repeats an edge does so in each row or column; the gradient of both edges differs
/// from the pixel to the left by what the pixel above differs from the corner, within the values of
/// a pixel.
pub proof fn law_square_pixels(bs: int, edge: Seq<u8>, left: Seq<u8>, i: int, j: int)
    ensures
        square_pixel(bs, Shape::V, edge, left, i, j) == edge[j + 1],
        square_pixel(bs, Shape::H, edge, left, i, j) == left[i],
        square_pixel(bs, Shape::Dc128, edge, left, i, j) == 128,
        ({
            let p = square_pixel(bs, Shape::Tm, edge, left, i, j);
            let t = left[i] + (edge[j + 1] - edge[0]);
            &&& 0 <= t <= 255 ==> p == t
            &&& t < 0 ==> p == 0
            &&& t > 255 ==> p == 255
        }),
{
}

/// A flat block has the mean of the edges that it is taken over, rounded to the nearest.
pub proof fn law_flat_means(bs: int, edge: Seq<u8>, left: Seq<u8>, i: int, j: int)
    requires
        bs == 4 || bs == 8 || bs == 16,
    ensures
        ({
            let a = edge_sum(edge, 1, bs);
            let l = edge_sum(left, 0, bs);
            let both = square_pixel(bs, Shape::Dc, edge, left, i, j);
            let top = square_pixel(bs, Shape::DcTop, edge, left, i, j);
            let side = square_pixel(bs, Shape::DcLeft, edge, left, i, j);
            &&& -bs < 2 * bs * both - (a + l) <= bs
            &&& -bs < 2 * (bs * top - a) <= bs
            &&& -bs < 2 * (bs * side - l) <= bs
        }),
{
    law_edge_sum(edge, 1, bs);
    law_edge_sum(left, 0, bs);
    let a = edge_sum(edge, 1, bs);
    let l = edge_sum(left, 0, bs);
    let both = dc_value(bs, Shape::Dc, edge, left);
    let top = dc_value(bs, Shape::DcTop, edge, left);
    let side = dc_value(bs, Shape::DcLeft, edge, left);
    if bs == 4 {
        assert(both == (a + l + 4) / 8);
        assert(top == (a + 2) / 4);
        assert(side == (l + 2) / 4);
        assert(bs * both == 4 * both && bs * top == 4 * top && bs * side == 4 * side);
        assert(2 * bs * both == 8 * both);
    } else if bs == 8 {
        assert(both == (a + l + 8) / 16);
        assert(top == (a + 4) / 8);
        assert(side == (l + 4) / 8);
        assert(bs * both == 8 * both && bs * top == 8 * top && bs * side == 8 * side);
        assert(2 * bs * both == 16 * both);
    } else {
        assert(both == (a + l + 16) / 32);
        assert(top == (a + 8) / 16);
        assert(side == (l + 8) / 16);
        assert(bs * both == 16 * both && bs * top == 16 * top && bs * side == 16 * side);
        assert(2 * bs * both == 32 * both);
    }
}

/// The edges of a block, with what lies above and what lies to the left exchanged.
pub open spec fn exchanged(
    bs: int,
    edge: Seq<u8>,
    left: Seq<u8>,
    edge2: Seq<u8>,
    left2: Seq<u8>,
) -> bool {
    &&& edge2[0] == edge[0]
    &&& forall|k: int| 1 <= k <= bs ==> #[trigger] edge2[k] == left[k - 1]
    &&& forall|k: int| 0 <= k < bs ==> #[trigger] left2[k] == edge[k + 1]
}

/// Lines that fall steeply and lines that fall gently are the same, seen from the other edge; the
/// falling diagonal and the gradient are their own counterparts, and so is what repeats an edge.
pub proof fn law_edges_exchange(
    bs: int,
    edge: Seq<u8>,
    left: Seq<u8>,
    edge2: Seq<u8>,
    left2: Seq<u8>,
    i: int,
    j: int,
)
    requires
        bs == 4 || bs == 8 || bs == 16,
        exchanged(bs, edge, left, edge2, left2),
        0 <= i < bs,
        0 <= j < bs,
    ensures
        square_pixel(bs, Shape::D117, edge, left, i, j) == square_pixel(
            bs,
            Shape::D153,
            edge2,
            left2,
            j,
            i,
        ),
        square_pixel(bs, Shape::D135, edge, left, i, j) == square_pixel(
            bs,
            Shape::D135,
            edge2,
            left2,
            j,
            i,
        ),
        square_pixel(bs, Shape::Tm, edge, left, i, j) == square_pixel(
            bs,
            Shape::Tm,
            edge2,
            left2,
            j,
            i,
        ),
        square_pixel(bs, Shape::V, edge, left, i, j) == square_pixel(
            bs,
            Shape::H,
            edge2,
            left2,
            j,
            i,
        ),
{
    assert forall|k: int| 0 <= k <= 2 * bs implies #[trigger] corner_line(bs, edge, left, k)
        == corner_line(bs, edge2, left2, 2 * bs - k) by {
        if k < bs {
            assert(edge2[bs - k] == left[bs - k - 1]);
        } else if k > bs {
            assert(left2[k - bs - 1] == edge[k - bs]);
        }
    }
    assert forall|k: int| 0 <= k < 2 * bs implies #[trigger] line2(bs, edge, left, k) == line2(
        bs,
        edge2,
        left2,
        2 * bs - 1 - k,
    ) by {
        assert(corner_line(bs, edge, left, k) == corner_line(bs, edge2, left2, 2 * bs - k));
        assert(corner_line(bs, edge, left, k + 1) == corner_line(bs, edge2, left2, 2 * bs - k - 1));
    }
    assert forall|k: int| 1 <= k < 2 * bs implies #[trigger] line3(bs, edge, left, k) == line3(
        bs,
        edge2,
        left2,
        2 * bs - k,
    ) by {
        assert(corner_line(bs, edge, left, k - 1) == corner_line(bs, edge2, left2, 2 * bs - k + 1));
        assert(corner_line(bs, edge, left, k) == corner_line(bs, edge2, left2, 2 * bs - k));
        assert(corner_line(bs, edge, left, k + 1) == corner_line(bs, edge2, left2, 2 * bs - k - 1));
    }
    let k = 2 * j - i;
    if k < 0 {
        assert(line3(bs, edge, left, bs + 1 + k) == line3(bs, edge2, left2, bs - 1 - k));
    } else if k % 2 == 0 {
        assert(line2(bs, edge, left, bs + k / 2) == line2(bs, edge2, left2, bs - 1 - k / 2));
    } else {
        assert(line3(bs, edge, left, bs + 1 + k / 2) == line3(bs, edge2, left2, bs - 1 - k / 2));
    }
    assert(line3(bs, edge, left, bs - i + j) == line3(bs, edge2, left2, bs + i - j));
    assert(left2[j] == edge[j + 1]);
    assert(edge2[i + 1] == left[i]);
}

/// Where the pixels around a subblock's corner rise evenly, from the bottom left to the top right,
/// a prediction along falling lines carries them on: each pixel is that of the place that its line
/// comes from, halfway between two pixels where the line comes from there.
pub proof fn law_falling_lines(edge: Seq<u8>, left: Seq<u8>, a: int, e: int, i: int, j: int)
    requires
        0 <= i < 4,
        0 <= j < 4,
        forall|k: int| 0 <= k <= 8 ==> #[trigger] corner_line(4, edge, left, k) == a + 2 * e * k,
    ensures
        b_pixel(BPredictionMode::RdPred, edge, left, i, j) == a + 2 * e * (4 + j - i),
        b_pixel(BPredictionMode::VrPred, edge, left, i, j) == (if 2 * j < i {
            a + 2 * e * (5 + 2 * j - i)
        } else {
            a + e * (9 + 2 * j - i)
        }),
        b_pixel(BPredictionMode::HdPred, edge, left, i, j) == (if 2 * i < j {
            a + 2 * e * (3 + j - 2 * i)
        } else {
            a + e * (7 + j - 2 * i)
        }),
        i < 3 ==> b_pixel(BPredictionMode::HePred, edge, left, i, j) == a + 2 * e * (3 - i),
{
    lemma_ramp(edge, left, a, e);
    let k = 2 * j - i;
    if k < 0 {
        assert(line3(4, edge, left, 5 + k) == a + 2 * e * (5 + k));
    } else if k % 2 == 0 {
        assert(line2(4, edge, left, 4 + k / 2) == a + e * (2 * (4 + k / 2) + 1));
        assert(2 * (4 + k / 2) + 1 == 9 + 2 * j - i);
    } else {
        assert(line3(4, edge, left, 5 + k / 2) == a + 2 * e * (5 + k / 2));
        lemma_twice(e, 5 + k / 2, 9 + 2 * j - i);
    }
    let m = 2 * i - j;
    if m < 0 {
        assert(line3(4, edge, left, 3 - m) == a + 2 * e * (3 - m));
    } else if m % 2 == 0 {
        assert(line2(4, edge, left, 3 - m / 2) == a + e * (2 * (3 - m / 2) + 1));
        assert(2 * (3 - m / 2) + 1 == 7 + j - 2 * i);
    } else {
        assert(line3(4, edge, left, 3 - m / 2) == a + 2 * e * (3 - m / 2));
        lemma_twice(e, 3 - m / 2, 7 + j - 2 * i);
    }
}

proof fn lemma_twice(e: int, x: int, y: int)
    requires
        y == 2 * x,
    ensures
        2 * e * x == e * y,
{
    assert(2 * e * x == e * y) by (nonlinear_arith)
        requires
            y == 2 * x,
    ;
}

proof fn lemma_ramp(edge: Seq<u8>, left: Seq<u8>, a: int, e: int)
    requires
        forall|k: int| 0 <= k <= 8 ==> #[trigger] corner_line(4, edge, left, k) == a + 2 * e * k,
    ensures
        forall|k: int| 0 <= k < 8 ==> #[trigger] line2(4, edge, left, k) == a + e * (2 * k + 1),
        forall|k: int| 1 <= k < 8 ==> #[trigger] line3(4, edge, left, k) == a + 2 * e * k,
{
    assert forall|k: int| 0 <= k < 8 implies #[trigger] line2(4, edge, left, k) == a + e * (2 * k
        + 1) by {
        let x = corner_line(4, edge, left, k);
        let y = corner_line(4, edge, left, k + 1);
        assert(x + y == 2 * (a + e * (2 * k + 1))) by (nonlinear_arith)
            requires
                x == a + 2 * e * k,
                y == a + 2 * e * (k + 1),
        ;
    }
    assert forall|k: int| 1 <= k < 8 implies #[trigger] line3(4, edge, left, k) == a + 2 * e * k by {
        let x = corner_line(4, edge, left, k - 1);
        let y = corner_line(4, edge, left, k);
        let z = corner_line(4, edge, left, k + 1);
        assert(x + 2 * y + z == 4 * (a + 2 * e * k)) by (nonlinear_arith)
            requires
                x == a + 2 * e * (k - 1),
                y == a + 2 * e * k,
                z == a + 2 * e * (k + 1),
        ;
    }
}

/// The same for lines that rise to the right, along the pixels above: the last pixel of the
/// diagonal is nearer to the last pixel above, and two of the steep lines come from further to the
/// right.
pub proof fn law_rising_lines(edge: Seq<u8>, left: Seq<u8>, a: int, e: int, i: int, j: int)
    requires
        edge.len() == 17,
        0 <= i < 4,
        0 <= j < 4,
        forall|k: int| 0 <= k <= 8 ==> #[trigger] edge[k] == a + 2 * e * k,
    ensures
        i + j < 6 ==> b_pixel(BPredictionMode::LdPred, edge, left, i, j) == a + 2 * e * (i + j + 2),
        i + j == 6 ==> b_pixel(BPredictionMode::LdPred, edge, left, i, j) == mean3(
            edge[7] as int,
            edge[8] as int,
            edge[8] as int,
        ),
        b_pixel(BPredictionMode::VlPred, edge, left, i, j) == (if j == 3 && i >= 2 {
            a + 2 * e * (i + 4)
        } else {
            a + e * (i + 2 * j + 3)
        }),
        b_pixel(BPredictionMode::VePred, edge, left, i, j) == a + 2 * e * (j + 1),
{
    assert forall|k: int| 0 <= k <= 6 implies #[trigger] above2(edge, k) == a + e * (2 * k + 3) by {
        let (x, y) = (edge[k + 1] as int, edge[k + 2] as int);
        assert(x + y == 2 * (a + e * (2 * k + 3))) by (nonlinear_arith)
            requires
                x == a + 2 * e * (k + 1),
                y == a + 2 * e * (k + 2),
        ;
    }
    assert forall|k: int| -1 <= k <= 5 implies #[trigger] above3(edge, k) == a + 2 * e * (k + 2) by {
        let (x, y, z) = (edge[k + 1] as int, edge[k + 2] as int, edge[k + 3] as int);
        assert(x + 2 * y + z == 4 * (a + 2 * e * (k + 2))) by (nonlinear_arith)
            requires
                x == a + 2 * e * (k + 1),
                y == a + 2 * e * (k + 2),
                z == a + 2 * e * (k + 3),
        ;
    }
    if j == 3 && i >= 2 {
        assert(above3(edge, i + 2) == a + 2 * e * (i + 4));
    } else if i % 2 == 0 {
        assert(above2(edge, i / 2 + j) == a + e * (2 * (i / 2 + j) + 3));
        assert(2 * (i / 2 + j) + 3 == i + 2 * j + 3);
    } else {
        assert(above3(edge, i / 2 + j) == a + 2 * e * (i / 2 + j + 2));
        lemma_twice(e, i / 2 + j + 2, i + 2 * j + 3);
    }
    assert(b_pixel(BPredictionMode::VePred, edge, left, i, j) == above3(edge, j - 1));
}

/// The same for lines that rise gently to the right, along the pixels to the left, which end with
/// the last of them.
pub proof fn law_gently_rising_lines(edge: Seq<u8>, left: Seq<u8>, a: int, e: int, i: int, j: int)
    requires
        left.len() == 16,
        0 <= i < 4,
        0 <= j < 4,
        forall|k: int| 0 <= k < 4 ==> #[trigger] left[k] == a + 2 * e * k,
    ensures
        ({
            let p = b_pixel(BPredictionMode::HuPred, edge, left, i, j);
            let k = 2 * i + j;
            &&& k < 5 ==> p == a + e * (k + 1)
            &&& k == 5 ==> p == mean3(left[2] as int, left[3] as int, left[3] as int)
            &&& k > 5 ==> p == left[3]
        }),
        i == 3 ==> b_pixel(BPredictionMode::HePred, edge, left, i, j) == mean3(
            left[2] as int,
            left[3] as int,
            left[3] as int,
        ),
{
    assert(left[0] == a && left[1] == a + 2 * e && left[2] == a + 4 * e && left[3] == a + 6 * e);
    let k = 2 * i + j;
    if k < 5 {
        let p = b_pixel(BPredictionMode::HuPred, edge, left, i, j);
        if k == 0 {
            assert(p == a + e);
            assert(e * (k + 1) == e) by (nonlinear_arith)
                requires
                    k == 0,
            ;
        } else if k == 1 {
            assert(p == a + 2 * e);
            assert(e * (k + 1) == 2 * e) by (nonlinear_arith)
                requires
                    k == 1,
            ;
        } else if k == 2 {
            assert(p == a + 3 * e);
            assert(e * (k + 1) == 3 * e) by (nonlinear_arith)
                requires
                    k == 2,
            ;
        } else if k == 3 {
            assert(p == a + 4 * e);
            assert(e * (k + 1) == 4 * e) by (nonlinear_arith)
                requires
                    k == 3,
            ;
        } else if k == 4 {
            assert(p == a + 5 * e);
            assert(e * (k + 1) == 5 * e) by (nonlinear_arith)
                requires
                    k == 4,
            ;
        }
    }
}

} // verus!
