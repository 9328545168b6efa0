//! The filters that smooth block edges.
//!
//! A filter looks at the pixels on a line across an edge. They are handed over as eight taps:
//! four before the edge and four behind it.

use crate::arith::{clamp_i32, clamp_int, lemma_shr};
use crate::grid::{blit, lemma_blit_same, Block, Pic, Plane};
use crate::types::{FramePlanes, Yuv};
use vstd::prelude::*;

verus! {

/// The limits of the loop filter at one level.
#[derive(Clone, Copy, PartialEq, Eq, Structural, Debug)]
pub struct LoopFilterInfo {
    /// The edge limit between macroblocks.
    pub mblim: u8,
    /// The edge limit inside a macroblock.
    pub blim: u8,
    /// The limit of the differences on each side of the edge.
    pub lim: u8,
    /// The difference from which on an edge counts as one of high variance.
    pub hev_thr: u8,
}

/// Eight pixels across an edge.
pub type Taps = [u8; 8];

/// The distance of two numbers.
pub open spec fn dist(a: int, b: int) -> int {
    if a >= b {
        a - b
    } else {
        b - a
    }
}

/// `x` limited to the range of a signed byte.
pub open spec fn sclamp(x: int) -> int {
    clamp_int(x, -128, 127)
}

/// A pixel as a signed number around mid grey.
pub open spec fn signed(x: u8) -> int {
    x - 128
}

/// The pixel of a signed number around mid grey.
pub open spec fn unsigned(x: int) -> u8 {
    (sclamp(x) + 128) as u8
}

/// The step across the edge is small enough to be smoothed.
pub open spec fn edge_small(t: Seq<u8>, blimit: u8) -> bool {
    2 * dist(t[3] as int, t[4] as int) + dist(t[2] as int, t[5] as int) / 2 <= blimit
}

/// The line is to be filtered: it is smooth on both sides and the step is small.
pub open spec fn filter_here(t: Seq<u8>, limit: u8, blimit: u8) -> bool {
    &&& dist(t[0] as int, t[1] as int) <= limit
    &&& dist(t[1] as int, t[2] as int) <= limit
    &&& dist(t[2] as int, t[3] as int) <= limit
    &&& dist(t[5] as int, t[4] as int) <= limit
    &&& dist(t[6] as int, t[5] as int) <= limit
    &&& dist(t[7] as int, t[6] as int) <= limit
    &&& edge_small(t, blimit)
}

/// The pixels next to the edge differ much from those behind them.
pub open spec fn high_variance(t: Seq<u8>, thresh: u8) -> bool {
    dist(t[2] as int, t[3] as int) > thresh || dist(t[5] as int, t[4] as int) > thresh
}

/// The four pixels next to an edge inside a macroblock, filtered.
pub open spec fn normal_out(t: Seq<u8>, blimit: u8, limit: u8, thresh: u8, k: int) -> u8 {
    let hev = high_variance(t, thresh);
    let (p1, p0, q0, q1) = (signed(t[2]), signed(t[3]), signed(t[4]), signed(t[5]));
    let outer = if hev {
        sclamp(p1 - q1)
    } else {
        0
    };
    let f = if filter_here(t, limit, blimit) {
        sclamp(outer + 3 * (q0 - p0))
    } else {
        0
    };
    let f1 = sclamp(f + 4) / 8;
    let f2 = sclamp(f + 3) / 8;
    let f3 = if hev {
        0
    } else {
        (f1 + 1) / 2
    };
    if k == 0 {
        unsigned(p1 + f3)
    } else if k == 1 {
        unsigned(p0 + f2)
    } else if k == 2 {
        unsigned(q0 - f1)
    } else {
        unsigned(q1 - f3)
    }
}

/// The six pixels next to an edge between macroblocks, filtered.
pub open spec fn mb_out(t: Seq<u8>, blimit: u8, limit: u8, thresh: u8, k: int) -> u8 {
    let hev = high_variance(t, thresh);
    let (p2, p1, p0) = (signed(t[1]), signed(t[2]), signed(t[3]));
    let (q0, q1, q2) = (signed(t[4]), signed(t[5]), signed(t[6]));
    let f = if filter_here(t, limit, blimit) {
        sclamp(sclamp(p1 - q1) + 3 * (q0 - p0))
    } else {
        0
    };
    let n = if hev {
        f
    } else {
        0
    };
    let wide = if hev {
        0
    } else {
        f
    };
    let qq = sclamp(q0 - sclamp(n + 4) / 8);
    let pp = sclamp(p0 + sclamp(n + 3) / 8);
    let u27 = sclamp((63 + wide * 27) / 128);
    let u18 = sclamp((63 + wide * 18) / 128);
    let u9 = sclamp((63 + wide * 9) / 128);
    if k == 0 {
        unsigned(p2 + u9)
    } else if k == 1 {
        unsigned(p1 + u18)
    } else if k == 2 {
        unsigned(pp + u27)
    } else if k == 3 {
        unsigned(qq - u27)
    } else if k == 4 {
        unsigned(q1 - u18)
    } else {
        unsigned(q2 - u9)
    }
}

/// The two pixels next to an edge, filtered by the simple filter.
pub open spec fn simple_out(t: Seq<u8>, blimit: u8, k: int) -> u8 {
    let (p1, p0, q0, q1) = (signed(t[2]), signed(t[3]), signed(t[4]), signed(t[5]));
    let f = if edge_small(t, blimit) {
        sclamp(sclamp(p1 - q1) + 3 * (q0 - p0))
    } else {
        0
    };
    if k == 0 {
        unsigned(p0 + sclamp(f + 3) / 8)
    } else {
        unsigned(q0 - sclamp(f + 4) / 8)
    }
}

/// The taps across the horizontal edge above row `r`, in column `c`.
pub open spec fn taps_down(p: Pic, r: int, c: int) -> Seq<u8> {
    Seq::new(8, |k: int| p[r - 4 + k][c])
}

/// The taps across the vertical edge before column `c`, in row `r`.
pub open spec fn taps_across(p: Pic, r: int, c: int) -> Seq<u8> {
    Seq::new(8, |k: int| p[r][c - 4 + k])
}

/// Limits `t` to the range of a signed byte.
fn vp8_signed_char_clamp(t: i32) -> (r: i32)
    ensures
        r == sclamp(t as int),
        -128 <= r <= 127,
{
    clamp_i32(t, -128, 127)
}

fn to_signed(x: u8) -> (r: i32)
    ensures
        r == signed(x),
        -128 <= r <= 127,
{
    x as i32 - 128
}

fn to_unsigned(x: i32) -> (r: u8)
    ensures
        r == unsigned(x as int),
{
    (vp8_signed_char_clamp(x) + 128) as u8
}

fn distance(a: u8, b: u8) -> (d: i32)
    ensures
        d == dist(a as int, b as int),
        0 <= d <= 255,
{
    if a >= b {
        a as i32 - b as i32
    } else {
        b as i32 - a as i32
    }
}

fn vp8_simple_filter_mask(t: &Taps, blimit: u8) -> (m: bool)
    ensures
        m == edge_small(t@, blimit),
{
    distance(t[3], t[4]) * 2 + distance(t[2], t[5]) / 2 <= blimit as i32
}

fn vp8_filter_mask(t: &Taps, limit: u8, blimit: u8) -> (m: bool)
    ensures
        m == filter_here(t@, limit, blimit),
{
    let l: i32 = limit as i32;
    distance(t[0], t[1]) <= l && distance(t[1], t[2]) <= l && distance(t[2], t[3]) <= l && distance(
        t[5],
        t[4],
    ) <= l && distance(t[6], t[5]) <= l && distance(t[7], t[6]) <= l && vp8_simple_filter_mask(
        t,
        blimit,
    )
}

fn vp8_hevmask(t: &Taps, thresh: u8) -> (h: bool)
    ensures
        h == high_variance(t@, thresh),
{
    distance(t[2], t[3]) > thresh as i32 || distance(t[5], t[4]) > thresh as i32
}

/// An arithmetic right shift of a small number.
fn shift3(x: i32) -> (r: i32)
    requires
        -128 <= x <= 127,
    ensures
        r == x as int / 8,
        -16 <= r <= 15,
{
    proof {
        lemma_shr(x);
    }
    x >> 3
}

fn shift7(x: i32) -> (r: i32)
    requires
        -100000 <= x <= 100000,
    ensures
        r == x as int / 128,
        -1000 <= r <= 1000,
{
    proof {
        lemma_shr(x);
    }
    x >> 7
}

/// Filters the four pixels next to an edge inside a macroblock.
fn vp8_filter(t: &Taps, blimit: u8, limit: u8, thresh: u8) -> (o: [u8; 4])
    ensures
        forall|k: int|
            0 <= k < 4 ==> #[trigger] o[k] == normal_out(t@, blimit, limit, thresh, k),
{
    let hev: bool = vp8_hevmask(t, thresh);
    let mask: bool = vp8_filter_mask(t, limit, blimit);
    let ps1: i32 = to_signed(t[2]);
    let ps0: i32 = to_signed(t[3]);
    let qs0: i32 = to_signed(t[4]);
    let qs1: i32 = to_signed(t[5]);
    let outer: i32 = if hev {
        vp8_signed_char_clamp(ps1 - qs1)
    } else {
        0
    };
    let f: i32 = if mask {
        vp8_signed_char_clamp(outer + 3 * (qs0 - ps0))
    } else {
        0
    };
    let f1: i32 = shift3(vp8_signed_char_clamp(f + 4));
    let f2: i32 = shift3(vp8_signed_char_clamp(f + 3));
    proof {
        lemma_shr((f1 + 1) as i32);
    }
    let f3: i32 = if hev {
        0
    } else {
        (f1 + 1) >> 1
    };
    [to_unsigned(ps1 + f3), to_unsigned(ps0 + f2), to_unsigned(qs0 - f1), to_unsigned(qs1 - f3)]
}

/// Filters the six pixels next to an edge between macroblocks.
fn vp8_mbfilter(t: &Taps, blimit: u8, limit: u8, thresh: u8) -> (o: [u8; 6])
    ensures
        forall|k: int| 0 <= k < 6 ==> #[trigger] o[k] == mb_out(t@, blimit, limit, thresh, k),
{
    let hev: bool = vp8_hevmask(t, thresh);
    let mask: bool = vp8_filter_mask(t, limit, blimit);
    let ps2: i32 = to_signed(t[1]);
    let ps1: i32 = to_signed(t[2]);
    let ps0: i32 = to_signed(t[3]);
    let qs0: i32 = to_signed(t[4]);
    let qs1: i32 = to_signed(t[5]);
    let qs2: i32 = to_signed(t[6]);
    let f: i32 = if mask {
        let outer: i32 = vp8_signed_char_clamp(ps1 - qs1);
        vp8_signed_char_clamp(outer + 3 * (qs0 - ps0))
    } else {
        0
    };
    let n: i32 = if hev {
        f
    } else {
        0
    };
    let wide: i32 = if hev {
        0
    } else {
        f
    };
    let qq: i32 = vp8_signed_char_clamp(qs0 - shift3(vp8_signed_char_clamp(n + 4)));
    let pp: i32 = vp8_signed_char_clamp(ps0 + shift3(vp8_signed_char_clamp(n + 3)));
    let u27: i32 = vp8_signed_char_clamp(shift7(63 + wide * 27));
    let u18: i32 = vp8_signed_char_clamp(shift7(63 + wide * 18));
    let u9: i32 = vp8_signed_char_clamp(shift7(63 + wide * 9));
    [
        to_unsigned(ps2 + u9),
        to_unsigned(ps1 + u18),
        to_unsigned(pp + u27),
        to_unsigned(qq - u27),
        to_unsigned(qs1 - u18),
        to_unsigned(qs2 - u9),
    ]
}

/// Filters the two pixels next to an edge.
fn vp8_simple_filter(t: &Taps, blimit: u8) -> (o: [u8; 2])
    ensures
        forall|k: int| 0 <= k < 2 ==> #[trigger] o[k] == simple_out(t@, blimit, k),
{
    let mask: bool = vp8_simple_filter_mask(t, blimit);
    let p1: i32 = to_signed(t[2]);
    let p0: i32 = to_signed(t[3]);
    let q0: i32 = to_signed(t[4]);
    let q1: i32 = to_signed(t[5]);
    let f: i32 = if mask {
        let outer: i32 = vp8_signed_char_clamp(p1 - q1);
        vp8_signed_char_clamp(outer + 3 * (q0 - p0))
    } else {
        0
    };
    let f2: i32 = shift3(vp8_signed_char_clamp(f + 3));
    let f1: i32 = shift3(vp8_signed_char_clamp(f + 4));
    [to_unsigned(p0 + f2), to_unsigned(q0 - f1)]
}

/// Reads the taps across a horizontal edge.
fn read_down(p: &Plane, r: usize, c: usize) -> (t: Taps)
    requires
        4 <= r,
        r + 4 <= p.spec_rows(),
        c < p.spec_stride(),
    ensures
        t@ == taps_down(p@, r as int, c as int),
{
    let t: Taps = [
        p.get(r - 4, c),
        p.get(r - 3, c),
        p.get(r - 2, c),
        p.get(r - 1, c),
        p.get(r, c),
        p.get(r + 1, c),
        p.get(r + 2, c),
        p.get(r + 3, c),
    ];
    assert(t@ =~= taps_down(p@, r as int, c as int));
    t
}

/// Reads the taps across a vertical edge.
fn read_across(p: &Plane, r: usize, c: usize) -> (t: Taps)
    requires
        4 <= c,
        c + 4 <= p.spec_stride(),
        r < p.spec_rows(),
    ensures
        t@ == taps_across(p@, r as int, c as int),
{
    let t: Taps = [
        p.get(r, c - 4),
        p.get(r, c - 3),
        p.get(r, c - 2),
        p.get(r, c - 1),
        p.get(r, c),
        p.get(r, c + 1),
        p.get(r, c + 2),
        p.get(r, c + 3),
    ];
    assert(t@ =~= taps_across(p@, r as int, c as int));
    t
}

/// Reads the four taps next to a horizontal edge.
fn read_down_near(p: &Plane, r: usize, c: usize) -> (t: Taps)
    requires
        2 <= r,
        r + 2 <= p.spec_rows(),
        c < p.spec_stride(),
    ensures
        forall|k: int| 2 <= k < 6 ==> #[trigger] t[k] == taps_down(p@, r as int, c as int)[k],
{
    [0, 0, p.get(r - 2, c), p.get(r - 1, c), p.get(r, c), p.get(r + 1, c), 0, 0]
}

/// Reads the four taps next to a vertical edge.
fn read_across_near(p: &Plane, r: usize, c: usize) -> (t: Taps)
    requires
        2 <= c,
        c + 2 <= p.spec_stride(),
        r < p.spec_rows(),
    ensures
        forall|k: int| 2 <= k < 6 ==> #[trigger] t[k] == taps_across(p@, r as int, c as int)[k],
{
    [0, 0, p.get(r, c - 2), p.get(r, c - 1), p.get(r, c), p.get(r, c + 1), 0, 0]
}

/// `p` with `n` columns from `c0` on filtered across the horizontal edge above row `r`: an edge
/// inside a macroblock.
#[verifier::opaque]
pub open spec fn normal_h(
    p: Pic,
    r: int,
    c0: int,
    blimit: u8,
    limit: u8,
    thresh: u8,
    n: int,
) -> Pic {
    blit(p, r - 2, c0, 4, n, |k: int, j: int| normal_out(taps_down(p, r, c0 + j), blimit, limit, thresh, k))
}

/// `p` with `n` rows from `r0` on filtered across the vertical edge before column `c`: an edge
/// inside a macroblock.
#[verifier::opaque]
pub open spec fn normal_v(
    p: Pic,
    r0: int,
    c: int,
    blimit: u8,
    limit: u8,
    thresh: u8,
    n: int,
) -> Pic {
    blit(p, r0, c - 2, n, 4, |i: int, k: int| normal_out(taps_across(p, r0 + i, c), blimit, limit, thresh, k))
}

/// Filters columns from `c0` on across the horizontal edge above row `r`: an edge inside a
/// macroblock.
fn loop_filter_horizontal_edge_c(
    p: &mut Plane,
    r: usize,
    c0: usize,
    blimit: u8,
    limit: u8,
    thresh: u8,
    n: usize,
)
    requires
        n == 8 || n == 16,
        4 <= r,
        r + 4 <= old(p).spec_rows(),
        c0 + n <= old(p).spec_stride(),
    ensures
        final(p)@ == normal_h(old(p)@, r as int, c0 as int, blimit, limit, thresh, n as int),
        final(p).spec_rows() == old(p).spec_rows(),
        final(p).spec_stride() == old(p).spec_stride(),
{
    let ghost start = p@;
    let mut b: Block = [[0u8; 16]; 16];
    let mut j: usize = 0;
    while j < n
        invariant
            n == 8 || n == 16,
            j <= n,
            4 <= r,
            r + 4 <= p.spec_rows(),
            c0 + n <= p.spec_stride(),
            p@ == start,
            forall|k: int, m: int|
                0 <= k < 4 && 0 <= m < j ==> #[trigger] b[k][m] == normal_out(
                    taps_down(start, r as int, c0 + m),
                    blimit, limit, thresh,
                    k,
                ),
        decreases n - j,
    {
        let t: Taps = read_down(p, r, c0 + j);
        let o: [u8; 4] = vp8_filter(&t, blimit, limit, thresh);
        b[0][j] = o[0];
        b[1][j] = o[1];
        b[2][j] = o[2];
        b[3][j] = o[3];
        j += 1;
    }
    p.put_block(r - 2, c0, 4, n, &b);
    proof {
        reveal(normal_h);
        lemma_blit_same(
            start,
            r - 2,
            c0 as int,
            4,
            n as int,
            |i: int, j: int| b[i][j],
            |k: int, j: int| normal_out(taps_down(start, r as int, c0 + j), blimit, limit, thresh, k),
        );
    }
}

/// Filters rows from `r0` on across the vertical edge before column `c`: an edge inside a
/// macroblock.
fn loop_filter_vertical_edge_c(
    p: &mut Plane,
    r0: usize,
    c: usize,
    blimit: u8,
    limit: u8,
    thresh: u8,
    n: usize,
)
    requires
        n == 8 || n == 16,
        4 <= c,
        c + 4 <= old(p).spec_stride(),
        r0 + n <= old(p).spec_rows(),
    ensures
        final(p)@ == normal_v(old(p)@, r0 as int, c as int, blimit, limit, thresh, n as int),
        final(p).spec_rows() == old(p).spec_rows(),
        final(p).spec_stride() == old(p).spec_stride(),
{
    let ghost start = p@;
    let mut b: Block = [[0u8; 16]; 16];
    let mut i: usize = 0;
    while i < n
        invariant
            n == 8 || n == 16,
            i <= n,
            4 <= c,
            c + 4 <= p.spec_stride(),
            r0 + n <= p.spec_rows(),
            p@ == start,
            forall|m: int, k: int|
                0 <= k < 4 && 0 <= m < i ==> #[trigger] b[m][k] == normal_out(
                    taps_across(start, r0 + m, c as int),
                    blimit, limit, thresh,
                    k,
                ),
        decreases n - i,
    {
        let t: Taps = read_across(p, r0 + i, c);
        let o: [u8; 4] = vp8_filter(&t, blimit, limit, thresh);
        b[i][0] = o[0];
        b[i][1] = o[1];
        b[i][2] = o[2];
        b[i][3] = o[3];
        i += 1;
    }
    p.put_block(r0, c - 2, n, 4, &b);
    proof {
        reveal(normal_v);
        lemma_blit_same(
            start,
            r0 as int,
            c - 2,
            n as int,
            4,
            |i: int, j: int| b[i][j],
            |i: int, k: int| normal_out(taps_across(start, r0 + i, c as int), blimit, limit, thresh, k),
        );
    }
}

/// `p` with `n` columns from `c0` on filtered across the horizontal edge above row `r`: an edge
/// between macroblocks.
#[verifier::opaque]
pub open spec fn mb_h(p: Pic, r: int, c0: int, blimit: u8, limit: u8, thresh: u8, n: int) -> Pic {
    blit(p, r - 3, c0, 6, n, |k: int, j: int| mb_out(taps_down(p, r, c0 + j), blimit, limit, thresh, k))
}

/// `p` with `n` rows from `r0` on filtered across the vertical edge before column `c`: an edge
/// between macroblocks.
#[verifier::opaque]
pub open spec fn mb_v(p: Pic, r0: int, c: int, blimit: u8, limit: u8, thresh: u8, n: int) -> Pic {
    blit(p, r0, c - 3, n, 6, |i: int, k: int| mb_out(taps_across(p, r0 + i, c), blimit, limit, thresh, k))
}

/// Filters columns from `c0` on across the horizontal edge above row `r`: an edge between
/// macroblocks.
fn mbloop_filter_horizontal_edge_c(
    p: &mut Plane,
    r: usize,
    c0: usize,
    blimit: u8,
    limit: u8,
    thresh: u8,
    n: usize,
)
    requires
        n == 8 || n == 16,
        4 <= r,
        r + 4 <= old(p).spec_rows(),
        c0 + n <= old(p).spec_stride(),
    ensures
        final(p)@ == mb_h(old(p)@, r as int, c0 as int, blimit, limit, thresh, n as int),
        final(p).spec_rows() == old(p).spec_rows(),
        final(p).spec_stride() == old(p).spec_stride(),
{
    let ghost start = p@;
    let mut b: Block = [[0u8; 16]; 16];
    let mut j: usize = 0;
    while j < n
        invariant
            n == 8 || n == 16,
            j <= n,
            4 <= r,
            r + 4 <= p.spec_rows(),
            c0 + n <= p.spec_stride(),
            p@ == start,
            forall|k: int, m: int|
                0 <= k < 6 && 0 <= m < j ==> #[trigger] b[k][m] == mb_out(
                    taps_down(start, r as int, c0 + m),
                    blimit, limit, thresh,
                    k,
                ),
        decreases n - j,
    {
        let t: Taps = read_down(p, r, c0 + j);
        let o: [u8; 6] = vp8_mbfilter(&t, blimit, limit, thresh);
        b[0][j] = o[0];
        b[1][j] = o[1];
        b[2][j] = o[2];
        b[3][j] = o[3];
        b[4][j] = o[4];
        b[5][j] = o[5];
        j += 1;
    }
    p.put_block(r - 3, c0, 6, n, &b);
    proof {
        reveal(mb_h);
        lemma_blit_same(
            start,
            r - 3,
            c0 as int,
            6,
            n as int,
            |i: int, j: int| b[i][j],
            |k: int, j: int| mb_out(taps_down(start, r as int, c0 + j), blimit, limit, thresh, k),
        );
    }
}

/// Filters rows from `r0` on across the vertical edge before column `c`: an edge between
/// macroblocks.
fn mbloop_filter_vertical_edge_c(
    p: &mut Plane,
    r0: usize,
    c: usize,
    blimit: u8,
    limit: u8,
    thresh: u8,
    n: usize,
)
    requires
        n == 8 || n == 16,
        4 <= c,
        c + 4 <= old(p).spec_stride(),
        r0 + n <= old(p).spec_rows(),
    ensures
        final(p)@ == mb_v(old(p)@, r0 as int, c as int, blimit, limit, thresh, n as int),
        final(p).spec_rows() == old(p).spec_rows(),
        final(p).spec_stride() == old(p).spec_stride(),
{
    let ghost start = p@;
    let mut b: Block = [[0u8; 16]; 16];
    let mut i: usize = 0;
    while i < n
        invariant
            n == 8 || n == 16,
            i <= n,
            4 <= c,
            c + 4 <= p.spec_stride(),
            r0 + n <= p.spec_rows(),
            p@ == start,
            forall|m: int, k: int|
                0 <= k < 6 && 0 <= m < i ==> #[trigger] b[m][k] == mb_out(
                    taps_across(start, r0 + m, c as int),
                    blimit, limit, thresh,
                    k,
                ),
        decreases n - i,
    {
        let t: Taps = read_across(p, r0 + i, c);
        let o: [u8; 6] = vp8_mbfilter(&t, blimit, limit, thresh);
        b[i][0] = o[0];
        b[i][1] = o[1];
        b[i][2] = o[2];
        b[i][3] = o[3];
        b[i][4] = o[4];
        b[i][5] = o[5];
        i += 1;
    }
    p.put_block(r0, c - 3, n, 6, &b);
    proof {
        reveal(mb_v);
        lemma_blit_same(
            start,
            r0 as int,
            c - 3,
            n as int,
            6,
            |i: int, j: int| b[i][j],
            |i: int, k: int| mb_out(taps_across(start, r0 + i, c as int), blimit, limit, thresh, k),
        );
    }
}

/// `p` with `n` columns from `c0` on filtered across the horizontal edge above row `r`: an edge by
/// the simple filter.
#[verifier::opaque]
pub open spec fn simple_h(p: Pic, r: int, c0: int, blimit: u8, n: int) -> Pic {
    blit(p, r - 1, c0, 2, n, |k: int, j: int| simple_out(taps_down(p, r, c0 + j), blimit, k))
}

/// `p` with `n` rows from `r0` on filtered across the vertical edge before column `c`: an edge by
/// the simple filter.
#[verifier::opaque]
pub open spec fn simple_v(p: Pic, r0: int, c: int, blimit: u8, n: int) -> Pic {
    blit(p, r0, c - 1, n, 2, |i: int, k: int| simple_out(taps_across(p, r0 + i, c), blimit, k))
}

/// Filters columns from `c0` on across the horizontal edge above row `r`: an edge by the simple
/// filter.
pub fn vp8_loop_filter_simple_horizontal_edge_c(p: &mut Plane, r: usize, c0: usize, blimit: u8)
    requires
        2 <= r,
        r + 2 <= old(p).spec_rows(),
        c0 + 16 <= old(p).spec_stride(),
    ensures
        final(p)@ == simple_h(old(p)@, r as int, c0 as int, blimit, 16),
        final(p).spec_rows() == old(p).spec_rows(),
        final(p).spec_stride() == old(p).spec_stride(),
{
    let ghost start = p@;
    let mut b: Block = [[0u8; 16]; 16];
    let mut j: usize = 0;
    while j < 16
        invariant
            j <= 16,
            2 <= r,
            r + 2 <= p.spec_rows(),
            c0 + 16 <= p.spec_stride(),
            p@ == start,
            forall|k: int, m: int|
                0 <= k < 2 && 0 <= m < j ==> #[trigger] b[k][m] == simple_out(
                    taps_down(start, r as int, c0 + m),
                    blimit,
                    k,
                ),
        decreases 16 - j,
    {
        let t: Taps = read_down_near(p, r, c0 + j);
        let o: [u8; 2] = vp8_simple_filter(&t, blimit);
        b[0][j] = o[0];
        b[1][j] = o[1];
        j += 1;
    }
    p.put_block(r - 1, c0, 2, 16, &b);
    proof {
        reveal(simple_h);
        lemma_blit_same(
            start,
            r - 1,
            c0 as int,
            2,
            16,
            |i: int, j: int| b[i][j],
            |k: int, j: int| simple_out(taps_down(start, r as int, c0 + j), blimit, k),
        );
    }
}

/// Filters rows from `r0` on across the vertical edge before column `c`: an edge by the simple
/// filter.
pub fn vp8_loop_filter_simple_vertical_edge_c(p: &mut Plane, r0: usize, c: usize, blimit: u8)
    requires
        2 <= c,
        c + 2 <= old(p).spec_stride(),
        r0 + 16 <= old(p).spec_rows(),
    ensures
        final(p)@ == simple_v(old(p)@, r0 as int, c as int, blimit, 16),
        final(p).spec_rows() == old(p).spec_rows(),
        final(p).spec_stride() == old(p).spec_stride(),
{
    let ghost start = p@;
    let mut b: Block = [[0u8; 16]; 16];
    let mut i: usize = 0;
    while i < 16
        invariant
            i <= 16,
            2 <= c,
            c + 2 <= p.spec_stride(),
            r0 + 16 <= p.spec_rows(),
            p@ == start,
            forall|m: int, k: int|
                0 <= k < 2 && 0 <= m < i ==> #[trigger] b[m][k] == simple_out(
                    taps_across(start, r0 + m, c as int),
                    blimit,
                    k,
                ),
        decreases 16 - i,
    {
        let t: Taps = read_across_near(p, r0 + i, c);
        let o: [u8; 2] = vp8_simple_filter(&t, blimit);
        b[i][0] = o[0];
        b[i][1] = o[1];
        i += 1;
    }
    p.put_block(r0, c - 1, 16, 2, &b);
    proof {
        reveal(simple_v);
        lemma_blit_same(
            start,
            r0 as int,
            c - 1,
            16,
            2,
            |i: int, j: int| b[i][j],
            |i: int, k: int| simple_out(taps_across(start, r0 + i, c as int), blimit, k),
        );
    }
}

/// The loop filter across the edge above a macroblock: the luma at `(yr, yc)`, the chroma at
/// `(cr, cc)`.
pub open spec fn mbh(d: Yuv, yr: int, yc: int, cr: int, cc: int, l: LoopFilterInfo) -> Yuv {
    Yuv {
        y: mb_h(d.y, yr, yc, l.mblim, l.lim, l.hev_thr, 16),
        u: mb_h(d.u, cr, cc, l.mblim, l.lim, l.hev_thr, 8),
        v: mb_h(d.v, cr, cc, l.mblim, l.lim, l.hev_thr, 8),
    }
}

/// The loop filter across the edge to the left of a macroblock.
pub open spec fn mbv(d: Yuv, yr: int, yc: int, cr: int, cc: int, l: LoopFilterInfo) -> Yuv {
    Yuv {
        y: mb_v(d.y, yr, yc, l.mblim, l.lim, l.hev_thr, 16),
        u: mb_v(d.u, cr, cc, l.mblim, l.lim, l.hev_thr, 8),
        v: mb_v(d.v, cr, cc, l.mblim, l.lim, l.hev_thr, 8),
    }
}

/// The loop filter across the horizontal edges inside a macroblock.
pub open spec fn bh(d: Yuv, yr: int, yc: int, cr: int, cc: int, l: LoopFilterInfo) -> Yuv {
    let y1 = normal_h(d.y, yr + 4, yc, l.blim, l.lim, l.hev_thr, 16);
    let y2 = normal_h(y1, yr + 8, yc, l.blim, l.lim, l.hev_thr, 16);
    Yuv {
        y: normal_h(y2, yr + 12, yc, l.blim, l.lim, l.hev_thr, 16),
        u: normal_h(d.u, cr + 4, cc, l.blim, l.lim, l.hev_thr, 8),
        v: normal_h(d.v, cr + 4, cc, l.blim, l.lim, l.hev_thr, 8),
    }
}

/// The loop filter across the vertical edges inside a macroblock.
pub open spec fn bv(d: Yuv, yr: int, yc: int, cr: int, cc: int, l: LoopFilterInfo) -> Yuv {
    let y1 = normal_v(d.y, yr, yc + 4, l.blim, l.lim, l.hev_thr, 16);
    let y2 = normal_v(y1, yr, yc + 8, l.blim, l.lim, l.hev_thr, 16);
    Yuv {
        y: normal_v(y2, yr, yc + 12, l.blim, l.lim, l.hev_thr, 16),
        u: normal_v(d.u, cr, cc + 4, l.blim, l.lim, l.hev_thr, 8),
        v: normal_v(d.v, cr, cc + 4, l.blim, l.lim, l.hev_thr, 8),
    }
}

/// The simple loop filter across the horizontal edges inside a macroblock.
pub open spec fn bhs(p: Pic, r: int, c: int, blimit: u8) -> Pic {
    simple_h(simple_h(simple_h(p, r + 4, c, blimit, 16), r + 8, c, blimit, 16), r + 12, c, blimit, 16)
}

/// The simple loop filter across the vertical edges inside a macroblock.
pub open spec fn bvs(p: Pic, r: int, c: int, blimit: u8) -> Pic {
    simple_v(simple_v(simple_v(p, r, c + 4, blimit, 16), r, c + 8, blimit, 16), r, c + 12, blimit, 16)
}

/// The macroblock at `(yr, yc)` and its neighbours on all sides lie inside the planes.
pub open spec fn mb_inside(d: FramePlanes, yr: int, yc: int, cr: int, cc: int) -> bool {
    &&& 4 <= yr
    &&& 4 <= yc
    &&& 4 <= cr
    &&& 4 <= cc
    &&& yr + 16 <= d.y.spec_rows()
    &&& yc + 16 <= d.y.spec_stride()
    &&& cr + 8 <= d.u.spec_rows()
    &&& cc + 8 <= d.u.spec_stride()
    &&& cr + 8 <= d.v.spec_rows()
    &&& cc + 8 <= d.v.spec_stride()
}

/// Filters across the edge above a macroblock.
pub fn vp8_loop_filter_mbh_c(
    d: &mut FramePlanes,
    yr: usize,
    yc: usize,
    cr: usize,
    cc: usize,
    lfi: &LoopFilterInfo,
)
    requires
        mb_inside(*old(d), yr as int, yc as int, cr as int, cc as int),
    ensures
        final(d)@ == mbh(old(d)@, yr as int, yc as int, cr as int, cc as int, *lfi),
        final(d).sized_as(old(d)),
{
    mbloop_filter_horizontal_edge_c(&mut d.y, yr, yc, lfi.mblim, lfi.lim, lfi.hev_thr, 16);
    mbloop_filter_horizontal_edge_c(&mut d.u, cr, cc, lfi.mblim, lfi.lim, lfi.hev_thr, 8);
    mbloop_filter_horizontal_edge_c(&mut d.v, cr, cc, lfi.mblim, lfi.lim, lfi.hev_thr, 8);
}

/// Filters across the edge to the left of a macroblock.
pub fn vp8_loop_filter_mbv_c(
    d: &mut FramePlanes,
    yr: usize,
    yc: usize,
    cr: usize,
    cc: usize,
    lfi: &LoopFilterInfo,
)
    requires
        mb_inside(*old(d), yr as int, yc as int, cr as int, cc as int),
    ensures
        final(d)@ == mbv(old(d)@, yr as int, yc as int, cr as int, cc as int, *lfi),
        final(d).sized_as(old(d)),
{
    mbloop_filter_vertical_edge_c(&mut d.y, yr, yc, lfi.mblim, lfi.lim, lfi.hev_thr, 16);
    mbloop_filter_vertical_edge_c(&mut d.u, cr, cc, lfi.mblim, lfi.lim, lfi.hev_thr, 8);
    mbloop_filter_vertical_edge_c(&mut d.v, cr, cc, lfi.mblim, lfi.lim, lfi.hev_thr, 8);
}

/// Filters across the horizontal edges inside a macroblock.
pub fn vp8_loop_filter_bh_c(
    d: &mut FramePlanes,
    yr: usize,
    yc: usize,
    cr: usize,
    cc: usize,
    lfi: &LoopFilterInfo,
)
    requires
        mb_inside(*old(d), yr as int, yc as int, cr as int, cc as int),
    ensures
        final(d)@ == bh(old(d)@, yr as int, yc as int, cr as int, cc as int, *lfi),
        final(d).sized_as(old(d)),
{
    loop_filter_horizontal_edge_c(&mut d.y, yr + 4, yc, lfi.blim, lfi.lim, lfi.hev_thr, 16);
    loop_filter_horizontal_edge_c(&mut d.y, yr + 8, yc, lfi.blim, lfi.lim, lfi.hev_thr, 16);
    loop_filter_horizontal_edge_c(&mut d.y, yr + 12, yc, lfi.blim, lfi.lim, lfi.hev_thr, 16);
    loop_filter_horizontal_edge_c(&mut d.u, cr + 4, cc, lfi.blim, lfi.lim, lfi.hev_thr, 8);
    loop_filter_horizontal_edge_c(&mut d.v, cr + 4, cc, lfi.blim, lfi.lim, lfi.hev_thr, 8);
}

/// Filters across the vertical edges inside a macroblock.
pub fn vp8_loop_filter_bv_c(
    d: &mut FramePlanes,
    yr: usize,
    yc: usize,
    cr: usize,
    cc: usize,
    lfi: &LoopFilterInfo,
)
    requires
        mb_inside(*old(d), yr as int, yc as int, cr as int, cc as int),
    ensures
        final(d)@ == bv(old(d)@, yr as int, yc as int, cr as int, cc as int, *lfi),
        final(d).sized_as(old(d)),
{
    loop_filter_vertical_edge_c(&mut d.y, yr, yc + 4, lfi.blim, lfi.lim, lfi.hev_thr, 16);
    loop_filter_vertical_edge_c(&mut d.y, yr, yc + 8, lfi.blim, lfi.lim, lfi.hev_thr, 16);
    loop_filter_vertical_edge_c(&mut d.y, yr, yc + 12, lfi.blim, lfi.lim, lfi.hev_thr, 16);
    loop_filter_vertical_edge_c(&mut d.u, cr, cc + 4, lfi.blim, lfi.lim, lfi.hev_thr, 8);
    loop_filter_vertical_edge_c(&mut d.v, cr, cc + 4, lfi.blim, lfi.lim, lfi.hev_thr, 8);
}

/// Filters across the horizontal edges inside a macroblock by the simple filter.
pub fn vp8_loop_filter_bhs_c(p: &mut Plane, r: usize, c: usize, blimit: u8)
    requires
        r + 16 <= old(p).spec_rows(),
        c + 16 <= old(p).spec_stride(),
    ensures
        final(p)@ == bhs(old(p)@, r as int, c as int, blimit),
        final(p).spec_rows() == old(p).spec_rows(),
        final(p).spec_stride() == old(p).spec_stride(),
{
    vp8_loop_filter_simple_horizontal_edge_c(p, r + 4, c, blimit);
    vp8_loop_filter_simple_horizontal_edge_c(p, r + 8, c, blimit);
    vp8_loop_filter_simple_horizontal_edge_c(p, r + 12, c, blimit);
}

/// Filters across the vertical edges inside a macroblock by the simple filter.
pub fn vp8_loop_filter_bvs_c(p: &mut Plane, r: usize, c: usize, blimit: u8)
    requires
        r + 16 <= old(p).spec_rows(),
        c + 16 <= old(p).spec_stride(),
    ensures
        final(p)@ == bvs(old(p)@, r as int, c as int, blimit),
        final(p).spec_rows() == old(p).spec_rows(),
        final(p).spec_stride() == old(p).spec_stride(),
{
    vp8_loop_filter_simple_vertical_edge_c(p, r, c + 4, blimit);
    vp8_loop_filter_simple_vertical_edge_c(p, r, c + 8, blimit);
    vp8_loop_filter_simple_vertical_edge_c(p, r, c + 12, blimit);
}

/// A line that is not to be filtered keeps its pixels, whatever the filter.
pub proof fn law_no_filter_no_change(t: Seq<u8>, blimit: u8, limit: u8, thresh: u8)
    requires
        t.len() == 8,
    ensures
        !filter_here(t, limit, blimit) ==> {
            &&& forall|k: int| 0 <= k < 4 ==> #[trigger] normal_out(t, blimit, limit, thresh, k) == t[2 + k]
            &&& forall|k: int| 0 <= k < 6 ==> #[trigger] mb_out(t, blimit, limit, thresh, k) == t[1 + k]
        },
        !edge_small(t, blimit) ==> forall|k: int|
            0 <= k < 2 ==> #[trigger] simple_out(t, blimit, k) == t[3 + k],
{
}

/// A flat line stays flat under every filter.
pub proof fn law_flat_line(t: Seq<u8>, v: u8, blimit: u8, limit: u8, thresh: u8)
    requires
        t.len() == 8,
        forall|k: int| 0 <= k < 8 ==> #[trigger] t[k] == v,
    ensures
        forall|k: int| 0 <= k < 4 ==> #[trigger] normal_out(t, blimit, limit, thresh, k) == v,
        forall|k: int| 0 <= k < 6 ==> #[trigger] mb_out(t, blimit, limit, thresh, k) == v,
        forall|k: int| 0 <= k < 2 ==> #[trigger] simple_out(t, blimit, k) == v,
{
}

/// `q` is `p` with rows and columns exchanged.
pub open spec fn transposed(p: Pic, q: Pic) -> bool {
    &&& forall|i: int, j: int|
        0 <= i < p.len() && 0 <= j < p[i].len() ==> j < q.len() && i < q[j].len()
            && #[trigger] p[i][j] == q[j][i]
    &&& forall|i: int, j: int|
        0 <= i < q.len() && 0 <= j < q[i].len() ==> j < p.len() && i < p[j].len()
            && #[trigger] q[i][j] == p[j][i]
}

proof fn lemma_taps_transposed(p: Pic, q: Pic, r: int, c: int)
    requires
        transposed(p, q),
        4 <= r,
        r + 4 <= p.len(),
        forall|k: int| 0 <= k < p.len() ==> 0 <= c < (#[trigger] p[k]).len(),
    ensures
        taps_down(p, r, c) == taps_across(q, c, r),
{
    assert forall|k: int| 0 <= k < 8 implies taps_down(p, r, c)[k] == taps_across(q, c, r)[k] by {
        assert(p[r - 4 + k][c] == q[c][r - 4 + k]);
    }
    assert(taps_down(p, r, c) =~= taps_across(q, c, r));
}

/// Edges that run across are filtered as those that run down: exchanging rows and columns before or
/// after filtering makes no difference, for each of the three filters.
pub proof fn law_filters_transpose(
    p: Pic,
    q: Pic,
    r: int,
    c: int,
    blimit: u8,
    limit: u8,
    thresh: u8,
    n: int,
    i: int,
    j: int,
)
    requires
        transposed(p, q),
        4 <= r,
        r + 4 <= p.len(),
        0 <= c,
        0 <= n,
        forall|k: int| 0 <= k < p.len() ==> c + n <= (#[trigger] p[k]).len(),
        0 <= i < p.len(),
        0 <= j < p[i].len(),
    ensures
        normal_h(p, r, c, blimit, limit, thresh, n)[i][j] == normal_v(
            q,
            c,
            r,
            blimit,
            limit,
            thresh,
            n,
        )[j][i],
        mb_h(p, r, c, blimit, limit, thresh, n)[i][j] == mb_v(q, c, r, blimit, limit, thresh, n)[j][i],
        simple_h(p, r, c, blimit, n)[i][j] == simple_v(q, c, r, blimit, n)[j][i],
{
    reveal(normal_h);
    reveal(normal_v);
    reveal(mb_h);
    reveal(mb_v);
    reveal(simple_h);
    reveal(simple_v);
    assert(p[i][j] == q[j][i]);
    if c <= j < c + n {
        lemma_taps_transposed(p, q, r, j);
        assert(c + (j - c) == j);
    }
}

/// How far two pixels lie apart.
pub open spec fn apart(a: u8, b: u8) -> int {
    if a < b {
        b - a
    } else {
        a - b
    }
}

/// Whether a line is filtered, and whether it counts as of high variance, is the same from both
/// sides. The step at the edge counts twice, and that of the pixels behind it by half; the steps
/// between neighbours on either side have a limit of their own, and those next to the edge decide
/// about high variance.
pub proof fn law_when_filtered(t: Seq<u8>, u: Seq<u8>, blimit: u8, limit: u8, thresh: u8)
    requires
        t.len() == 8,
        u.len() == 8,
        forall|k: int| 0 <= k < 8 ==> #[trigger] u[k] == t[7 - k],
    ensures
        edge_small(t, blimit) == edge_small(u, blimit),
        filter_here(t, limit, blimit) == filter_here(u, limit, blimit),
        high_variance(t, thresh) == high_variance(u, thresh),
        edge_small(t, blimit) <==> 2 * apart(t[3], t[4]) + apart(t[2], t[5]) / 2 <= blimit,
        filter_here(t, limit, blimit) <==> {
            &&& 2 * apart(t[3], t[4]) + apart(t[2], t[5]) / 2 <= blimit
            &&& apart(t[0], t[1]) <= limit
            &&& apart(t[1], t[2]) <= limit
            &&& apart(t[2], t[3]) <= limit
            &&& apart(t[4], t[5]) <= limit
            &&& apart(t[5], t[6]) <= limit
            &&& apart(t[6], t[7]) <= limit
        },
        high_variance(t, thresh) <==> apart(t[2], t[3]) > thresh || apart(t[4], t[5]) > thresh,
{
    assert(u[0] == t[7] && u[1] == t[6] && u[2] == t[5] && u[3] == t[4] && u[4] == t[3] && u[5]
        == t[2] && u[6] == t[1] && u[7] == t[0]);
}

/// On lines of high variance only the two pixels next to the edge change. On other lines the filter
/// between macroblocks changes three pixels on either side, each pair by the same amount in
/// opposite directions as long as none reaches the end of its range, and less the further they lie
/// from the edge.
pub proof fn law_how_filtered(t: Seq<u8>, blimit: u8, limit: u8, thresh: u8)
    requires
        t.len() == 8,
    ensures
        high_variance(t, thresh) ==> {
            &&& normal_out(t, blimit, limit, thresh, 0) == t[2]
            &&& normal_out(t, blimit, limit, thresh, 3) == t[5]
            &&& mb_out(t, blimit, limit, thresh, 0) == t[1]
            &&& mb_out(t, blimit, limit, thresh, 1) == t[2]
            &&& mb_out(t, blimit, limit, thresh, 4) == t[5]
            &&& mb_out(t, blimit, limit, thresh, 5) == t[6]
        },
        !high_variance(t, thresh) && (forall|k: int| 0 <= k < 8 ==> 27 <= #[trigger] t[k] <= 228) ==> {
            let (a, b, c) = (
                mb_out(t, blimit, limit, thresh, 0) - t[1],
                mb_out(t, blimit, limit, thresh, 1) - t[2],
                mb_out(t, blimit, limit, thresh, 2) - t[3],
            );
            &&& t[6] - mb_out(t, blimit, limit, thresh, 5) == a
            &&& t[5] - mb_out(t, blimit, limit, thresh, 4) == b
            &&& t[4] - mb_out(t, blimit, limit, thresh, 3) == c
            &&& (0 <= a <= b <= c || c <= b <= a <= 0)
            &&& -27 <= c <= 27
        },
{
    if !high_variance(t, thresh) && (forall|k: int| 0 <= k < 8 ==> 27 <= #[trigger] t[k] <= 228) {
        assert(27 <= t[1] <= 228 && 27 <= t[2] <= 228 && 27 <= t[3] <= 228 && 27 <= t[4] <= 228
            && 27 <= t[5] <= 228 && 27 <= t[6] <= 228);
    }
}

} // verus!
