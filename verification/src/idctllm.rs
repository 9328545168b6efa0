//! Inverse transforms.

use crate::arith::{clip, clip_pixel, lemma_shr};
use crate::detokenize::Coeffs;
use crate::grid::{blit, lemma_blit_same, Block, Pic, Plane};
use vstd::prelude::*;

verus! {

/// `sqrt(2) * cos(pi / 8) - 1` in units of `1 / 65536`.
pub const cospi8sqrt2minus1: i32 = 20091;

/// `sqrt(2) * sin(pi / 8)` in units of `1 / 65536`.
pub const sinpi8sqrt2: i32 = 35468;

/// `x` times `sqrt(2) * sin(pi / 8)`.
pub open spec fn by_sin(x: int) -> int {
    (x * 35468) / 65536
}

/// `x` times `sqrt(2) * cos(pi / 8)`.
pub open spec fn by_cos(x: int) -> int {
    x + (x * 20091) / 65536
}

/// The inverse transform of four numbers.
pub open spec fn idct4(i0: int, i1: int, i2: int, i3: int, k: int) -> int {
    let a = i0 + i2;
    let b = i0 - i2;
    let c = by_sin(i1) - by_cos(i3);
    let d = by_cos(i1) + by_sin(i3);
    if k == 0 {
        a + d
    } else if k == 1 {
        b + c
    } else if k == 2 {
        b - c
    } else {
        a - d
    }
}

/// The column transform of a block, at row `r` of column `c`.
pub open spec fn idct_column(input: Seq<i16>, r: int, c: int) -> i16 {
    idct4(
        input[c] as int,
        input[c + 4] as int,
        input[c + 8] as int,
        input[c + 12] as int,
        r,
    ) as i16
}

/// The residual at row `r` and column `c`: the columns are transformed, then the rows.
pub open spec fn idct_at(input: Seq<i16>, r: int, c: int) -> i16 {
    ((idct4(
        idct_column(input, r, 0) as int,
        idct_column(input, r, 1) as int,
        idct_column(input, r, 2) as int,
        idct_column(input, r, 3) as int,
        c,
    ) + 4) / 8) as i16
}

/// The residual of a block that has a DC coefficient only.
pub open spec fn dc_residual(dc: int) -> int {
    (dc + 4) / 8
}

/// `p` with the residual of `input` added to the 4x4 block at `(r0, c0)`.
pub open spec fn idct_add(p: Pic, r0: int, c0: int, input: Seq<i16>) -> Pic {
    blit(p, r0, c0, 4, 4, |i: int, j: int| clip(idct_at(input, i, j) + p[r0 + i][c0 + j]))
}

/// `p` with the residual of a lone DC coefficient added to the 4x4 block at `(r0, c0)`.
pub open spec fn dc_add(p: Pic, r0: int, c0: int, dc: int) -> Pic {
    blit(p, r0, c0, 4, 4, |i: int, j: int| clip(dc_residual(dc) + p[r0 + i][c0 + j]))
}

/// Four rows of four pixels.
pub type Pixels = [[u8; 4]; 4];

/// `p` with the 4x4 block at `(r0, c0)` set to `pred` with the residual of `input` added.
pub open spec fn idct_onto(p: Pic, r0: int, c0: int, pred: Pixels, input: Seq<i16>) -> Pic {
    blit(p, r0, c0, 4, 4, |i: int, j: int| clip(idct_at(input, i, j) + pred[i][j]))
}

/// `p` with the 4x4 block at `(r0, c0)` set to `pred` with the residual of a lone DC coefficient
/// added.
pub open spec fn dc_onto(p: Pic, r0: int, c0: int, pred: Pixels, dc: int) -> Pic {
    blit(p, r0, c0, 4, 4, |i: int, j: int| clip(dc_residual(dc) + pred[i][j]))
}

/// `pred` is the 4x4 block of `p` at `(r0, c0)`.
pub open spec fn is_block_of(p: Pic, r0: int, c0: int, pred: Pixels) -> bool {
    forall|i: int, j: int|
        0 <= i < 4 && 0 <= j < 4 ==> #[trigger] pred[i][j] == p[r0 + i][c0 + j]
}

/// The 4x4 block at `(r0, c0)`.
pub fn pixels_at(p: &Plane, r0: usize, c0: usize) -> (pred: Pixels)
    requires
        r0 + 4 <= p.spec_rows(),
        c0 + 4 <= p.spec_stride(),
    ensures
        is_block_of(p@, r0 as int, c0 as int, pred),
{
    let mut pred: Pixels = [[0u8; 4]; 4];
    let mut r: usize = 0;
    while r < 4
        invariant
            r <= 4,
            r0 + 4 <= p.spec_rows(),
            c0 + 4 <= p.spec_stride(),
            forall|i: int, j: int|
                0 <= i < r && 0 <= j < 4 ==> #[trigger] pred[i][j] == p@[r0 + i][c0 + j],
        decreases 4 - r,
    {
        pred[r][0] = p.get(r0 + r, c0);
        pred[r][1] = p.get(r0 + r, c0 + 1);
        pred[r][2] = p.get(r0 + r, c0 + 2);
        pred[r][3] = p.get(r0 + r, c0 + 3);
        r += 1;
    }
    pred
}

/// A residual that is added to the block it is written over is added in place.
pub proof fn law_added_in_place(p: Pic, r0: int, c0: int, pred: Pixels, input: Seq<i16>, dc: int)
    requires
        is_block_of(p, r0, c0, pred),
    ensures
        idct_onto(p, r0, c0, pred, input) == idct_add(p, r0, c0, input),
        dc_onto(p, r0, c0, pred, dc) == dc_add(p, r0, c0, dc),
{
    lemma_blit_same(
        p,
        r0,
        c0,
        4,
        4,
        |i: int, j: int| clip(idct_at(input, i, j) + pred[i][j]),
        |i: int, j: int| clip(idct_at(input, i, j) + p[r0 + i][c0 + j]),
    );
    lemma_blit_same(
        p,
        r0,
        c0,
        4,
        4,
        |i: int, j: int| clip(dc_residual(dc) + pred[i][j]),
        |i: int, j: int| clip(dc_residual(dc) + p[r0 + i][c0 + j]),
    );
}

/// One output of the four-point transform, all of them together.
fn idct4_all(i0: i32, i1: i32, i2: i32, i3: i32) -> (o: [i32; 4])
    requires
        -32768 <= i0 <= 32767,
        -32768 <= i1 <= 32767,
        -32768 <= i2 <= 32767,
        -32768 <= i3 <= 32767,
    ensures
        forall|k: int|
            0 <= k < 4 ==> #[trigger] o[k] == idct4(i0 as int, i1 as int, i2 as int, i3 as int, k),
        forall|k: int| 0 <= k < 4 ==> -200000 <= #[trigger] o[k] <= 200000,
{
    proof {
        lemma_shr((i1 * 35468) as i32);
        lemma_shr((i3 * 35468) as i32);
        lemma_shr((i1 * 20091) as i32);
        lemma_shr((i3 * 20091) as i32);
    }
    let a1: i32 = i0 + i2;
    let b1: i32 = i0 - i2;
    let c1: i32 = ((i1 * sinpi8sqrt2) >> 16) - (i3 + ((i3 * cospi8sqrt2minus1) >> 16));
    let d1: i32 = (i1 + ((i1 * cospi8sqrt2minus1) >> 16)) + ((i3 * sinpi8sqrt2) >> 16);
    [a1 + d1, b1 + c1, b1 - c1, a1 - d1]
}

/// The residual of a block, row after row.
fn idct_block(input: &[i16; 16]) -> (out: [[i16; 4]; 4])
    ensures
        forall|r: int, c: int|
            0 <= r < 4 && 0 <= c < 4 ==> #[trigger] out[r][c] == idct_at(input@, r, c),
{
    let mut mid: [[i16; 4]; 4] = [[0i16; 4]; 4];
    let mut c: usize = 0;
    while c < 4
        invariant
            c <= 4,
            forall|k: int, r: int|
                0 <= r < 4 && 0 <= k < c ==> #[trigger] mid[r][k] == idct_column(input@, r, k),
        decreases 4 - c,
    {
        let o: [i32; 4] = idct4_all(
            input[c] as i32,
            input[c + 4] as i32,
            input[c + 8] as i32,
            input[c + 12] as i32,
        );
        mid[0][c] = o[0] as i16;
        mid[1][c] = o[1] as i16;
        mid[2][c] = o[2] as i16;
        mid[3][c] = o[3] as i16;
        c += 1;
    }
    let mut out: [[i16; 4]; 4] = [[0i16; 4]; 4];
    let mut r: usize = 0;
    while r < 4
        invariant
            r <= 4,
            forall|k: int, r: int|
                0 <= r < 4 && 0 <= k < 4 ==> #[trigger] mid[r][k] == idct_column(input@, r, k),
            forall|k: int, c: int|
                0 <= k < r && 0 <= c < 4 ==> #[trigger] out[k][c] == idct_at(input@, k, c),
        decreases 4 - r,
    {
        assert(mid[r as int][0] == idct_column(input@, r as int, 0));
        assert(mid[r as int][1] == idct_column(input@, r as int, 1));
        assert(mid[r as int][2] == idct_column(input@, r as int, 2));
        assert(mid[r as int][3] == idct_column(input@, r as int, 3));
        let o: [i32; 4] = idct4_all(
            mid[r][0] as i32,
            mid[r][1] as i32,
            mid[r][2] as i32,
            mid[r][3] as i32,
        );
        proof {
            lemma_shr((o[0] + 4) as i32);
            lemma_shr((o[1] + 4) as i32);
            lemma_shr((o[2] + 4) as i32);
            lemma_shr((o[3] + 4) as i32);
        }
        out[r][0] = ((o[0] + 4) >> 3) as i16;
        out[r][1] = ((o[1] + 4) >> 3) as i16;
        out[r][2] = ((o[2] + 4) >> 3) as i16;
        out[r][3] = ((o[3] + 4) >> 3) as i16;
        r += 1;
    }
    out
}

/// Writes `pred` with the residual of `input` added to the 4x4 block at `(r0, c0)`. The
/// prediction may be what that block held ([`pixels_at`]) or come from elsewhere.
pub fn vp8_short_idct4x4llm_c(
    input: &[i16; 16],
    pred: &Pixels,
    dst: &mut Plane,
    r0: usize,
    c0: usize,
)
    requires
        r0 + 4 <= old(dst).spec_rows(),
        c0 + 4 <= old(dst).spec_stride(),
    ensures
        final(dst)@ == idct_onto(old(dst)@, r0 as int, c0 as int, *pred, input@),
        final(dst).spec_rows() == old(dst).spec_rows(),
        final(dst).spec_stride() == old(dst).spec_stride(),
{
    let out: [[i16; 4]; 4] = idct_block(input);
    let mut b: Block = [[0u8; 16]; 16];
    let ghost p = dst@;
    let mut r: usize = 0;
    while r < 4
        invariant
            r <= 4,
            forall|r: int, c: int|
                0 <= r < 4 && 0 <= c < 4 ==> #[trigger] out[r][c] == idct_at(input@, r, c),
            forall|i: int, j: int|
                0 <= i < r && 0 <= j < 4 ==> #[trigger] b[i][j] == clip(
                    idct_at(input@, i, j) + pred[i][j],
                ),
        decreases 4 - r,
    {
        let mut c: usize = 0;
        while c < 4
            invariant
                r < 4,
                c <= 4,
                forall|r: int, c: int|
                    0 <= r < 4 && 0 <= c < 4 ==> #[trigger] out[r][c] == idct_at(
                        input@,
                        r,
                        c,
                    ),
                forall|i: int, j: int|
                    (0 <= i < r && 0 <= j < 4) || (i == r && 0 <= j < c)
                        ==> #[trigger] b[i][j] == clip(idct_at(input@, i, j) + pred[i][j]),
            decreases 4 - c,
        {
            assert(out[r as int][c as int] == idct_at(input@, r as int, c as int));
            let a: i32 = out[r][c] as i32 + pred[r][c] as i32;
            b[r][c] = clip_pixel(a);
            c += 1;
        }
        r += 1;
    }
    dst.put_block(r0, c0, 4, 4, &b);
    proof {
        lemma_blit_same(
            p,
            r0 as int,
            c0 as int,
            4,
            4,
            |i: int, j: int| b[i][j],
            |i: int, j: int| clip(idct_at(input@, i, j) + pred[i][j]),
        );
    }
}

/// Writes `pred` with the residual of the DC coefficient `input_dc` added to the 4x4 block at
/// `(r0, c0)`. The prediction may be what that block held ([`pixels_at`]) or come from elsewhere.
pub fn vp8_dc_only_idct_add_c(
    input_dc: i16,
    pred: &Pixels,
    dst: &mut Plane,
    r0: usize,
    c0: usize,
)
    requires
        r0 + 4 <= old(dst).spec_rows(),
        c0 + 4 <= old(dst).spec_stride(),
    ensures
        final(dst)@ == dc_onto(old(dst)@, r0 as int, c0 as int, *pred, input_dc as int),
        final(dst).spec_rows() == old(dst).spec_rows(),
        final(dst).spec_stride() == old(dst).spec_stride(),
{
    proof {
        lemma_shr((input_dc + 4) as i32);
    }
    let a1: i32 = (input_dc as i32 + 4) >> 3;
    let mut b: Block = [[0u8; 16]; 16];
    let ghost p = dst@;
    let mut r: usize = 0;
    while r < 4
        invariant
            r <= 4,
            a1 == dc_residual(input_dc as int),
            -4096 <= a1 <= 4097,
            forall|i: int, j: int|
                0 <= i < r && 0 <= j < 4 ==> #[trigger] b[i][j] == clip(a1 + pred[i][j]),
        decreases 4 - r,
    {
        let mut c: usize = 0;
        while c < 4
            invariant
                r < 4,
                c <= 4,
                -4096 <= a1 <= 4097,
                forall|i: int, j: int|
                    (0 <= i < r && 0 <= j < 4) || (i == r && 0 <= j < c)
                        ==> #[trigger] b[i][j] == clip(a1 + pred[i][j]),
            decreases 4 - c,
        {
            b[r][c] = clip_pixel(a1 + pred[r][c] as i32);
            c += 1;
        }
        r += 1;
    }
    dst.put_block(r0, c0, 4, 4, &b);
    proof {
        lemma_blit_same(
            p,
            r0 as int,
            c0 as int,
            4,
            4,
            |i: int, j: int| b[i][j],
            |i: int, j: int| clip(dc_residual(input_dc as int) + pred[i][j]),
        );
    }
}

/// The four-point transform of the second order coefficients.
pub open spec fn walsh4(i0: int, i1: int, i2: int, i3: int, k: int) -> int {
    let a = i0 + i3;
    let b = i1 + i2;
    let c = i1 - i2;
    let d = i0 - i3;
    if k == 0 {
        a + b
    } else if k == 1 {
        c + d
    } else if k == 2 {
        a - b
    } else {
        d - c
    }
}

/// The column transform of the second order coefficients.
pub open spec fn walsh_column(input: Seq<i16>, r: int, c: int) -> i16 {
    walsh4(
        input[c] as int,
        input[c + 4] as int,
        input[c + 8] as int,
        input[c + 12] as int,
        r,
    ) as i16
}

/// The DC coefficient that the second order coefficients give to the luma block in row `r`
/// and column `c`.
pub open spec fn walsh_at(input: Seq<i16>, r: int, c: int) -> i16 {
    ((walsh4(
        walsh_column(input, r, 0) as int,
        walsh_column(input, r, 1) as int,
        walsh_column(input, r, 2) as int,
        walsh_column(input, r, 3) as int,
        c,
    ) + 3) / 8) as i16
}

/// `q` with the DC coefficients of the first `n` luma blocks set to `f`.
pub open spec fn set_dcs(q: Coeffs, n: int, f: spec_fn(int) -> i16) -> Coeffs
    decreases n,
{
    if n <= 0 {
        q
    } else {
        vstd::array::spec_array_update(set_dcs(q, n - 1, f), 16 * (n - 1), f(n - 1))
    }
}

/// The luma DC coefficients from all second order coefficients.
pub open spec fn walsh(q: Coeffs, input: Seq<i16>) -> Coeffs {
    set_dcs(q, 16, |i: int| walsh_at(input, i / 4, i % 4))
}

/// The luma DC coefficients from a lone second order DC coefficient.
pub open spec fn walsh_dc(q: Coeffs, dc: int) -> Coeffs {
    set_dcs(q, 16, |i: int| ((dc + 3) / 8) as i16)
}

/// The four outputs of the second order transform.
fn walsh4_all(i0: i32, i1: i32, i2: i32, i3: i32) -> (o: [i32; 4])
    requires
        -32768 <= i0 <= 32767,
        -32768 <= i1 <= 32767,
        -32768 <= i2 <= 32767,
        -32768 <= i3 <= 32767,
    ensures
        forall|k: int|
            0 <= k < 4 ==> #[trigger] o[k] == walsh4(i0 as int, i1 as int, i2 as int, i3 as int, k),
        forall|k: int| 0 <= k < 4 ==> -200000 <= #[trigger] o[k] <= 200000,
{
    let a1: i32 = i0 + i3;
    let b1: i32 = i1 + i2;
    let c1: i32 = i1 - i2;
    let d1: i32 = i0 - i3;
    [a1 + b1, c1 + d1, a1 - b1, d1 - c1]
}

/// Writes the DC coefficients of the luma blocks that the second order coefficients give.
pub fn vp8_short_inv_walsh4x4_c(input: &[i16; 16], mb_dqcoeff: &mut Coeffs)
    ensures
        *final(mb_dqcoeff) == walsh(*old(mb_dqcoeff), input@),
{
    let mut mid: [[i16; 4]; 4] = [[0i16; 4]; 4];
    let mut c: usize = 0;
    while c < 4
        invariant
            c <= 4,
            forall|k: int, r: int|
                0 <= r < 4 && 0 <= k < c ==> #[trigger] mid[r][k] == walsh_column(input@, r, k),
        decreases 4 - c,
    {
        let o: [i32; 4] = walsh4_all(
            input[c] as i32,
            input[c + 4] as i32,
            input[c + 8] as i32,
            input[c + 12] as i32,
        );
        mid[0][c] = o[0] as i16;
        mid[1][c] = o[1] as i16;
        mid[2][c] = o[2] as i16;
        mid[3][c] = o[3] as i16;
        c += 1;
    }
    let mut out: [[i16; 4]; 4] = [[0i16; 4]; 4];
    let mut r: usize = 0;
    while r < 4
        invariant
            r <= 4,
            forall|k: int, r: int|
                0 <= r < 4 && 0 <= k < 4 ==> #[trigger] mid[r][k] == walsh_column(input@, r, k),
            forall|k: int, c: int|
                0 <= k < r && 0 <= c < 4 ==> #[trigger] out[k][c] == walsh_at(input@, k, c),
        decreases 4 - r,
    {
        assert(mid[r as int][0] == walsh_column(input@, r as int, 0));
        assert(mid[r as int][1] == walsh_column(input@, r as int, 1));
        assert(mid[r as int][2] == walsh_column(input@, r as int, 2));
        assert(mid[r as int][3] == walsh_column(input@, r as int, 3));
        let o: [i32; 4] = walsh4_all(
            mid[r][0] as i32,
            mid[r][1] as i32,
            mid[r][2] as i32,
            mid[r][3] as i32,
        );
        proof {
            lemma_shr((o[0] + 3) as i32);
            lemma_shr((o[1] + 3) as i32);
            lemma_shr((o[2] + 3) as i32);
            lemma_shr((o[3] + 3) as i32);
        }
        out[r][0] = ((o[0] + 3) >> 3) as i16;
        out[r][1] = ((o[1] + 3) >> 3) as i16;
        out[r][2] = ((o[2] + 3) >> 3) as i16;
        out[r][3] = ((o[3] + 3) >> 3) as i16;
        r += 1;
    }
    let ghost f = |i: int| walsh_at(input@, i / 4, i % 4);
    let mut i: usize = 0;
    while i < 16
        invariant
            i <= 16,
            f == (|i: int| walsh_at(input@, i / 4, i % 4)),
            forall|k: int, c: int|
                0 <= k < 4 && 0 <= c < 4 ==> #[trigger] out[k][c] == walsh_at(input@, k, c),
            *mb_dqcoeff == set_dcs(*old(mb_dqcoeff), i as int, f),
        decreases 16 - i,
    {
        assert(out[i as int / 4][i as int % 4] == walsh_at(input@, i as int / 4, i as int % 4));
        mb_dqcoeff[i * 16] = out[i / 4][i % 4];
        i += 1;
    }
}

/// Writes the DC coefficients of the luma blocks that a lone second order DC coefficient
/// gives: they are all the same.
pub fn vp8_short_inv_walsh4x4_1_c(input_dc: i16, mb_dqcoeff: &mut Coeffs)
    ensures
        *final(mb_dqcoeff) == walsh_dc(*old(mb_dqcoeff), input_dc as int),
{
    proof {
        lemma_shr((input_dc + 3) as i32);
    }
    let a1: i16 = ((input_dc as i32 + 3) >> 3) as i16;
    let ghost f = |i: int| ((input_dc + 3) / 8) as i16;
    let mut i: usize = 0;
    while i < 16
        invariant
            i <= 16,
            f == (|i: int| ((input_dc + 3) / 8) as i16),
            a1 == ((input_dc + 3) / 8) as i16,
            *mb_dqcoeff == set_dcs(*old(mb_dqcoeff), i as int, f),
        decreases 16 - i,
    {
        mb_dqcoeff[i * 16] = a1;
        i += 1;
    }
}

/// Only the first coefficient of the block is not zero.
pub open spec fn dc_only(input: Seq<i16>) -> bool {
    forall|i: int| 1 <= i < 16 ==> #[trigger] input[i] == 0
}

/// On a block with a DC coefficient only, the full transform and the short one agree: every
/// predicted pixel is raised by an eighth of the coefficient, rounded, and limited to the values
/// of a pixel. A coefficient of zero leaves the prediction as it is. The rest of the picture
/// stays.
pub proof fn law_dc_only_idct(p: Pic, r0: int, c0: int, pred: Pixels, input: Seq<i16>)
    requires
        dc_only(input),
        0 <= r0,
        r0 + 4 <= p.len(),
        0 <= c0,
        forall|r: int| r0 <= r < r0 + 4 ==> c0 + 4 <= (#[trigger] p[r]).len(),
    ensures
        idct_onto(p, r0, c0, pred, input) == dc_onto(p, r0, c0, pred, input[0] as int),
        forall|i: int, j: int|
            0 <= i < 4 && 0 <= j < 4 ==> idct_onto(p, r0, c0, pred, input)[r0 + i][c0 + j] == clip(
                #[trigger] pred[i][j] + (input[0] + 4) / 8,
            ),
        input[0] == 0 ==> forall|i: int, j: int|
            0 <= i < 4 && 0 <= j < 4 ==> idct_onto(p, r0, c0, pred, input)[r0 + i][c0 + j]
                == #[trigger] pred[i][j],
        input[0] == 0 && is_block_of(p, r0, c0, pred) ==> idct_onto(p, r0, c0, pred, input) == p,
        idct_onto(p, r0, c0, pred, input).len() == p.len(),
        forall|r: int, c: int|
            0 <= r < p.len() && 0 <= c < p[r].len() && !(r0 <= r < r0 + 4 && c0 <= c < c0 + 4)
                ==> #[trigger] idct_onto(p, r0, c0, pred, input)[r][c] == p[r][c],
{
    let dc = input[0] as int;
    let q = idct_onto(p, r0, c0, pred, input);
    assert forall|i: int, j: int| 0 <= i < 4 && 0 <= j < 4 implies #[trigger] idct_at(input, i, j)
        == dc_residual(dc) by {
        assert(idct_column(input, i, 0) == dc);
        assert(idct_column(input, i, 1) == 0);
        assert(idct_column(input, i, 2) == 0);
        assert(idct_column(input, i, 3) == 0);
    }
    lemma_blit_same(
        p,
        r0,
        c0,
        4,
        4,
        |i: int, j: int| clip(idct_at(input, i, j) + pred[i][j]),
        |i: int, j: int| clip(dc_residual(dc) + pred[i][j]),
    );
    assert forall|i: int, j: int| 0 <= i < 4 && 0 <= j < 4 implies q[r0 + i][c0 + j] == clip(
        #[trigger] pred[i][j] + (input[0] + 4) / 8,
    ) by {
        assert(c0 + 4 <= p[r0 + i].len());
    }
    if input[0] == 0 && is_block_of(p, r0, c0, pred) {
        assert forall|r: int| 0 <= r < p.len() implies #[trigger] q[r] == p[r] by {
            assert forall|c: int| 0 <= c < p[r].len() implies #[trigger] q[r][c] == p[r][c] by {
                if r0 <= r < r0 + 4 && c0 <= c < c0 + 4 {
                    assert(pred[r - r0][c - c0] == p[r0 + (r - r0)][c0 + (c - c0)]);
                }
            }
            assert(q[r] =~= p[r]);
        }
        assert(q =~= p);
    }
}

proof fn lemma_set_dcs_same(q: Coeffs, n: int, f: spec_fn(int) -> i16, g: spec_fn(int) -> i16)
    requires
        forall|i: int| 0 <= i < n ==> #[trigger] f(i) == g(i),
    ensures
        set_dcs(q, n, f) == set_dcs(q, n, g),
    decreases n,
{
    if n > 0 {
        lemma_set_dcs_same(q, n - 1, f, g);
    }
}

/// On a block with a DC coefficient only, the full second order transform and the short one
/// agree.
pub proof fn law_dc_only_walsh(q: Coeffs, input: Seq<i16>)
    requires
        dc_only(input),
    ensures
        walsh(q, input) == walsh_dc(q, input[0] as int),
{
    let dc = input[0] as int;
    let f = |i: int| walsh_at(input, i / 4, i % 4);
    let g = |i: int| ((dc + 3) / 8) as i16;
    assert forall|i: int| 0 <= i < 16 implies #[trigger] f(i) == g(i) by {
        let r = i / 4;
        assert(walsh_column(input, r, 0) == dc);
        assert(walsh_column(input, r, 1) == 0);
        assert(walsh_column(input, r, 2) == 0);
        assert(walsh_column(input, r, 3) == 0);
    }
    lemma_set_dcs_same(q, 16, f, g);
}

/// What the outputs of the four-point inverse transform are together: the even inputs make their
/// sums, and the odd ones their differences, by two numbers that are the nearest below in 65536ths.
pub proof fn law_idct4(i0: int, i1: int, i2: int, i3: int)
    ensures
        ({
            let o = |k: int| idct4(i0, i1, i2, i3, k);
            &&& o(0) + o(3) == 2 * (i0 + i2)
            &&& o(1) + o(2) == 2 * (i0 - i2)
            &&& o(0) - o(3) == 2 * (by_cos(i1) + by_sin(i3))
            &&& o(1) - o(2) == 2 * (by_sin(i1) - by_cos(i3))
        }),
        0 <= 35468 * i1 - 65536 * by_sin(i1) < 65536,
        0 <= 85627 * i1 - 65536 * by_cos(i1) < 65536,
{
}

/// Coefficients of the first row alone make the same residual in each row, and those of the first
/// column alone the same in each column.
pub proof fn law_idct_directions(input: Seq<i16>, r: int, c: int)
    requires
        input.len() == 16,
        0 <= r < 4,
        0 <= c < 4,
    ensures
        (forall|k: int| 4 <= k < 16 ==> #[trigger] input[k] == 0) ==> idct_at(input, r, c) == ((
        idct4(input[0] as int, input[1] as int, input[2] as int, input[3] as int, c) + 4) / 8) as i16,
        (forall|k: int| 0 <= k < 16 && k % 4 != 0 ==> #[trigger] input[k] == 0) ==> idct_at(
            input,
            r,
            c,
        ) == (((idct4(
            input[0] as int,
            input[4] as int,
            input[8] as int,
            input[12] as int,
            r,
        ) as i16) + 4) / 8) as i16,
{
    if forall|k: int| 4 <= k < 16 ==> #[trigger] input[k] == 0 {
        assert forall|x: int| 0 <= x < 4 implies #[trigger] idct_column(input, r, x) == input[x] by {
            assert(input[x + 4] == 0 && input[x + 8] == 0 && input[x + 12] == 0);
        }
        assert(idct_column(input, r, 0) == input[0]);
    }
    if forall|k: int| 0 <= k < 16 && k % 4 != 0 ==> #[trigger] input[k] == 0 {
        assert forall|x: int| 1 <= x < 4 implies #[trigger] idct_column(input, r, x) == 0 by {
            assert(input[x] == 0 && input[x + 4] == 0 && input[x + 8] == 0 && input[x + 12] == 0);
        }
        assert(idct_column(input, r, 1) == 0);
    }
}

/// The four-point transform of the second order coefficients undoes itself, but for a factor and
/// the order.
pub proof fn law_walsh4(i0: int, i1: int, i2: int, i3: int)
    ensures
        ({
            let o = |k: int| walsh4(i0, i1, i2, i3, k);
            &&& o(0) + o(1) + o(2) + o(3) == 4 * i0
            &&& o(0) + o(1) - o(2) - o(3) == 4 * i1
            &&& o(0) - o(1) - o(2) + o(3) == 4 * i2
            &&& o(0) - o(1) + o(2) - o(3) == 4 * i3
        }),
{
}

/// Second order coefficients of the first row alone give the same to the blocks of each column, and
/// those of the first column alone the same to the blocks of each row.
pub proof fn law_walsh_directions(input: Seq<i16>, r: int, c: int)
    requires
        input.len() == 16,
        0 <= r < 4,
        0 <= c < 4,
    ensures
        (forall|k: int| 4 <= k < 16 ==> #[trigger] input[k] == 0) ==> walsh_at(input, r, c) == ((
        walsh4(input[0] as int, input[1] as int, input[2] as int, input[3] as int, c) + 3) / 8) as i16,
        (forall|k: int| 0 <= k < 16 && k % 4 != 0 ==> #[trigger] input[k] == 0) ==> walsh_at(
            input,
            r,
            c,
        ) == (((walsh4(
            input[0] as int,
            input[4] as int,
            input[8] as int,
            input[12] as int,
            r,
        ) as i16) + 3) / 8) as i16,
{
    if forall|k: int| 4 <= k < 16 ==> #[trigger] input[k] == 0 {
        assert forall|x: int| 0 <= x < 4 implies #[trigger] walsh_column(input, r, x) == input[x] by {
            assert(input[x + 4] == 0 && input[x + 8] == 0 && input[x + 12] == 0);
        }
        assert(walsh_column(input, r, 0) == input[0]);
    }
    if forall|k: int| 0 <= k < 16 && k % 4 != 0 ==> #[trigger] input[k] == 0 {
        assert forall|x: int| 1 <= x < 4 implies #[trigger] walsh_column(input, r, x) == 0 by {
            assert(input[x] == 0 && input[x + 4] == 0 && input[x + 8] == 0 && input[x + 12] == 0);
        }
        assert(walsh_column(input, r, 1) == 0);
    }
}

} // verus!
