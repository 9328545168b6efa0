//! Interpolation between pixels for motion compensation.

use crate::arith::{clip, clip_pixel, lemma_shr};
use crate::grid::{blit, lemma_blit_same, Block, Pic, Plane};
use crate::tables::{VP8_BILINEAR_FILTERS, VP8_SUB_PEL_FILTERS};
use vstd::prelude::*;

verus! {

/// Six pixels weighted by the taps for `k` eighths of a pixel.
pub open spec fn six_tap(k: int, a: int, b: int, c: int, d: int, e: int, f: int) -> u8 {
    let t = VP8_SUB_PEL_FILTERS[k];
    clip((a * t[0] + b * t[1] + c * t[2] + d * t[3] + e * t[4] + f * t[5] + 64) / 128)
}

/// The pixel `x` eighths to the right of `(r, c)`.
pub open spec fn sixtap_row(p: Pic, r: int, c: int, x: int) -> u8 {
    six_tap(
        x,
        p[r][c - 2] as int,
        p[r][c - 1] as int,
        p[r][c] as int,
        p[r][c + 1] as int,
        p[r][c + 2] as int,
        p[r][c + 3] as int,
    )
}

/// The pixel `x` eighths to the right of and `y` eighths below `(r, c)`, by the six-tap
/// filter.
pub open spec fn sixtap_pixel(p: Pic, r: int, c: int, x: int, y: int) -> u8 {
    six_tap(
        y,
        sixtap_row(p, r - 2, c, x) as int,
        sixtap_row(p, r - 1, c, x) as int,
        sixtap_row(p, r, c, x) as int,
        sixtap_row(p, r + 1, c, x) as int,
        sixtap_row(p, r + 2, c, x) as int,
        sixtap_row(p, r + 3, c, x) as int,
    )
}

/// Two pixels weighted by the taps for `k` eighths of a pixel.
pub open spec fn two_tap(k: int, a: int, b: int) -> u8 {
    let t = VP8_BILINEAR_FILTERS[k];
    ((a * t[0] + b * t[1] + 64) / 128) as u8
}

/// The pixel `x` eighths to the right of `(r, c)`, by the two-tap filter.
pub open spec fn bilinear_row(p: Pic, r: int, c: int, x: int) -> u8 {
    two_tap(x, p[r][c] as int, p[r][c + 1] as int)
}

/// The pixel `x` eighths to the right of and `y` eighths below `(r, c)`, by the two-tap
/// filter.
pub open spec fn bilinear_pixel(p: Pic, r: int, c: int, x: int, y: int) -> u8 {
    two_tap(y, bilinear_row(p, r, c, x) as int, bilinear_row(p, r + 1, c, x) as int)
}

/// The block of `h x w` pixels at `(r0, c0)` of `dst` interpolated from `src`, where it lies
/// at `(sr, sc)` and `x` and `y` eighths of a pixel on.
pub open spec fn sixtap_pic(
    src: Pic,
    sr: int,
    sc: int,
    x: int,
    y: int,
    dst: Pic,
    r0: int,
    c0: int,
    h: int,
    w: int,
) -> Pic {
    blit(dst, r0, c0, h, w, |i: int, j: int| sixtap_pixel(src, sr + i, sc + j, x, y))
}

/// The same as [`sixtap_pic`] with the two-tap filter.
pub open spec fn bilinear_pic(
    src: Pic,
    sr: int,
    sc: int,
    x: int,
    y: int,
    dst: Pic,
    r0: int,
    c0: int,
    h: int,
    w: int,
) -> Pic {
    blit(dst, r0, c0, h, w, |i: int, j: int| bilinear_pixel(src, sr + i, sc + j, x, y))
}

/// Weights six pixels.
fn apply6(k: usize, a: u8, b: u8, c: u8, d: u8, e: u8, f: u8) -> (v: u8)
    requires
        k < 8,
    ensures
        v == six_tap(k as int, a as int, b as int, c as int, d as int, e as int, f as int),
{
    let t: [i32; 6] = VP8_SUB_PEL_FILTERS[k];
    assert(forall|i: int| 0 <= i < 6 ==> -16 <= #[trigger] t[i] <= 128) by {
        assert(forall|n: int, i: int|
            0 <= n < 8 && 0 <= i < 6 ==> -16 <= #[trigger] VP8_SUB_PEL_FILTERS[n][i] <= 128);
    }
    assert(-16 <= t[0] <= 128 && -16 <= t[1] <= 128 && -16 <= t[2] <= 128 && -16 <= t[3] <= 128
        && -16 <= t[4] <= 128 && -16 <= t[5] <= 128);
    let x0: i32 = weigh(a, t[0]);
    let x1: i32 = weigh(b, t[1]);
    let x2: i32 = weigh(c, t[2]);
    let x3: i32 = weigh(d, t[3]);
    let x4: i32 = weigh(e, t[4]);
    let x5: i32 = weigh(f, t[5]);
    let s: i32 = x0 + x1 + x2 + x3 + x4 + x5 + 64;
    proof {
        lemma_shr(s);
    }
    clip_pixel(s >> 7)
}

fn weigh(a: u8, t: i32) -> (v: i32)
    requires
        -16 <= t <= 128,
    ensures
        v == a * t,
        -4080 <= v <= 32640,
{
    assert(-4080 <= a * t <= 32640) by (nonlinear_arith)
        requires
            0 <= a <= 255,
            -16 <= t <= 128,
    ;
    a as i32 * t
}

/// Weights two pixels.
fn apply2(k: usize, a: u8, b: u8) -> (v: u8)
    requires
        k < 8,
    ensures
        v == two_tap(k as int, a as int, b as int),
{
    let t: [i32; 2] = VP8_BILINEAR_FILTERS[k];
    assert(0 <= t[0] <= 128 && t[1] == 128 - t[0]) by {
        assert(forall|n: int|
            0 <= n < 8 ==> 0 <= #[trigger] VP8_BILINEAR_FILTERS[n][0] <= 128
                && VP8_BILINEAR_FILTERS[n][1] == 128 - VP8_BILINEAR_FILTERS[n][0]);
    }
    let x0: i32 = weigh(a, t[0]);
    let x1: i32 = weigh(b, t[1]);
    assert(x0 >= 0 && x1 >= 0) by (nonlinear_arith)
        requires
            x0 == a * t[0],
            x1 == b * t[1],
            0 <= t[0] <= 128,
            t[1] == 128 - t[0],
            0 <= a,
            0 <= b,
    ;
    ((x0 + x1 + 64) / 128) as u8
}

/// The horizontal pass of the six-tap filter over `rows` rows from two above `sr` on.
fn filter_block2d_first_pass(
    src: &Plane,
    sr: usize,
    sc: usize,
    x: usize,
    rows: usize,
    w: usize,
) -> (out: [[u8; 16]; 21])
    requires
        rows <= 21,
        w <= 16,
        x < 8,
        2 <= sr,
        2 <= sc,
        sr - 2 + rows <= src.spec_rows(),
        sc + w + 3 <= src.spec_stride(),
    ensures
        forall|i: int, j: int|
            0 <= i < rows && 0 <= j < w ==> #[trigger] out[i][j] == sixtap_row(
                src@,
                sr - 2 + i,
                sc + j,
                x as int,
            ),
{
    let mut out: [[u8; 16]; 21] = [[0u8; 16]; 21];
    let mut i: usize = 0;
    while i < rows
        invariant
            i <= rows,
            rows <= 21,
            w <= 16,
            x < 8,
            2 <= sr,
            2 <= sc,
            sr - 2 + rows <= src.spec_rows(),
            sc + w + 3 <= src.spec_stride(),
            forall|k: int, j: int|
                0 <= k < i && 0 <= j < w ==> #[trigger] out[k][j] == sixtap_row(
                    src@,
                    sr - 2 + k,
                    sc + j,
                    x as int,
                ),
        decreases rows - i,
    {
        let r: usize = sr - 2 + i;
        let mut j: usize = 0;
        while j < w
            invariant
                i < rows,
                j <= w,
                rows <= 21,
                w <= 16,
                x < 8,
                2 <= sr,
                2 <= sc,
                r == sr - 2 + i,
                sr - 2 + rows <= src.spec_rows(),
                sc + w + 3 <= src.spec_stride(),
                forall|k: int, m: int|
                    (0 <= k < i && 0 <= m < w) || (k == i && 0 <= m < j)
                        ==> #[trigger] out[k][m] == sixtap_row(src@, sr - 2 + k, sc + m, x as int),
            decreases w - j,
        {
            let c: usize = sc + j;
            out[i][j] = apply6(
                x,
                src.get(r, c - 2),
                src.get(r, c - 1),
                src.get(r, c),
                src.get(r, c + 1),
                src.get(r, c + 2),
                src.get(r, c + 3),
            );
            j += 1;
        }
        i += 1;
    }
    out
}

/// Interpolates a block with the six-tap filter, first along the rows and then along the
/// columns.
fn filter_block2d(
    src: &Plane,
    sr: usize,
    sc: usize,
    x: usize,
    y: usize,
    dst: &mut Plane,
    r0: usize,
    c0: usize,
    h: usize,
    w: usize,
)
    requires
        h <= 16,
        w <= 16,
        x < 8,
        y < 8,
        2 <= sr,
        2 <= sc,
        sr + h + 3 <= src.spec_rows(),
        sc + w + 3 <= src.spec_stride(),
        r0 + h <= old(dst).spec_rows(),
        c0 + w <= old(dst).spec_stride(),
    ensures
        final(dst)@ == sixtap_pic(
            src@,
            sr as int,
            sc as int,
            x as int,
            y as int,
            old(dst)@,
            r0 as int,
            c0 as int,
            h as int,
            w as int,
        ),
        final(dst).spec_rows() == old(dst).spec_rows(),
        final(dst).spec_stride() == old(dst).spec_stride(),
{
    let ghost p = dst@;
    let mid: [[u8; 16]; 21] = filter_block2d_first_pass(src, sr, sc, x, h + 5, w);
    let mut b: Block = [[0u8; 16]; 16];
    let mut i: usize = 0;
    while i < h
        invariant
            i <= h,
            h <= 16,
            w <= 16,
            y < 8,
            forall|k: int, j: int|
                0 <= k < h + 5 && 0 <= j < w ==> #[trigger] mid[k][j] == sixtap_row(
                    src@,
                    sr - 2 + k,
                    sc + j,
                    x as int,
                ),
            forall|k: int, j: int|
                0 <= k < i && 0 <= j < w ==> #[trigger] b[k][j] == sixtap_pixel(
                    src@,
                    sr + k,
                    sc + j,
                    x as int,
                    y as int,
                ),
        decreases h - i,
    {
        let mut j: usize = 0;
        while j < w
            invariant
                i < h,
                j <= w,
                h <= 16,
                w <= 16,
                y < 8,
                forall|k: int, j: int|
                    0 <= k < h + 5 && 0 <= j < w ==> #[trigger] mid[k][j] == sixtap_row(
                        src@,
                        sr - 2 + k,
                        sc + j,
                        x as int,
                    ),
                forall|k: int, m: int|
                    (0 <= k < i && 0 <= m < w) || (k == i && 0 <= m < j)
                        ==> #[trigger] b[k][m] == sixtap_pixel(
                        src@,
                        sr + k,
                        sc + m,
                        x as int,
                        y as int,
                    ),
            decreases w - j,
        {
            proof {
                assert(mid[i as int][j as int] == sixtap_row(src@, sr + i - 2, sc + j, x as int));
                assert(mid[i + 1][j as int] == sixtap_row(src@, sr + i - 1, sc + j, x as int));
                assert(mid[i + 2][j as int] == sixtap_row(src@, sr + i, sc + j, x as int));
                assert(mid[i + 3][j as int] == sixtap_row(src@, sr + i + 1, sc + j, x as int));
                assert(mid[i + 4][j as int] == sixtap_row(src@, sr + i + 2, sc + j, x as int));
                assert(mid[i + 5][j as int] == sixtap_row(src@, sr + i + 3, sc + j, x as int));
            }
            b[i][j] = apply6(
                y,
                mid[i][j],
                mid[i + 1][j],
                mid[i + 2][j],
                mid[i + 3][j],
                mid[i + 4][j],
                mid[i + 5][j],
            );
            j += 1;
        }
        i += 1;
    }
    dst.put_block(r0, c0, h, w, &b);
    proof {
        lemma_blit_same(
            p,
            r0 as int,
            c0 as int,
            h as int,
            w as int,
            |i: int, j: int| b[i][j],
            |i: int, j: int| sixtap_pixel(src@, sr + i, sc + j, x as int, y as int),
        );
    }
}

/// Interpolates a block with the two-tap filter.
fn filter_block2d_bil(
    src: &Plane,
    sr: usize,
    sc: usize,
    x: usize,
    y: usize,
    dst: &mut Plane,
    r0: usize,
    c0: usize,
    h: usize,
    w: usize,
)
    requires
        h <= 16,
        w <= 16,
        x < 8,
        y < 8,
        sr + h + 1 <= src.spec_rows(),
        sc + w + 1 <= src.spec_stride(),
        r0 + h <= old(dst).spec_rows(),
        c0 + w <= old(dst).spec_stride(),
    ensures
        final(dst)@ == bilinear_pic(
            src@,
            sr as int,
            sc as int,
            x as int,
            y as int,
            old(dst)@,
            r0 as int,
            c0 as int,
            h as int,
            w as int,
        ),
        final(dst).spec_rows() == old(dst).spec_rows(),
        final(dst).spec_stride() == old(dst).spec_stride(),
{
    let ghost p = dst@;
    let mut b: Block = [[0u8; 16]; 16];
    let mut i: usize = 0;
    while i < h
        invariant
            i <= h,
            h <= 16,
            w <= 16,
            x < 8,
            y < 8,
            sr + h + 1 <= src.spec_rows(),
            sc + w + 1 <= src.spec_stride(),
            forall|k: int, j: int|
                0 <= k < i && 0 <= j < w ==> #[trigger] b[k][j] == bilinear_pixel(
                    src@,
                    sr + k,
                    sc + j,
                    x as int,
                    y as int,
                ),
        decreases h - i,
    {
        let r: usize = sr + i;
        let mut j: usize = 0;
        while j < w
            invariant
                i < h,
                j <= w,
                h <= 16,
                w <= 16,
                x < 8,
                y < 8,
                r == sr + i,
                sr + h + 1 <= src.spec_rows(),
                sc + w + 1 <= src.spec_stride(),
                forall|k: int, m: int|
                    (0 <= k < i && 0 <= m < w) || (k == i && 0 <= m < j)
                        ==> #[trigger] b[k][m] == bilinear_pixel(
                        src@,
                        sr + k,
                        sc + m,
                        x as int,
                        y as int,
                    ),
            decreases w - j,
        {
            let c: usize = sc + j;
            let a: u8 = apply2(x, src.get(r, c), src.get(r, c + 1));
            let d: u8 = apply2(x, src.get(r + 1, c), src.get(r + 1, c + 1));
            b[i][j] = apply2(y, a, d);
            j += 1;
        }
        i += 1;
    }
    dst.put_block(r0, c0, h, w, &b);
    proof {
        lemma_blit_same(
            p,
            r0 as int,
            c0 as int,
            h as int,
            w as int,
            |i: int, j: int| b[i][j],
            |i: int, j: int| bilinear_pixel(src@, sr + i, sc + j, x as int, y as int),
        );
    }
}

/// Interpolates a block of 4 columns and 4 rows with the six-tap filter.
pub fn vp8_sixtap_predict4x4_c(
    src: &Plane,
    sr: usize,
    sc: usize,
    xoffset: usize,
    yoffset: usize,
    dst: &mut Plane,
    r0: usize,
    c0: usize,
)
    requires
        xoffset < 8,
        yoffset < 8,
        2 <= sr,
        2 <= sc,
        sr + 7 <= src.spec_rows(),
        sc + 7 <= src.spec_stride(),
        r0 + 4 <= old(dst).spec_rows(),
        c0 + 4 <= old(dst).spec_stride(),
    ensures
        final(dst)@ == sixtap_pic(
            src@,
            sr as int,
            sc as int,
            xoffset as int,
            yoffset as int,
            old(dst)@,
            r0 as int,
            c0 as int,
            4,
            4,
        ),
        final(dst).spec_rows() == old(dst).spec_rows(),
        final(dst).spec_stride() == old(dst).spec_stride(),
{
    filter_block2d(src, sr, sc, xoffset, yoffset, dst, r0, c0, 4, 4);
}

/// Interpolates a block of 8 columns and 4 rows with the six-tap filter.
pub fn vp8_sixtap_predict8x4_c(
    src: &Plane,
    sr: usize,
    sc: usize,
    xoffset: usize,
    yoffset: usize,
    dst: &mut Plane,
    r0: usize,
    c0: usize,
)
    requires
        xoffset < 8,
        yoffset < 8,
        2 <= sr,
        2 <= sc,
        sr + 7 <= src.spec_rows(),
        sc + 11 <= src.spec_stride(),
        r0 + 4 <= old(dst).spec_rows(),
        c0 + 8 <= old(dst).spec_stride(),
    ensures
        final(dst)@ == sixtap_pic(
            src@,
            sr as int,
            sc as int,
            xoffset as int,
            yoffset as int,
            old(dst)@,
            r0 as int,
            c0 as int,
            4,
            8,
        ),
        final(dst).spec_rows() == old(dst).spec_rows(),
        final(dst).spec_stride() == old(dst).spec_stride(),
{
    filter_block2d(src, sr, sc, xoffset, yoffset, dst, r0, c0, 4, 8);
}

/// Interpolates a block of 8 columns and 8 rows with the six-tap filter.
pub fn vp8_sixtap_predict8x8_c(
    src: &Plane,
    sr: usize,
    sc: usize,
    xoffset: usize,
    yoffset: usize,
    dst: &mut Plane,
    r0: usize,
    c0: usize,
)
    requires
        xoffset < 8,
        yoffset < 8,
        2 <= sr,
        2 <= sc,
        sr + 11 <= src.spec_rows(),
        sc + 11 <= src.spec_stride(),
        r0 + 8 <= old(dst).spec_rows(),
        c0 + 8 <= old(dst).spec_stride(),
    ensures
        final(dst)@ == sixtap_pic(
            src@,
            sr as int,
            sc as int,
            xoffset as int,
            yoffset as int,
            old(dst)@,
            r0 as int,
            c0 as int,
            8,
            8,
        ),
        final(dst).spec_rows() == old(dst).spec_rows(),
        final(dst).spec_stride() == old(dst).spec_stride(),
{
    filter_block2d(src, sr, sc, xoffset, yoffset, dst, r0, c0, 8, 8);
}

/// Interpolates a block of 16 columns and 16 rows with the six-tap filter.
pub fn vp8_sixtap_predict16x16_c(
    src: &Plane,
    sr: usize,
    sc: usize,
    xoffset: usize,
    yoffset: usize,
    dst: &mut Plane,
    r0: usize,
    c0: usize,
)
    requires
        xoffset < 8,
        yoffset < 8,
        2 <= sr,
        2 <= sc,
        sr + 19 <= src.spec_rows(),
        sc + 19 <= src.spec_stride(),
        r0 + 16 <= old(dst).spec_rows(),
        c0 + 16 <= old(dst).spec_stride(),
    ensures
        final(dst)@ == sixtap_pic(
            src@,
            sr as int,
            sc as int,
            xoffset as int,
            yoffset as int,
            old(dst)@,
            r0 as int,
            c0 as int,
            16,
            16,
        ),
        final(dst).spec_rows() == old(dst).spec_rows(),
        final(dst).spec_stride() == old(dst).spec_stride(),
{
    filter_block2d(src, sr, sc, xoffset, yoffset, dst, r0, c0, 16, 16);
}

/// Interpolates a block of 4 columns and 4 rows with the two-tap filter.
pub fn vp8_bilinear_predict4x4_c(
    src: &Plane,
    sr: usize,
    sc: usize,
    xoffset: usize,
    yoffset: usize,
    dst: &mut Plane,
    r0: usize,
    c0: usize,
)
    requires
        xoffset < 8,
        yoffset < 8,
        xoffset != 0 || yoffset != 0,
        sr + 5 <= src.spec_rows(),
        sc + 5 <= src.spec_stride(),
        r0 + 4 <= old(dst).spec_rows(),
        c0 + 4 <= old(dst).spec_stride(),
    ensures
        final(dst)@ == bilinear_pic(
            src@,
            sr as int,
            sc as int,
            xoffset as int,
            yoffset as int,
            old(dst)@,
            r0 as int,
            c0 as int,
            4,
            4,
        ),
        final(dst).spec_rows() == old(dst).spec_rows(),
        final(dst).spec_stride() == old(dst).spec_stride(),
{
    filter_block2d_bil(src, sr, sc, xoffset, yoffset, dst, r0, c0, 4, 4);
}

/// Interpolates a block of 8 columns and 4 rows with the two-tap filter.
pub fn vp8_bilinear_predict8x4_c(
    src: &Plane,
    sr: usize,
    sc: usize,
    xoffset: usize,
    yoffset: usize,
    dst: &mut Plane,
    r0: usize,
    c0: usize,
)
    requires
        xoffset < 8,
        yoffset < 8,
        xoffset != 0 || yoffset != 0,
        sr + 5 <= src.spec_rows(),
        sc + 9 <= src.spec_stride(),
        r0 + 4 <= old(dst).spec_rows(),
        c0 + 8 <= old(dst).spec_stride(),
    ensures
        final(dst)@ == bilinear_pic(
            src@,
            sr as int,
            sc as int,
            xoffset as int,
            yoffset as int,
            old(dst)@,
            r0 as int,
            c0 as int,
            4,
            8,
        ),
        final(dst).spec_rows() == old(dst).spec_rows(),
        final(dst).spec_stride() == old(dst).spec_stride(),
{
    filter_block2d_bil(src, sr, sc, xoffset, yoffset, dst, r0, c0, 4, 8);
}

/// Interpolates a block of 8 columns and 8 rows with the two-tap filter.
pub fn vp8_bilinear_predict8x8_c(
    src: &Plane,
    sr: usize,
    sc: usize,
    xoffset: usize,
    yoffset: usize,
    dst: &mut Plane,
    r0: usize,
    c0: usize,
)
    requires
        xoffset < 8,
        yoffset < 8,
        xoffset != 0 || yoffset != 0,
        sr + 9 <= src.spec_rows(),
        sc + 9 <= src.spec_stride(),
        r0 + 8 <= old(dst).spec_rows(),
        c0 + 8 <= old(dst).spec_stride(),
    ensures
        final(dst)@ == bilinear_pic(
            src@,
            sr as int,
            sc as int,
            xoffset as int,
            yoffset as int,
            old(dst)@,
            r0 as int,
            c0 as int,
            8,
            8,
        ),
        final(dst).spec_rows() == old(dst).spec_rows(),
        final(dst).spec_stride() == old(dst).spec_stride(),
{
    filter_block2d_bil(src, sr, sc, xoffset, yoffset, dst, r0, c0, 8, 8);
}

/// Interpolates a block of 16 columns and 16 rows with the two-tap filter.
pub fn vp8_bilinear_predict16x16_c(
    src: &Plane,
    sr: usize,
    sc: usize,
    xoffset: usize,
    yoffset: usize,
    dst: &mut Plane,
    r0: usize,
    c0: usize,
)
    requires
        xoffset < 8,
        yoffset < 8,
        xoffset != 0 || yoffset != 0,
        sr + 17 <= src.spec_rows(),
        sc + 17 <= src.spec_stride(),
        r0 + 16 <= old(dst).spec_rows(),
        c0 + 16 <= old(dst).spec_stride(),
    ensures
        final(dst)@ == bilinear_pic(
            src@,
            sr as int,
            sc as int,
            xoffset as int,
            yoffset as int,
            old(dst)@,
            r0 as int,
            c0 as int,
            16,
            16,
        ),
        final(dst).spec_rows() == old(dst).spec_rows(),
        final(dst).spec_stride() == old(dst).spec_stride(),
{
    filter_block2d_bil(src, sr, sc, xoffset, yoffset, dst, r0, c0, 16, 16);
}

/// At a whole pixel position either filter gives back the pixel itself.
pub proof fn law_whole_pixel(p: Pic, r: int, c: int)
    ensures
        sixtap_pixel(p, r, c, 0, 0) == p[r][c],
        bilinear_pixel(p, r, c, 0, 0) == p[r][c],
{
    assert(VP8_SUB_PEL_FILTERS[0]@ =~= seq![0i32, 0, 128, 0, 0, 0]);
    assert(VP8_BILINEAR_FILTERS[0]@ =~= seq![128i32, 0]);
    let v = p[r][c] as int;
    assert(sixtap_row(p, r, c, 0) == p[r][c]);
    assert(bilinear_row(p, r, c, 0) == p[r][c]);
}

/// The taps of every filter add up to one: a flat picture stays flat between its pixels.
pub proof fn law_flat_stays_flat(k: int, v: u8)
    requires
        0 <= k < 8,
    ensures
        six_tap(k, v as int, v as int, v as int, v as int, v as int, v as int) == v,
        two_tap(k, v as int, v as int) == v,
{
    let t = VP8_SUB_PEL_FILTERS[k];
    assert(t[0] + t[1] + t[2] + t[3] + t[4] + t[5] == 128) by {
        assert(forall|n: int|
            0 <= n < 8 ==> #[trigger] VP8_SUB_PEL_FILTERS[n][0] + VP8_SUB_PEL_FILTERS[n][1]
                + VP8_SUB_PEL_FILTERS[n][2] + VP8_SUB_PEL_FILTERS[n][3] + VP8_SUB_PEL_FILTERS[n][4]
                + VP8_SUB_PEL_FILTERS[n][5] == 128);
    }
    let x = v as int;
    assert(x * t[0] + x * t[1] + x * t[2] + x * t[3] + x * t[4] + x * t[5] == x * 128)
        by (nonlinear_arith)
        requires
            t[0] + t[1] + t[2] + t[3] + t[4] + t[5] == 128,
    ;
    let b = VP8_BILINEAR_FILTERS[k];
    assert(b[0] + b[1] == 128) by {
        assert(forall|n: int|
            0 <= n < 8 ==> #[trigger] VP8_BILINEAR_FILTERS[n][0] + VP8_BILINEAR_FILTERS[n][1]
                == 128);
    }
    assert(x * b[0] + x * b[1] == x * 128) by (nonlinear_arith)
        requires
            b[0] + b[1] == 128,
    ;
}

/// The filters are the same from both sides: `k` eighths from one pixel towards the next is `8 - k`
/// eighths back from the next one. Those for odd eighths look at four pixels only.
pub proof fn law_filters_mirror(
    k: int,
    a: int,
    b: int,
    c: int,
    d: int,
    e: int,
    f: int,
    g: int,
    h: int,
)
    requires
        1 <= k <= 7,
    ensures
        six_tap(k, a, b, c, d, e, f) == six_tap(8 - k, f, e, d, c, b, a),
        two_tap(k, a, b) == two_tap(8 - k, b, a),
        k % 2 == 1 ==> six_tap(k, a, b, c, d, e, f) == six_tap(k, g, b, c, d, e, h),
{
    let (s, t) = (VP8_SUB_PEL_FILTERS[k], VP8_SUB_PEL_FILTERS[8 - k]);
    let (x, y) = (VP8_BILINEAR_FILTERS[k], VP8_BILINEAR_FILTERS[8 - k]);
    assert(k == 1 || k == 2 || k == 3 || k == 4 || k == 5 || k == 6 || k == 7);
    assert(s[0] == t[5] && s[1] == t[4] && s[2] == t[3] && s[3] == t[2] && s[4] == t[1] && s[5]
        == t[0]);
    assert(x[0] == y[1] && x[1] == y[0]);
    if k % 2 == 1 {
        assert(s[0] == 0 && s[5] == 0);
    }
}

} // verus!
