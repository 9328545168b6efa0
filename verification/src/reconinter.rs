//! Prediction of macroblocks from other frames.

use crate::arith::lemma_shr;
use crate::filter::{
    bilinear_pixel, sixtap_pixel, vp8_bilinear_predict16x16_c, vp8_bilinear_predict4x4_c,
    vp8_bilinear_predict8x4_c, vp8_bilinear_predict8x8_c, vp8_sixtap_predict16x16_c,
    vp8_sixtap_predict4x4_c, vp8_sixtap_predict8x4_c, vp8_sixtap_predict8x8_c,
};
use crate::grid::{blit, lemma_blit_same, Block, Pic, Plane};
use crate::types::{
    BModeInfo, FramePlanes, MbEdges, MbPredictionMode, ModeInfo, Mv, SubpixFn, Yuv, edges_at,
    zero_mv,
};
use vstd::prelude::*;

verus! {

/// The motion vector of a subblock; an intra subblock has none.
pub open spec fn bmi_mv(b: BModeInfo) -> Mv {
    match b {
        BModeInfo::Mv(m) => m,
        BModeInfo::Intra(_) => zero_mv(),
    }
}

/// The motion vector of a subblock.
pub fn bmi_as_mv(b: &BModeInfo) -> (m: Mv)
    ensures
        m == bmi_mv(*b),
{
    match *b {
        BModeInfo::Mv(m) => m,
        BModeInfo::Intra(_) => Mv { row: 0, col: 0 },
    }
}

/// The pixel that lies `x` and `y` eighths of a pixel on from `(r, c)`.
pub open spec fn subpixel(kind: SubpixFn, src: Pic, r: int, c: int, x: int, y: int) -> u8 {
    if x == 0 && y == 0 {
        src[r][c]
    } else if kind == SubpixFn::Sixtap {
        sixtap_pixel(src, r, c, x, y)
    } else {
        bilinear_pixel(src, r, c, x, y)
    }
}

/// `dst` with the `h x w` block at `(r0, c0)` predicted from the block of `src` that lies `mv`
/// away from it.
#[verifier::opaque]
pub open spec fn inter_block(
    kind: SubpixFn,
    src: Pic,
    dst: Pic,
    r0: int,
    c0: int,
    h: int,
    w: int,
    mv: Mv,
) -> Pic {
    blit(
        dst,
        r0,
        c0,
        h,
        w,
        |i: int, j: int|
            subpixel(
                kind,
                src,
                r0 + mv.row as int / 8 + i,
                c0 + mv.col as int / 8 + j,
                mv.col as int % 8,
                mv.row as int % 8,
            ),
    )
}

/// The pixels that the prediction of a block needs lie inside the plane.
pub open spec fn in_reach(src: Plane, r0: int, c0: int, h: int, w: int, mv: Mv) -> bool {
    &&& 2 <= r0 + mv.row as int / 8
    &&& r0 + mv.row as int / 8 + h + 3 <= src.spec_rows()
    &&& 2 <= c0 + mv.col as int / 8
    &&& c0 + mv.col as int / 8 + w + 3 <= src.spec_stride()
}

/// Copies a block of whole pixels.
fn copy_block(
    src: &Plane,
    sr: usize,
    sc: usize,
    dst: &mut Plane,
    r0: usize,
    c0: usize,
    h: usize,
    w: usize,
)
    requires
        h <= 16,
        w <= 16,
        sr + h <= src.spec_rows(),
        sc + w <= src.spec_stride(),
        r0 + h <= old(dst).spec_rows(),
        c0 + w <= old(dst).spec_stride(),
    ensures
        final(dst)@ == blit(
            old(dst)@,
            r0 as int,
            c0 as int,
            h as int,
            w as int,
            |i: int, j: int| src@[sr + i][sc + j],
        ),
        final(dst).spec_rows() == old(dst).spec_rows(),
        final(dst).spec_stride() == old(dst).spec_stride(),
{
    let ghost p = dst@;
    let mut b: Block = [[0u8; 16]; 16];
    let mut i: usize = 0;
    while i < h
        invariant
            i <= h,
            h <= 16,
            w <= 16,
            sr + h <= src.spec_rows(),
            sc + w <= src.spec_stride(),
            forall|k: int, j: int|
                0 <= k < i && 0 <= j < w ==> #[trigger] b[k][j] == src@[sr + k][sc + j],
        decreases h - i,
    {
        let mut j: usize = 0;
        while j < w
            invariant
                i < h,
                j <= w,
                h <= 16,
                w <= 16,
                sr + h <= src.spec_rows(),
                sc + w <= src.spec_stride(),
                forall|k: int, m: int|
                    (0 <= k < i && 0 <= m < w) || (k == i && 0 <= m < j) ==> #[trigger] b[k][m]
                        == src@[sr + k][sc + m],
            decreases w - j,
        {
            b[i][j] = src.get(sr + i, sc + j);
            j += 1;
        }
        i += 1;
    }
    dst.put_block(r0, c0, h, w, &b);
    proof {
        lemma_blit_same(
            p,
            r0 as int,
            c0 as int,
            h as int,
            w as int,
            |i: int, j: int| b[i][j],
            |i: int, j: int| src@[sr + i][sc + j],
        );
    }
}

/// Copies a square of 16 pixels.
pub fn vp8_copy_mem16x16_c(src: &Plane, sr: usize, sc: usize, dst: &mut Plane, r0: usize, c0: usize)
    requires
        sr + 16 <= src.spec_rows(),
        sc + 16 <= src.spec_stride(),
        r0 + 16 <= old(dst).spec_rows(),
        c0 + 16 <= old(dst).spec_stride(),
    ensures
        final(dst)@ == blit(
            old(dst)@,
            r0 as int,
            c0 as int,
            16,
            16,
            |i: int, j: int| src@[sr + i][sc + j],
        ),
        final(dst).spec_rows() == old(dst).spec_rows(),
        final(dst).spec_stride() == old(dst).spec_stride(),
{
    copy_block(src, sr, sc, dst, r0, c0, 16, 16);
}

/// Copies a square of 8 pixels.
pub fn vp8_copy_mem8x8_c(src: &Plane, sr: usize, sc: usize, dst: &mut Plane, r0: usize, c0: usize)
    requires
        sr + 8 <= src.spec_rows(),
        sc + 8 <= src.spec_stride(),
        r0 + 8 <= old(dst).spec_rows(),
        c0 + 8 <= old(dst).spec_stride(),
    ensures
        final(dst)@ == blit(
            old(dst)@,
            r0 as int,
            c0 as int,
            8,
            8,
            |i: int, j: int| src@[sr + i][sc + j],
        ),
        final(dst).spec_rows() == old(dst).spec_rows(),
        final(dst).spec_stride() == old(dst).spec_stride(),
{
    copy_block(src, sr, sc, dst, r0, c0, 8, 8);
}

/// Copies a block of 8 columns and 4 rows.
pub fn vp8_copy_mem8x4_c(src: &Plane, sr: usize, sc: usize, dst: &mut Plane, r0: usize, c0: usize)
    requires
        sr + 4 <= src.spec_rows(),
        sc + 8 <= src.spec_stride(),
        r0 + 4 <= old(dst).spec_rows(),
        c0 + 8 <= old(dst).spec_stride(),
    ensures
        final(dst)@ == blit(
            old(dst)@,
            r0 as int,
            c0 as int,
            4,
            8,
            |i: int, j: int| src@[sr + i][sc + j],
        ),
        final(dst).spec_rows() == old(dst).spec_rows(),
        final(dst).spec_stride() == old(dst).spec_stride(),
{
    copy_block(src, sr, sc, dst, r0, c0, 4, 8);
}

/// The whole and the fractional part of a vector component.
fn split_mv(x: i16) -> (r: (i32, usize))
    ensures
        r.0 == x as int / 8,
        r.1 == x as int % 8,
        r.1 < 8,
        -4096 <= r.0 <= 4095,
{
    proof {
        lemma_shr(x as i32);
    }
    let whole: i32 = (x as i32) >> 3;
    let frac: i32 = x as i32 - 8 * whole;
    (whole, frac as usize)
}

/// Predicts the `h x w` block at `(r0, c0)`.
fn build_block(
    kind: SubpixFn,
    src: &Plane,
    dst: &mut Plane,
    r0: usize,
    c0: usize,
    h: usize,
    w: usize,
    mv: Mv,
)
    requires
        (h == 4 && w == 4) || (h == 4 && w == 8) || (h == 8 && w == 8) || (h == 16 && w == 16),
        in_reach(*src, r0 as int, c0 as int, h as int, w as int, mv),
        r0 + h <= old(dst).spec_rows(),
        c0 + w <= old(dst).spec_stride(),
        r0 <= 0x10_0000,
        c0 <= 0x10_0000,
    ensures
        final(dst)@ == inter_block(
            kind,
            src@,
            old(dst)@,
            r0 as int,
            c0 as int,
            h as int,
            w as int,
            mv,
        ),
        final(dst).spec_rows() == old(dst).spec_rows(),
        final(dst).spec_stride() == old(dst).spec_stride(),
{
    proof {
        reveal(inter_block);
    }
    let ghost p = dst@;
    let (dr, y): (i32, usize) = split_mv(mv.row);
    let (dc, x): (i32, usize) = split_mv(mv.col);
    let sr: usize = (r0 as i32 + dr) as usize;
    let sc: usize = (c0 as i32 + dc) as usize;
    if x == 0 && y == 0 {
        if h == 16 {
            vp8_copy_mem16x16_c(src, sr, sc, dst, r0, c0);
        } else if h == 8 {
            vp8_copy_mem8x8_c(src, sr, sc, dst, r0, c0);
        } else if w == 8 {
            vp8_copy_mem8x4_c(src, sr, sc, dst, r0, c0);
        } else {
            copy_block(src, sr, sc, dst, r0, c0, 4, 4);
        }
    } else {
        match kind {
            SubpixFn::Sixtap => {
                if h == 16 {
                    vp8_sixtap_predict16x16_c(src, sr, sc, x, y, dst, r0, c0);
                } else if h == 8 {
                    vp8_sixtap_predict8x8_c(src, sr, sc, x, y, dst, r0, c0);
                } else if w == 8 {
                    vp8_sixtap_predict8x4_c(src, sr, sc, x, y, dst, r0, c0);
                } else {
                    vp8_sixtap_predict4x4_c(src, sr, sc, x, y, dst, r0, c0);
                }
            },
            SubpixFn::Bilinear => {
                if h == 16 {
                    vp8_bilinear_predict16x16_c(src, sr, sc, x, y, dst, r0, c0);
                } else if h == 8 {
                    vp8_bilinear_predict8x8_c(src, sr, sc, x, y, dst, r0, c0);
                } else if w == 8 {
                    vp8_bilinear_predict8x4_c(src, sr, sc, x, y, dst, r0, c0);
                } else {
                    vp8_bilinear_predict4x4_c(src, sr, sc, x, y, dst, r0, c0);
                }
            },
        }
    }
    proof {
        let xi = x as int;
        let yi = y as int;
        let f = |i: int, j: int|
            subpixel(
                kind,
                src@,
                r0 + mv.row as int / 8 + i,
                c0 + mv.col as int / 8 + j,
                mv.col as int % 8,
                mv.row as int % 8,
            );
        let hh = h as int;
        let ww = w as int;
        let ri = r0 as int;
        let ci = c0 as int;
        if x == 0 && y == 0 {
            lemma_blit_same(p, ri, ci, hh, ww, |i: int, j: int| src@[sr + i][sc + j], f);
        } else if kind == SubpixFn::Sixtap {
            lemma_blit_same(
                p,
                ri,
                ci,
                hh,
                ww,
                |i: int, j: int| sixtap_pixel(src@, sr + i, sc + j, xi, yi),
                f,
            );
        } else {
            lemma_blit_same(
                p,
                ri,
                ci,
                hh,
                ww,
                |i: int, j: int| bilinear_pixel(src@, sr + i, sc + j, xi, yi),
                f,
            );
        }
    }
}

/// A component that points more than 19 pixels before the frame, or more than 18 behind it,
/// limited to 16 pixels outside; what it refers to is the same there.
pub open spec fn clamp_umv(x: int, before: int, behind: int) -> int {
    if x < before - 152 {
        before - 128
    } else if x > behind + 144 {
        behind + 128
    } else {
        x
    }
}

/// A vector limited to the neighbourhood of the frame.
pub open spec fn clamped_mv(mv: Mv, e: MbEdges) -> Mv {
    Mv {
        row: clamp_umv(mv.row as int, e.top as int, e.bottom as int) as i16,
        col: clamp_umv(mv.col as int, e.left as int, e.right as int) as i16,
    }
}

/// A chroma component limited to the neighbourhood of the frame.
pub open spec fn clamp_uv(x: int, before: int, behind: int) -> int {
    let a = if 2 * x < before - 152 {
        (before - 128) / 2
    } else {
        x
    };
    if 2 * a > behind + 144 {
        (behind + 128) / 2
    } else {
        a
    }
}

/// A chroma vector limited to the neighbourhood of the frame.
pub open spec fn clamped_uvmv(mv: Mv, e: MbEdges) -> Mv {
    Mv {
        row: clamp_uv(mv.row as int, e.top as int, e.bottom as int) as i16,
        col: clamp_uv(mv.col as int, e.left as int, e.right as int) as i16,
    }
}

/// Distances to the edges of a frame of at most 1024 macroblocks each way.
pub open spec fn edges_ok(e: MbEdges) -> bool {
    &&& -131072 <= e.left <= 0
    &&& 0 <= e.right <= 131072
    &&& -131072 <= e.top <= 0
    &&& 0 <= e.bottom <= 131072
}

fn clamp_mv_to_umv_border(mv: Mv, e: &MbEdges) -> (r: Mv)
    requires
        edges_ok(*e),
    ensures
        r == clamped_mv(mv, *e),
        r.row == clamp_umv(mv.row as int, e.top as int, e.bottom as int),
        r.col == clamp_umv(mv.col as int, e.left as int, e.right as int),
{
    let col: i32 = if (mv.col as i32) < e.left - 152 {
        e.left - 128
    } else if (mv.col as i32) > e.right + 144 {
        e.right + 128
    } else {
        mv.col as i32
    };
    let row: i32 = if (mv.row as i32) < e.top - 152 {
        e.top - 128
    } else if (mv.row as i32) > e.bottom + 144 {
        e.bottom + 128
    } else {
        mv.row as i32
    };
    Mv { row: row as i16, col: col as i16 }
}

fn clamp_uvmv_to_umv_border(mv: Mv, e: &MbEdges) -> (r: Mv)
    requires
        edges_ok(*e),
    ensures
        r == clamped_uvmv(mv, *e),
        r.row == clamp_uv(mv.row as int, e.top as int, e.bottom as int),
        r.col == clamp_uv(mv.col as int, e.left as int, e.right as int),
{
    proof {
        lemma_shr((e.left - 128) as i32);
        lemma_shr((e.right + 128) as i32);
        lemma_shr((e.top - 128) as i32);
        lemma_shr((e.bottom + 128) as i32);
    }
    let mut col: i32 = mv.col as i32;
    if 2 * col < e.left - 152 {
        col = (e.left - 128) >> 1;
    }
    if 2 * col > e.right + 144 {
        col = (e.right + 128) >> 1;
    }
    let mut row: i32 = mv.row as i32;
    if 2 * row < e.top - 152 {
        row = (e.top - 128) >> 1;
    }
    if 2 * row > e.bottom + 144 {
        row = (e.bottom + 128) >> 1;
    }
    Mv { row: row as i16, col: col as i16 }
}

/// Half of `x`, rounded away from zero.
pub open spec fn half_away(x: int) -> int {
    if x >= 0 {
        (x + 1) / 2
    } else {
        -((1 - x) / 2)
    }
}

/// An eighth of `x`, rounded to the nearest, halves away from zero.
pub open spec fn eighth_round(x: int) -> int {
    if x >= 0 {
        (x + 4) / 8
    } else {
        -((4 - x) / 8)
    }
}

/// `x`, rounded down to whole pixels where the stream asks for it.
pub open spec fn full_pixel(x: int, full: bool) -> int {
    if full {
        8 * (x / 8)
    } else {
        x
    }
}

/// The mask that a component is combined with to give whole pixels.
pub open spec fn mask_ok(mask: i32) -> bool {
    mask == -1 || mask == -8
}

fn apply_mask(x: i32, mask: i32) -> (r: i32)
    requires
        mask_ok(mask),
    ensures
        r == full_pixel(x as int, mask == -8),
{
    proof {
        assert(x & -1i32 == x && 0 <= x - (x & -8i32) < 8 && (x & -8i32) == ((x & -8i32) >> 3) * 8)
            by (bit_vector);
    }
    x & mask
}

/// The chroma vector of a macroblock with one luma vector.
pub open spec fn uvmv16(mv: Mv, full: bool) -> Mv {
    Mv {
        row: full_pixel(half_away(mv.row as int), full) as i16,
        col: full_pixel(half_away(mv.col as int), full) as i16,
    }
}

/// A chroma vector refers to pixels inside the border.
pub open spec fn uv_reaches(mv: Mv, e: MbEdges) -> bool {
    &&& e.left - 152 <= 2 * mv.col <= e.right + 144
    &&& e.top - 152 <= 2 * mv.row <= e.bottom + 144
}

/// Where the luma of the macroblock in row or column `k` starts.
pub open spec fn luma_at(k: int) -> int {
    32 + 16 * k
}

/// Where the chroma of the macroblock in row or column `k` starts.
pub open spec fn chroma_at(k: int) -> int {
    16 + 8 * k
}

/// The macroblock in row `r` and column `c` of `d` predicted from `s` by its one vector. The
/// chroma is left alone where its vector leads too far outside the frame.
pub open spec fn inter16(
    kind: SubpixFn,
    full: bool,
    mi: ModeInfo,
    e: MbEdges,
    s: Yuv,
    d: Yuv,
    r: int,
    c: int,
) -> Yuv {
    let mv = if mi.mbmi.need_to_clamp_mvs {
        clamped_mv(mi.mbmi.mv, e)
    } else {
        mi.mbmi.mv
    };
    let uv = uvmv16(mv, full);
    let y = inter_block(kind, s.y, d.y, luma_at(r), luma_at(c), 16, 16, mv);
    if uv_reaches(uv, e) {
        Yuv {
            y,
            u: inter_block(kind, s.u, d.u, chroma_at(r), chroma_at(c), 8, 8, uv),
            v: inter_block(kind, s.v, d.v, chroma_at(r), chroma_at(c), 8, 8, uv),
        }
    } else {
        Yuv { y, ..d }
    }
}

/// A luma vector stays within sixteen pixels of the frame.
pub open spec fn mv_near(mv: Mv, e: MbEdges) -> bool {
    &&& e.left - 128 <= mv.col <= e.right + 128
    &&& e.top - 128 <= mv.row <= e.bottom + 128
}

/// Vectors that may lead further outside the frame are marked as such.
pub open spec fn mvs_ok(mi: ModeInfo, e: MbEdges) -> bool {
    !mi.mbmi.need_to_clamp_mvs ==> {
        &&& mv_near(mi.mbmi.mv, e)
        &&& mi.mbmi.mode == MbPredictionMode::SplitMv ==> forall|k: int|
            0 <= k < 16 ==> mv_near(bmi_mv(#[trigger] mi.bmi[k]), e)
    }
}

/// A luma vector leads at most 19 pixels before the frame and 18 behind it.
pub open spec fn mv_reaches(mv: Mv, e: MbEdges) -> bool {
    &&& e.left - 152 <= mv.col <= e.right + 144
    &&& e.top - 152 <= mv.row <= e.bottom + 144
}

/// What a luma vector near the frame refers to lies inside the border.
proof fn lemma_luma_reach(
    p: FramePlanes,
    mv: Mv,
    e: MbEdges,
    r: int,
    c: int,
    rows: int,
    cols: int,
    dr: int,
    dc: int,
    h: int,
    w: int,
)
    requires
        p.holds(rows, cols),
        0 <= r < rows,
        0 <= c < cols,
        e == edges_at(r, c, rows, cols),
        mv_reaches(mv, e),
        0 <= dr,
        0 <= dc,
        0 <= h,
        0 <= w,
        dr + h <= 16,
        dc + w <= 16,
    ensures
        in_reach(p.y, luma_at(r) + dr, luma_at(c) + dc, h, w, mv),
{
    assert(e.left == -128 * c && e.right == 128 * (cols - 1 - c));
    assert(e.top == -128 * r && e.bottom == 128 * (rows - 1 - r));
}

/// What a chroma vector near the frame refers to lies inside the border.
proof fn lemma_chroma_reach(
    p: FramePlanes,
    mv: Mv,
    e: MbEdges,
    r: int,
    c: int,
    rows: int,
    cols: int,
    dr: int,
    dc: int,
    h: int,
    w: int,
)
    requires
        p.holds(rows, cols),
        0 <= r < rows,
        0 <= c < cols,
        e == edges_at(r, c, rows, cols),
        uv_reaches(mv, e),
        0 <= dr,
        0 <= dc,
        0 <= h,
        0 <= w,
        dr + h <= 8,
        dc + w <= 8,
    ensures
        in_reach(p.u, chroma_at(r) + dr, chroma_at(c) + dc, h, w, mv),
        in_reach(p.v, chroma_at(r) + dr, chroma_at(c) + dc, h, w, mv),
{
    assert(e.left == -128 * c && e.right == 128 * (cols - 1 - c));
    assert(e.top == -128 * r && e.bottom == 128 * (rows - 1 - r));
}

/// Predicts the macroblock in row `r` and column `c` of `dst` from `pre` by its one vector.
pub fn vp8_build_inter16x16_predictors_mb(
    kind: SubpixFn,
    fullpixel_mask: i32,
    mi: &ModeInfo,
    e: &MbEdges,
    pre: &FramePlanes,
    dst: &mut FramePlanes,
    r: usize,
    c: usize,
    rows: usize,
    cols: usize,
)
    requires
        mask_ok(fullpixel_mask),
        pre.holds(rows as int, cols as int),
        old(dst).holds(rows as int, cols as int),
        r < rows,
        c < cols,
        *e == edges_at(r as int, c as int, rows as int, cols as int),
        mvs_ok(*mi, *e),
    ensures
        final(dst)@ == inter16(
            kind,
            fullpixel_mask == -8,
            *mi,
            *e,
            pre@,
            old(dst)@,
            r as int,
            c as int,
        ),
        final(dst).sized_as(old(dst)),
{
    let mut mv: Mv = mi.mbmi.mv;
    if mi.mbmi.need_to_clamp_mvs {
        mv = clamp_mv_to_umv_border(mv, e);
    }
    let yr: usize = 32 + 16 * r;
    let yc: usize = 32 + 16 * c;
    proof {
        let (ri, ci) = (r as int, c as int);
        lemma_luma_reach(*pre, mv, *e, ri, ci, rows as int, cols as int, 0, 0, 16, 16);
    }
    build_block(kind, &pre.y, &mut dst.y, yr, yc, 16, 16, mv);
    let hr: i32 = if mv.row >= 0 {
        (mv.row as i32 + 1) / 2
    } else {
        -((1 - mv.row as i32) / 2)
    };
    let hc: i32 = if mv.col >= 0 {
        (mv.col as i32 + 1) / 2
    } else {
        -((1 - mv.col as i32) / 2)
    };
    let ur: i32 = apply_mask(hr, fullpixel_mask);
    let uc: i32 = apply_mask(hc, fullpixel_mask);
    let uv = Mv { row: ur as i16, col: uc as i16 };
    if 2 * (uv.col as i32) < e.left - 152 || 2 * (uv.col as i32) > e.right + 144 || 2 * (
    uv.row as i32) < e.top - 152 || 2 * (uv.row as i32) > e.bottom + 144 {
        return;
    }
    let cr: usize = 16 + 8 * r;
    let cc: usize = 16 + 8 * c;
    proof {
        let (ri, ci) = (r as int, c as int);
        lemma_chroma_reach(*pre, uv, *e, ri, ci, rows as int, cols as int, 0, 0, 8, 8);
    }
    build_block(kind, &pre.u, &mut dst.u, cr, cc, 8, 8, uv);
    build_block(kind, &pre.v, &mut dst.v, cr, cc, 8, 8, uv);
}

/// The vector that subblock `k` is predicted by.
pub open spec fn luma_mv(mi: ModeInfo, e: MbEdges, k: int) -> Mv {
    if mi.mbmi.need_to_clamp_mvs {
        clamped_mv(bmi_mv(mi.bmi[k]), e)
    } else {
        bmi_mv(mi.bmi[k])
    }
}

/// The mean vector of the four luma subblocks that chroma subblock `k` covers.
pub open spec fn chroma_mean(mi: ModeInfo, k: int, full: bool) -> Mv {
    let b = 8 * (k / 2) + 2 * (k % 2);
    let m0 = bmi_mv(mi.bmi[b]);
    let m1 = bmi_mv(mi.bmi[b + 1]);
    let m2 = bmi_mv(mi.bmi[b + 4]);
    let m3 = bmi_mv(mi.bmi[b + 5]);
    Mv {
        row: full_pixel(eighth_round(m0.row + m1.row + m2.row + m3.row), full) as i16,
        col: full_pixel(eighth_round(m0.col + m1.col + m2.col + m3.col), full) as i16,
    }
}

/// The vector that chroma subblock `k` is predicted by.
pub open spec fn chroma_mv(mi: ModeInfo, e: MbEdges, full: bool, k: int) -> Mv {
    if mi.mbmi.need_to_clamp_mvs {
        clamped_uvmv(chroma_mean(mi, k, full), e)
    } else {
        chroma_mean(mi, k, full)
    }
}

/// The first `n` quarters of a macroblock's luma predicted, each by the vector of its first
/// subblock.
pub open spec fn split_quarters(
    kind: SubpixFn,
    mi: ModeInfo,
    e: MbEdges,
    s: Pic,
    d: Pic,
    r0: int,
    c0: int,
    n: int,
) -> Pic
    decreases n,
{
    if n <= 0 {
        d
    } else {
        let k = n - 1;
        inter_block(
            kind,
            s,
            split_quarters(kind, mi, e, s, d, r0, c0, k),
            r0 + 8 * (k / 2),
            c0 + 8 * (k % 2),
            8,
            8,
            luma_mv(mi, e, 8 * (k / 2) + 2 * (k % 2)),
        )
    }
}

/// The first `n` luma subblocks predicted, each by its own vector.
pub open spec fn split_subblocks(
    kind: SubpixFn,
    mi: ModeInfo,
    e: MbEdges,
    s: Pic,
    d: Pic,
    r0: int,
    c0: int,
    n: int,
) -> Pic
    decreases n,
{
    if n <= 0 {
        d
    } else {
        let k = n - 1;
        inter_block(
            kind,
            s,
            split_subblocks(kind, mi, e, s, d, r0, c0, k),
            r0 + 4 * (k / 4),
            c0 + 4 * (k % 4),
            4,
            4,
            luma_mv(mi, e, k),
        )
    }
}

/// The first `n` subblocks of a chroma plane predicted.
pub open spec fn split_chroma(
    kind: SubpixFn,
    full: bool,
    mi: ModeInfo,
    e: MbEdges,
    s: Pic,
    d: Pic,
    r0: int,
    c0: int,
    n: int,
) -> Pic
    decreases n,
{
    if n <= 0 {
        d
    } else {
        let k = n - 1;
        inter_block(
            kind,
            s,
            split_chroma(kind, full, mi, e, s, d, r0, c0, k),
            r0 + 4 * (k / 2),
            c0 + 4 * (k % 2),
            4,
            4,
            chroma_mv(mi, e, full, k),
        )
    }
}

/// The macroblock in row `r` and column `c` of `d` predicted from `s` by the vectors of its
/// parts.
pub open spec fn inter_split(
    kind: SubpixFn,
    full: bool,
    mi: ModeInfo,
    e: MbEdges,
    s: Yuv,
    d: Yuv,
    r: int,
    c: int,
) -> Yuv {
    Yuv {
        y: if mi.mbmi.partitioning < 3 {
            split_quarters(kind, mi, e, s.y, d.y, luma_at(r), luma_at(c), 4)
        } else {
            split_subblocks(kind, mi, e, s.y, d.y, luma_at(r), luma_at(c), 16)
        },
        u: split_chroma(kind, full, mi, e, s.u, d.u, chroma_at(r), chroma_at(c), 4),
        v: split_chroma(kind, full, mi, e, s.v, d.v, chroma_at(r), chroma_at(c), 4),
    }
}

/// The macroblock in row `r` and column `c` of `d` predicted from `s`.
#[verifier::opaque]
pub open spec fn inter_mb(
    kind: SubpixFn,
    full: bool,
    mi: ModeInfo,
    e: MbEdges,
    s: Yuv,
    d: Yuv,
    r: int,
    c: int,
) -> Yuv {
    if mi.mbmi.mode == MbPredictionMode::SplitMv {
        inter_split(kind, full, mi, e, s, d, r, c)
    } else {
        inter16(kind, full, mi, e, s, d, r, c)
    }
}

/// Two subblocks side by side with the same vector are predicted as one.
proof fn lemma_pair(kind: SubpixFn, s: Pic, d: Pic, r0: int, c0: int, mv: Mv)
    ensures
        inter_block(kind, s, d, r0, c0, 4, 8, mv) == inter_block(
            kind,
            s,
            inter_block(kind, s, d, r0, c0, 4, 4, mv),
            r0,
            c0 + 4,
            4,
            4,
            mv,
        ),
{
    reveal(inter_block);
    let a = inter_block(kind, s, d, r0, c0, 4, 8, mv);
    let m = inter_block(kind, s, d, r0, c0, 4, 4, mv);
    let b = inter_block(kind, s, m, r0, c0 + 4, 4, 4, mv);
    assert forall|r: int| 0 <= r < d.len() implies #[trigger] a[r] =~= b[r] by {
        if r0 <= r < r0 + 4 {
            assert forall|c: int| 0 <= c < d[r].len() implies a[r][c] == b[r][c] by {
                let base = c0 + mv.col as int / 8;
                assert(base + (c - c0) == c0 + 4 + mv.col as int / 8 + (c - (c0 + 4)));
            }
        }
    }
    assert(a =~= b);
}

/// The vector that a luma subblock is predicted by.
fn pick_luma_mv(mi: &ModeInfo, e: &MbEdges, k: usize) -> (mv: Mv)
    requires
        edges_ok(*e),
        k < 16,
        mi.mbmi.mode == MbPredictionMode::SplitMv,
        mvs_ok(*mi, *e),
    ensures
        mv == luma_mv(*mi, *e, k as int),
        mv_reaches(mv, *e),
{
    let m: Mv = bmi_as_mv(&mi.bmi[k]);
    if mi.mbmi.need_to_clamp_mvs {
        clamp_mv_to_umv_border(m, e)
    } else {
        assert(mv_near(bmi_mv(mi.bmi[k as int]), *e));
        m
    }
}

/// The nearest eighth of a sum of four components.
fn mean4(a: i16, b: i16, c: i16, d: i16, mask: i32) -> (m: i16)
    requires
        mask_ok(mask),
    ensures
        m == full_pixel(eighth_round(a + b + c + d), mask == -8),
{
    let t: i32 = a as i32 + b as i32 + c as i32 + d as i32;
    let q: i32 = if t >= 0 {
        (t + 4) / 8
    } else {
        -((4 - t) / 8)
    };
    apply_mask(q, mask) as i16
}

/// The mean of four components near the frame stays near it.
proof fn lemma_mean_near(a: int, b: int, c: int, d: int, before: int, behind: int, full: bool)
    requires
        -131072 <= before <= 0 <= behind <= 131072,
        before % 16 == 0,
        behind % 16 == 0,
        before - 128 <= a <= behind + 128,
        before - 128 <= b <= behind + 128,
        before - 128 <= c <= behind + 128,
        before - 128 <= d <= behind + 128,
    ensures
        before - 152 <= 2 * full_pixel(eighth_round(a + b + c + d), full) <= behind + 144,
{
    let k0 = before / 16;
    let k1 = behind / 16;
    lemma_sum_near(a + b + c + d, k0, k1, full);
}

/// The nearest eighth of a sum in a range of multiples of 64 stays near it.
#[verifier::spinoff_prover]
proof fn lemma_sum_near(s: int, k0: int, k1: int, full: bool)
    requires
        64 * k0 - 512 <= s <= 64 * k1 + 512,
        k0 <= 0 <= k1,
    ensures
        16 * k0 - 152 <= 2 * full_pixel(eighth_round(s), full) <= 16 * k1 + 144,
{
    let q = eighth_round(s);
    if s >= 0 {
        assert(8 * q <= s + 4);
        assert(0 <= q);
    } else {
        let m = (4 - s) / 8;
        assert(q == -m);
        assert(0 <= 8 * m <= 4 - s);
    }
    assert(8 * k0 - 64 <= q <= 8 * k1 + 64);
    assert(q - 7 <= 8 * (q / 8) <= q);
}

/// The vector that chroma subblock `k` is predicted by.
fn pick_chroma_mv(mi: &ModeInfo, e: &MbEdges, mask: i32, k: usize) -> (mv: Mv)
    requires
        k < 4,
        edges_ok(*e),
        e.left % 16 == 0,
        e.right % 16 == 0,
        e.top % 16 == 0,
        e.bottom % 16 == 0,
        mask_ok(mask),
        mi.mbmi.mode == MbPredictionMode::SplitMv,
        mvs_ok(*mi, *e),
    ensures
        mv == chroma_mv(*mi, *e, mask == -8, k as int),
        uv_reaches(mv, *e),
{
    let b: usize = 8 * (k / 2) + 2 * (k % 2);
    let m0: Mv = bmi_as_mv(&mi.bmi[b]);
    let m1: Mv = bmi_as_mv(&mi.bmi[b + 1]);
    let m2: Mv = bmi_as_mv(&mi.bmi[b + 4]);
    let m3: Mv = bmi_as_mv(&mi.bmi[b + 5]);
    let mv = Mv {
        row: mean4(m0.row, m1.row, m2.row, m3.row, mask),
        col: mean4(m0.col, m1.col, m2.col, m3.col, mask),
    };
    assert(mv == chroma_mean(*mi, k as int, mask == -8));
    if mi.mbmi.need_to_clamp_mvs {
        clamp_uvmv_to_umv_border(mv, e)
    } else {
        proof {
            assert(mv_near(bmi_mv(mi.bmi[b as int]), *e));
            assert(mv_near(bmi_mv(mi.bmi[b + 1]), *e));
            assert(mv_near(bmi_mv(mi.bmi[b + 4]), *e));
            assert(mv_near(bmi_mv(mi.bmi[b + 5]), *e));
            lemma_mean_near(
                m0.row as int,
                m1.row as int,
                m2.row as int,
                m3.row as int,
                e.top as int,
                e.bottom as int,
                mask == -8,
            );
            lemma_mean_near(
                m0.col as int,
                m1.col as int,
                m2.col as int,
                m3.col as int,
                e.left as int,
                e.right as int,
                mask == -8,
            );
        }
        mv
    }
}

/// The vectors that the four subblocks of a chroma plane are predicted by.
fn build_4x4uvmvs(mi: &ModeInfo, e: &MbEdges, mask: i32) -> (m: [Mv; 4])
    requires
        edges_ok(*e),
        e.left % 16 == 0,
        e.right % 16 == 0,
        e.top % 16 == 0,
        e.bottom % 16 == 0,
        mask_ok(mask),
        mi.mbmi.mode == MbPredictionMode::SplitMv,
        mvs_ok(*mi, *e),
    ensures
        forall|k: int| 0 <= k < 4 ==> #[trigger] m[k] == chroma_mv(*mi, *e, mask == -8, k),
        forall|k: int| 0 <= k < 4 ==> uv_reaches(#[trigger] m[k], *e),
{
    let m0: Mv = pick_chroma_mv(mi, e, mask, 0);
    let m1: Mv = pick_chroma_mv(mi, e, mask, 1);
    let m2: Mv = pick_chroma_mv(mi, e, mask, 2);
    let m3: Mv = pick_chroma_mv(mi, e, mask, 3);
    [m0, m1, m2, m3]
}

/// Predicts the luma of a split macroblock.
fn build_inter4x4_luma(
    kind: SubpixFn,
    mi: &ModeInfo,
    e: &MbEdges,
    pre: &FramePlanes,
    dst: &mut FramePlanes,
    r: usize,
    c: usize,
    rows: usize,
    cols: usize,
)
    requires
        pre.holds(rows as int, cols as int),
        old(dst).holds(rows as int, cols as int),
        r < rows,
        c < cols,
        *e == edges_at(r as int, c as int, rows as int, cols as int),
        mi.mbmi.mode == MbPredictionMode::SplitMv,
        mvs_ok(*mi, *e),
    ensures
        final(dst)@.y == (if mi.mbmi.partitioning < 3 {
            split_quarters(
                kind,
                *mi,
                *e,
                pre.y@,
                old(dst).y@,
                luma_at(r as int),
                luma_at(c as int),
                4,
            )
        } else {
            split_subblocks(
                kind,
                *mi,
                *e,
                pre.y@,
                old(dst).y@,
                luma_at(r as int),
                luma_at(c as int),
                16,
            )
        }),
        final(dst).u == old(dst).u,
        final(dst).v == old(dst).v,
        final(dst).sized_as(old(dst)),
{
    let yr: usize = 32 + 16 * r;
    let yc: usize = 32 + 16 * c;
    let ghost d0 = dst.y@;
    let ghost (ri, ci, rn, cn) = (r as int, c as int, rows as int, cols as int);
    if mi.mbmi.partitioning < 3 {
        let mut q: usize = 0;
        while q < 4
            invariant
                q <= 4,
                pre.holds(rn, cn),
                dst.holds(rn, cn),
                dst.sized_as(old(dst)),
                dst.u == old(dst).u,
                dst.v == old(dst).v,
                ri == r,
                ci == c,
                rn == rows,
                cn == cols,
                r < rows,
                c < cols,
                yr == luma_at(ri),
                yc == luma_at(ci),
                *e == edges_at(ri, ci, rn, cn),
                mi.mbmi.mode == MbPredictionMode::SplitMv,
                mvs_ok(*mi, *e),
                dst.y@ == split_quarters(
                    kind,
                    *mi,
                    *e,
                    pre.y@,
                    d0,
                    luma_at(ri),
                    luma_at(ci),
                    q as int,
                ),
            decreases 4 - q,
        {
            let mv: Mv = pick_luma_mv(mi, e, 8 * (q / 2) + 2 * (q % 2));
            let dr: usize = 8 * (q / 2);
            let dc: usize = 8 * (q % 2);
            proof {
                lemma_luma_reach(*pre, mv, *e, ri, ci, rn, cn, dr as int, dc as int, 8, 8);
            }
            build_block(kind, &pre.y, &mut dst.y, yr + dr, yc + dc, 8, 8, mv);
            q += 1;
        }
    } else {
        let mut k: usize = 0;
        while k < 16
            invariant
                k <= 16,
                k % 2 == 0,
                pre.holds(rn, cn),
                dst.holds(rn, cn),
                dst.sized_as(old(dst)),
                dst.u == old(dst).u,
                dst.v == old(dst).v,
                ri == r,
                ci == c,
                rn == rows,
                cn == cols,
                r < rows,
                c < cols,
                yr == luma_at(ri),
                yc == luma_at(ci),
                *e == edges_at(ri, ci, rn, cn),
                mi.mbmi.mode == MbPredictionMode::SplitMv,
                mvs_ok(*mi, *e),
                dst.y@ == split_subblocks(
                    kind,
                    *mi,
                    *e,
                    pre.y@,
                    d0,
                    luma_at(ri),
                    luma_at(ci),
                    k as int,
                ),
            decreases 16 - k,
        {
            let ghost before = dst.y@;
            let mv0: Mv = pick_luma_mv(mi, e, k);
            let mv1: Mv = pick_luma_mv(mi, e, k + 1);
            let dr: usize = 4 * (k / 4);
            let dc: usize = 4 * (k % 4);
            proof {
                assert((k + 1) / 4 == k / 4 && (k + 1) % 4 == k % 4 + 1);
                reveal_with_fuel(split_subblocks, 3);
            }
            if mv0 == mv1 {
                proof {
                    lemma_luma_reach(*pre, mv0, *e, ri, ci, rn, cn, dr as int, dc as int, 4, 8);
                    lemma_pair(kind, pre.y@, before, yr + dr, yc + dc, mv0);
                }
                build_block(kind, &pre.y, &mut dst.y, yr + dr, yc + dc, 4, 8, mv0);
            } else {
                proof {
                    lemma_luma_reach(*pre, mv0, *e, ri, ci, rn, cn, dr as int, dc as int, 4, 4);
                    lemma_luma_reach(*pre, mv1, *e, ri, ci, rn, cn, dr as int, dc + 4, 4, 4);
                }
                build_block(kind, &pre.y, &mut dst.y, yr + dr, yc + dc, 4, 4, mv0);
                build_block(kind, &pre.y, &mut dst.y, yr + dr, yc + dc + 4, 4, 4, mv1);
            }
            k += 2;
        }
    }
}

/// Predicts the four subblocks of one chroma plane.
fn build_inter4x4_chroma(
    kind: SubpixFn,
    m: &[Mv; 4],
    src: &Plane,
    dst: &mut Plane,
    r0: usize,
    c0: usize,
    Ghost(full): Ghost<bool>,
    Ghost(mi): Ghost<ModeInfo>,
    Ghost(e): Ghost<MbEdges>,
)
    requires
        r0 <= 0x1_0000,
        c0 <= 0x1_0000,
        r0 + 8 <= old(dst).spec_rows(),
        c0 + 8 <= old(dst).spec_stride(),
        forall|k: int| 0 <= k < 4 ==> #[trigger] m[k] == chroma_mv(mi, e, full, k),
        forall|k: int, dr: int, dc: int, h: int, w: int|
            0 <= k < 4 && 0 <= dr && 0 <= dc && 0 <= h && 0 <= w && dr + h <= 8 && dc + w <= 8
                ==> #[trigger] in_reach(*src, r0 + dr, c0 + dc, h, w, m[k]),
    ensures
        final(dst)@ == split_chroma(
            kind,
            full,
            mi,
            e,
            src@,
            old(dst)@,
            r0 as int,
            c0 as int,
            4,
        ),
        final(dst).spec_rows() == old(dst).spec_rows(),
        final(dst).spec_stride() == old(dst).spec_stride(),
{
    let mut k: usize = 0;
    while k < 4
        invariant
            k <= 4,
            k % 2 == 0,
            r0 <= 0x1_0000,
            c0 <= 0x1_0000,
            r0 + 8 <= dst.spec_rows(),
            c0 + 8 <= dst.spec_stride(),
            dst.spec_rows() == old(dst).spec_rows(),
            dst.spec_stride() == old(dst).spec_stride(),
            forall|k: int| 0 <= k < 4 ==> #[trigger] m[k] == chroma_mv(mi, e, full, k),
            forall|k: int, dr: int, dc: int, h: int, w: int|
                0 <= k < 4 && 0 <= dr && 0 <= dc && 0 <= h && 0 <= w && dr + h <= 8 && dc + w <= 8
                    ==> #[trigger] in_reach(*src, r0 + dr, c0 + dc, h, w, m[k]),
            dst@ == split_chroma(
                kind,
                full,
                mi,
                e,
                src@,
                old(dst)@,
                r0 as int,
                c0 as int,
                k as int,
            ),
        decreases 4 - k,
    {
        let ghost before = dst@;
        let mv0: Mv = m[k];
        let mv1: Mv = m[k + 1];
        let dr: usize = 4 * (k / 2);
        proof {
            assert(m[k as int] == chroma_mv(mi, e, full, k as int));
            assert(m[k + 1] == chroma_mv(mi, e, full, k + 1));
            assert((k + 1) / 2 == k / 2 && (k + 1) % 2 == 1 && k % 2 == 0);
            reveal_with_fuel(split_chroma, 3);
            assert(in_reach(*src, r0 + dr, c0 + 0, 4, 8, m[k as int]));
            assert(in_reach(*src, r0 + dr, c0 + 0, 4, 4, m[k as int]));
            assert(in_reach(*src, r0 + dr, c0 + 4, 4, 4, m[k + 1]));
        }
        if mv0 == mv1 {
            proof {
                lemma_pair(kind, src@, before, r0 + dr, c0 as int, mv0);
            }
            build_block(kind, src, dst, r0 + dr, c0, 4, 8, mv0);
        } else {
            build_block(kind, src, dst, r0 + dr, c0, 4, 4, mv0);
            build_block(kind, src, dst, r0 + dr, c0 + 4, 4, 4, mv1);
        }
        k += 2;
    }
}

/// Predicts a split macroblock.
fn build_inter4x4_predictors_mb(
    kind: SubpixFn,
    fullpixel_mask: i32,
    mi: &ModeInfo,
    e: &MbEdges,
    pre: &FramePlanes,
    dst: &mut FramePlanes,
    r: usize,
    c: usize,
    rows: usize,
    cols: usize,
)
    requires
        mask_ok(fullpixel_mask),
        pre.holds(rows as int, cols as int),
        old(dst).holds(rows as int, cols as int),
        r < rows,
        c < cols,
        *e == edges_at(r as int, c as int, rows as int, cols as int),
        mi.mbmi.mode == MbPredictionMode::SplitMv,
        mvs_ok(*mi, *e),
    ensures
        final(dst)@ == inter_split(
            kind,
            fullpixel_mask == -8,
            *mi,
            *e,
            pre@,
            old(dst)@,
            r as int,
            c as int,
        ),
        final(dst).sized_as(old(dst)),
{
    let uv: [Mv; 4] = build_4x4uvmvs(mi, e, fullpixel_mask);
    let cr: usize = 16 + 8 * r;
    let cc: usize = 16 + 8 * c;
    proof {
        let (ri, ci, rn, cn) = (r as int, c as int, rows as int, cols as int);
        assert forall|k: int, dr: int, dc: int, h: int, w: int|
            0 <= k < 4 && 0 <= dr && 0 <= dc && 0 <= h && 0 <= w && dr + h <= 8 && dc + w
                <= 8 implies #[trigger] in_reach(pre.u, cr + dr, cc + dc, h, w, uv[k]) && in_reach(
            pre.v,
            cr + dr,
            cc + dc,
            h,
            w,
            uv[k],
        ) by {
            lemma_chroma_reach(*pre, uv[k], *e, ri, ci, rn, cn, dr, dc, h, w);
        }
        assert forall|k: int, dr: int, dc: int, h: int, w: int|
            0 <= k < 4 && 0 <= dr && 0 <= dc && 0 <= h && 0 <= w && dr + h <= 8 && dc + w
                <= 8 implies #[trigger] in_reach(pre.v, cr + dr, cc + dc, h, w, uv[k]) by {
            lemma_chroma_reach(*pre, uv[k], *e, ri, ci, rn, cn, dr, dc, h, w);
        }
    }
    build_inter4x4_luma(kind, mi, e, pre, dst, r, c, rows, cols);
    let ghost full = fullpixel_mask == -8;
    build_inter4x4_chroma(
        kind,
        &uv,
        &pre.u,
        &mut dst.u,
        cr,
        cc,
        Ghost(full),
        Ghost(*mi),
        Ghost(*e),
    );
    build_inter4x4_chroma(
        kind,
        &uv,
        &pre.v,
        &mut dst.v,
        cr,
        cc,
        Ghost(full),
        Ghost(*mi),
        Ghost(*e),
    );
}

/// Predicts the macroblock in row `r` and column `c` of `dst` from `pre`.
pub fn vp8_build_inter_predictors_mb(
    kind: SubpixFn,
    fullpixel_mask: i32,
    mi: &ModeInfo,
    e: &MbEdges,
    pre: &FramePlanes,
    dst: &mut FramePlanes,
    r: usize,
    c: usize,
    rows: usize,
    cols: usize,
)
    requires
        mask_ok(fullpixel_mask),
        pre.holds(rows as int, cols as int),
        old(dst).holds(rows as int, cols as int),
        r < rows,
        c < cols,
        *e == edges_at(r as int, c as int, rows as int, cols as int),
        mvs_ok(*mi, *e),
    ensures
        final(dst)@ == inter_mb(
            kind,
            fullpixel_mask == -8,
            *mi,
            *e,
            pre@,
            old(dst)@,
            r as int,
            c as int,
        ),
        final(dst).sized_as(old(dst)),
{
    proof {
        reveal(inter_mb);
    }
    if mi.mbmi.mode != MbPredictionMode::SplitMv {
        vp8_build_inter16x16_predictors_mb(
            kind,
            fullpixel_mask,
            mi,
            e,
            pre,
            dst,
            r,
            c,
            rows,
            cols,
        );
    } else {
        build_inter4x4_predictors_mb(kind, fullpixel_mask, mi, e, pre, dst, r, c, rows, cols);
    }
}

/// The pixel in row `i` and column `j` of a picture, seen from the frame that a vector leads to:
/// the one that lies as far away from the same place as the vector says, eight eighths to the
/// pixel.
pub open spec fn moved_pixel(kind: SubpixFn, s: Pic, i: int, j: int, mv: Mv) -> u8 {
    subpixel(
        kind,
        s,
        i + mv.row as int / 8,
        j + mv.col as int / 8,
        mv.col as int % 8,
        mv.row as int % 8,
    )
}

/// A predicted block takes every pixel from as far away as its vector says, and leaves alone what
/// lies outside of it.
pub proof fn law_block_pixels(
    kind: SubpixFn,
    s: Pic,
    d: Pic,
    r0: int,
    c0: int,
    h: int,
    w: int,
    mv: Mv,
    i: int,
    j: int,
)
    requires
        0 <= i < d.len(),
        0 <= j < d[i].len(),
    ensures
        ({
            let p = inter_block(kind, s, d, r0, c0, h, w, mv);
            &&& p.len() == d.len()
            &&& p[i].len() == d[i].len()
            &&& p[i][j] == (if r0 <= i < r0 + h && c0 <= j < c0 + w {
                moved_pixel(kind, s, i, j, mv)
            } else {
                d[i][j]
            })
        }),
{
    reveal(inter_block);
    assert(r0 + mv.row as int / 8 + (i - r0) == i + mv.row as int / 8);
    assert(c0 + mv.col as int / 8 + (j - c0) == j + mv.col as int / 8);
}

/// A vector of whole pixels copies them, with either filter.
pub proof fn law_whole_vector_copies(kind: SubpixFn, s: Pic, i: int, j: int, mv: Mv)
    requires
        mv.row as int % 8 == 0,
        mv.col as int % 8 == 0,
    ensures
        moved_pixel(kind, s, i, j, mv) == s[i + mv.row as int / 8][j + mv.col as int / 8],
{
}

/// No motion copies the picture as it is.
pub proof fn law_no_motion_copies(kind: SubpixFn, s: Pic, i: int, j: int)
    ensures
        moved_pixel(kind, s, i, j, zero_mv()) == s[i][j],
{
}

/// The vector by which the luma pixel in row `i` and column `j` of a macroblock is predicted: that
/// of the macroblock, that of the upper left subblock of its quarter, or that of its subblock.
pub open spec fn vector_at(mi: ModeInfo, i: int, j: int) -> Mv {
    if mi.mbmi.mode != MbPredictionMode::SplitMv {
        mi.mbmi.mv
    } else if mi.mbmi.partitioning < 3 {
        bmi_mv(mi.bmi[8 * (i / 8) + 2 * (j / 8)])
    } else {
        bmi_mv(mi.bmi[4 * (i / 4) + j / 4])
    }
}

proof fn lemma_quarters(
    kind: SubpixFn,
    mi: ModeInfo,
    e: MbEdges,
    s: Pic,
    d: Pic,
    r0: int,
    c0: int,
    n: int,
    i: int,
    j: int,
)
    requires
        0 <= n <= 4,
        0 <= i < 16,
        0 <= j < 16,
        0 <= r0,
        0 <= c0,
        r0 + i < d.len(),
        c0 + j < d[r0 + i].len(),
    ensures
        ({
            let p = split_quarters(kind, mi, e, s, d, r0, c0, n);
            &&& p.len() == d.len()
            &&& p[r0 + i].len() == d[r0 + i].len()
            &&& p[r0 + i][c0 + j] == (if 2 * (i / 8) + j / 8 < n {
                moved_pixel(
                    kind,
                    s,
                    r0 + i,
                    c0 + j,
                    luma_mv(mi, e, 8 * (i / 8) + 2 * (j / 8)),
                )
            } else {
                d[r0 + i][c0 + j]
            })
        }),
    decreases n,
{
    if n > 0 {
        let k = n - 1;
        lemma_quarters(kind, mi, e, s, d, r0, c0, k, i, j);
        law_block_pixels(
            kind,
            s,
            split_quarters(kind, mi, e, s, d, r0, c0, k),
            r0 + 8 * (k / 2),
            c0 + 8 * (k % 2),
            8,
            8,
            luma_mv(mi, e, 8 * (k / 2) + 2 * (k % 2)),
            r0 + i,
            c0 + j,
        );
        assert(k == 0 || k == 1 || k == 2 || k == 3);
    }
}

proof fn lemma_subblock_pixels(
    kind: SubpixFn,
    mi: ModeInfo,
    e: MbEdges,
    s: Pic,
    d: Pic,
    r0: int,
    c0: int,
    n: int,
    i: int,
    j: int,
)
    requires
        0 <= n <= 16,
        0 <= i < 16,
        0 <= j < 16,
        0 <= r0,
        0 <= c0,
        r0 + i < d.len(),
        c0 + j < d[r0 + i].len(),
    ensures
        ({
            let p = split_subblocks(kind, mi, e, s, d, r0, c0, n);
            &&& p.len() == d.len()
            &&& p[r0 + i].len() == d[r0 + i].len()
            &&& p[r0 + i][c0 + j] == (if 4 * (i / 4) + j / 4 < n {
                moved_pixel(kind, s, r0 + i, c0 + j, luma_mv(mi, e, 4 * (i / 4) + j / 4))
            } else {
                d[r0 + i][c0 + j]
            })
        }),
    decreases n,
{
    if n > 0 {
        let k = n - 1;
        lemma_subblock_pixels(kind, mi, e, s, d, r0, c0, k, i, j);
        law_block_pixels(
            kind,
            s,
            split_subblocks(kind, mi, e, s, d, r0, c0, k),
            r0 + 4 * (k / 4),
            c0 + 4 * (k % 4),
            4,
            4,
            luma_mv(mi, e, k),
            r0 + i,
            c0 + j,
        );
    }
}

proof fn lemma_chroma_pixels(
    kind: SubpixFn,
    full: bool,
    mi: ModeInfo,
    e: MbEdges,
    s: Pic,
    d: Pic,
    r0: int,
    c0: int,
    n: int,
    i: int,
    j: int,
)
    requires
        0 <= n <= 4,
        0 <= i < 8,
        0 <= j < 8,
        0 <= r0,
        0 <= c0,
        r0 + i < d.len(),
        c0 + j < d[r0 + i].len(),
    ensures
        ({
            let p = split_chroma(kind, full, mi, e, s, d, r0, c0, n);
            &&& p.len() == d.len()
            &&& p[r0 + i].len() == d[r0 + i].len()
            &&& p[r0 + i][c0 + j] == (if 2 * (i / 4) + j / 4 < n {
                moved_pixel(
                    kind,
                    s,
                    r0 + i,
                    c0 + j,
                    chroma_mv(mi, e, full, 2 * (i / 4) + j / 4),
                )
            } else {
                d[r0 + i][c0 + j]
            })
        }),
    decreases n,
{
    if n > 0 {
        let k = n - 1;
        lemma_chroma_pixels(kind, full, mi, e, s, d, r0, c0, k, i, j);
        law_block_pixels(
            kind,
            s,
            split_chroma(kind, full, mi, e, s, d, r0, c0, k),
            r0 + 4 * (k / 2),
            c0 + 4 * (k % 2),
            4,
            4,
            chroma_mv(mi, e, full, k),
            r0 + i,
            c0 + j,
        );
        assert(k == 0 || k == 1 || k == 2 || k == 3);
    }
}

/// Every luma pixel of a macroblock that is predicted from another frame comes from as far away as
/// the vector at its place says, limited to the neighbourhood of the frame where the macroblock
/// needs it.
pub proof fn law_inter_luma(
    kind: SubpixFn,
    full: bool,
    mi: ModeInfo,
    e: MbEdges,
    s: Yuv,
    d: Yuv,
    r: int,
    c: int,
    i: int,
    j: int,
)
    requires
        0 <= r,
        0 <= c,
        0 <= i < 16,
        0 <= j < 16,
        32 + 16 * r + i < d.y.len(),
        32 + 16 * c + j < d.y[32 + 16 * r + i].len(),
    ensures
        ({
            let v = vector_at(mi, i, j);
            let mv = if mi.mbmi.need_to_clamp_mvs {
                clamped_mv(v, e)
            } else {
                v
            };
            let (y, x) = (32 + 16 * r + i, 32 + 16 * c + j);
            inter_mb(kind, full, mi, e, s, d, r, c).y[y][x] == moved_pixel(kind, s.y, y, x, mv)
        }),
{
    reveal(inter_mb);
    let (r0, c0) = (luma_at(r), luma_at(c));
    if mi.mbmi.mode == MbPredictionMode::SplitMv {
        lemma_quarters(kind, mi, e, s.y, d.y, r0, c0, 4, i, j);
        lemma_subblock_pixels(kind, mi, e, s.y, d.y, r0, c0, 16, i, j);
    } else {
        let mv = if mi.mbmi.need_to_clamp_mvs {
            clamped_mv(mi.mbmi.mv, e)
        } else {
            mi.mbmi.mv
        };
        law_block_pixels(kind, s.y, d.y, r0, c0, 16, 16, mv, r0 + i, c0 + j);
    }
}

/// Every chroma pixel of a macroblock with several vectors comes from as far away as the mean
/// vector of the four luma subblocks that its own subblock covers says, in both chroma planes
/// alike.
pub proof fn law_inter_chroma_split(
    kind: SubpixFn,
    full: bool,
    mi: ModeInfo,
    e: MbEdges,
    s: Yuv,
    d: Yuv,
    r: int,
    c: int,
    i: int,
    j: int,
)
    requires
        mi.mbmi.mode == MbPredictionMode::SplitMv,
        0 <= r,
        0 <= c,
        0 <= i < 8,
        0 <= j < 8,
        16 + 8 * r + i < d.u.len(),
        16 + 8 * c + j < d.u[16 + 8 * r + i].len(),
        16 + 8 * r + i < d.v.len(),
        16 + 8 * c + j < d.v[16 + 8 * r + i].len(),
    ensures
        ({
            let mv = chroma_mv(mi, e, full, 2 * (i / 4) + j / 4);
            let (y, x) = (16 + 8 * r + i, 16 + 8 * c + j);
            let p = inter_mb(kind, full, mi, e, s, d, r, c);
            &&& p.u[y][x] == moved_pixel(kind, s.u, y, x, mv)
            &&& p.v[y][x] == moved_pixel(kind, s.v, y, x, mv)
        }),
{
    reveal(inter_mb);
    let (r0, c0) = (chroma_at(r), chroma_at(c));
    lemma_chroma_pixels(kind, full, mi, e, s.u, d.u, r0, c0, 4, i, j);
    lemma_chroma_pixels(kind, full, mi, e, s.v, d.v, r0, c0, 4, i, j);
}

/// Every chroma pixel of a macroblock with one vector comes from half as far away as that says, in
/// both chroma planes alike.
pub proof fn law_inter_chroma(
    kind: SubpixFn,
    full: bool,
    mi: ModeInfo,
    e: MbEdges,
    s: Yuv,
    d: Yuv,
    r: int,
    c: int,
    i: int,
    j: int,
)
    requires
        mi.mbmi.mode != MbPredictionMode::SplitMv,
        0 <= r,
        0 <= c,
        0 <= i < 8,
        0 <= j < 8,
        16 + 8 * r + i < d.u.len(),
        16 + 8 * c + j < d.u[16 + 8 * r + i].len(),
        16 + 8 * r + i < d.v.len(),
        16 + 8 * c + j < d.v[16 + 8 * r + i].len(),
        uv_reaches(
            uvmv16(
                if mi.mbmi.need_to_clamp_mvs {
                    clamped_mv(mi.mbmi.mv, e)
                } else {
                    mi.mbmi.mv
                },
                full,
            ),
            e,
        ),
    ensures
        ({
            let mv = uvmv16(
                if mi.mbmi.need_to_clamp_mvs {
                    clamped_mv(mi.mbmi.mv, e)
                } else {
                    mi.mbmi.mv
                },
                full,
            );
            let (y, x) = (16 + 8 * r + i, 16 + 8 * c + j);
            let p = inter_mb(kind, full, mi, e, s, d, r, c);
            &&& p.u[y][x] == moved_pixel(kind, s.u, y, x, mv)
            &&& p.v[y][x] == moved_pixel(kind, s.v, y, x, mv)
        }),
{
    reveal(inter_mb);
    let (r0, c0) = (chroma_at(r), chroma_at(c));
    let mv = uvmv16(
        if mi.mbmi.need_to_clamp_mvs {
            clamped_mv(mi.mbmi.mv, e)
        } else {
            mi.mbmi.mv
        },
        full,
    );
    law_block_pixels(kind, s.u, d.u, r0, c0, 8, 8, mv, r0 + i, c0 + j);
    law_block_pixels(kind, s.v, d.v, r0, c0, 8, 8, mv, r0 + i, c0 + j);
}

/// Half a vector is rounded away from zero, the same way in both directions: a chroma vector is
/// half the luma vector where that is even, and half of the next number further from zero where it
/// is odd. Where whole pixels are asked for it is the multiple of eight at or below.
pub proof fn law_chroma_vector(mv: Mv)
    ensures
        ({
            let m = uvmv16(mv, false);
            let f = uvmv16(mv, true);
            let (x, y) = (mv.col as int, mv.row as int);
            &&& x % 2 == 0 ==> 2 * m.col == x
            &&& x % 2 == 1 && x > 0 ==> 2 * m.col == x + 1
            &&& x % 2 == 1 && x < 0 ==> 2 * m.col == x - 1
            &&& y % 2 == 0 ==> 2 * m.row == y
            &&& y % 2 == 1 && y > 0 ==> 2 * m.row == y + 1
            &&& y % 2 == 1 && y < 0 ==> 2 * m.row == y - 1
            &&& f.col as int % 8 == 0 && f.col <= m.col < f.col + 8
            &&& f.row as int % 8 == 0 && f.row <= m.row < f.row + 8
        }),
{
}

/// Four luma subblocks with the same vector have the chroma vector of a macroblock with that
/// vector, and vectors that point the other way a chroma vector that points the other way.
pub proof fn law_chroma_mean(mi: ModeInfo, ni: ModeInfo, k: int, full: bool, mv: Mv)
    requires
        0 <= k < 4,
    ensures
        ({
            let b = 8 * (k / 2) + 2 * (k % 2);
            &&& bmi_mv(mi.bmi[b]) == mv && bmi_mv(mi.bmi[b + 1]) == mv && bmi_mv(mi.bmi[b + 4])
                == mv && bmi_mv(mi.bmi[b + 5]) == mv ==> chroma_mean(mi, k, full) == uvmv16(
                mv,
                full,
            )
            &&& (forall|i: int|
                0 <= i < 16 ==> (#[trigger] bmi_mv(ni.bmi[i])).row == -bmi_mv(mi.bmi[i]).row
                    && bmi_mv(ni.bmi[i]).col == -bmi_mv(mi.bmi[i]).col) ==> {
                &&& chroma_mean(ni, k, false).row == -chroma_mean(mi, k, false).row
                &&& chroma_mean(ni, k, false).col == -chroma_mean(mi, k, false).col
            }
        }),
{
    let b = 8 * (k / 2) + 2 * (k % 2);
    if forall|i: int|
        0 <= i < 16 ==> (#[trigger] bmi_mv(ni.bmi[i])).row == -bmi_mv(mi.bmi[i]).row && bmi_mv(
            ni.bmi[i],
        ).col == -bmi_mv(mi.bmi[i]).col {
        assert(bmi_mv(ni.bmi[b]).row == -bmi_mv(mi.bmi[b]).row);
        assert(bmi_mv(ni.bmi[b + 1]).row == -bmi_mv(mi.bmi[b + 1]).row);
        assert(bmi_mv(ni.bmi[b + 4]).row == -bmi_mv(mi.bmi[b + 4]).row);
        assert(bmi_mv(ni.bmi[b + 5]).row == -bmi_mv(mi.bmi[b + 5]).row);
    }
}

/// A limited vector stays as it is where it leads at most 19 pixels before the frame and 18 behind
/// it, and else leads exactly sixteen pixels outside on the same side.
pub proof fn law_limited_vector(mv: Mv, e: MbEdges)
    requires
        edges_ok(e),
    ensures
        ({
            let m = clamped_mv(mv, e);
            &&& mv.col < e.left - 19 * 8 ==> m.col == e.left - 16 * 8
            &&& mv.col > e.right + 18 * 8 ==> m.col == e.right + 16 * 8
            &&& e.left - 19 * 8 <= mv.col <= e.right + 18 * 8 ==> m.col == mv.col
            &&& mv.row < e.top - 19 * 8 ==> m.row == e.top - 16 * 8
            &&& mv.row > e.bottom + 18 * 8 ==> m.row == e.bottom + 16 * 8
            &&& e.top - 19 * 8 <= mv.row <= e.bottom + 18 * 8 ==> m.row == mv.row
            &&& clamped_mv(m, e) == m
        }),
{
}

} // verus!
