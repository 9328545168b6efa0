//! Which lines of a frame the steps of its reconstruction change.

use crate::arith::clamp_int;
use crate::extend::{
    extend_bottom, extend_down, extend_left_right, extend_row_end, extend_top, extend_up,
    law_border_repeats_edge, law_sides_repeat, sides_repeat,
};
use crate::grid::{blit, is_rect, Pic};
use crate::idct_blk::{add_block, add_blocks, Residual};
use crate::intramode::intra_b;
use crate::loopfilter_filters::{
    bh, bhs, bv, bvs, mb_h, mb_v, mbh, mbv, normal_h, normal_v, simple_h, simple_v,
    LoopFilterInfo,
};
use crate::macroblock::{
    eobs_of, luma_residual, mb_decode, mb_intra, mb_predict, mb_residual, mb_steps, mb_tokens,
    ref_pic, second_order, subblocks, MbEnv, MbState, RefPics,
};
use crate::mbrows::{
    after_row, after_rows, all_rows, filter_row, frame_rows, one_mb, one_row, row_mbs, FrameEnv,
    RowState,
};
use crate::reconinter::{
    chroma_at, chroma_mv, clamped_mv, inter_block, inter_mb, luma_at, luma_mv, split_chroma,
    split_quarters, split_subblocks, uvmv16,
};
use crate::reconintra4x4::{copy_right, down_copy, intra4};
use crate::setupintrarecon::{left_lines, top_lines};
use crate::types::{
    edges_at, no_context, BModeInfo, FrameType, LoopFilterInfoN, LoopFilterType, Macroblockd,
    MbEdges, MbPredictionMode, ModeInfo, Mv, MvReferenceFrame, SubpixFn, Yuv,
};
use crate::vp8_loopfilter::{
    lf_mb, lf_mb_simple, lf_row, lf_row_simple, limits_at, mb_level, ref_number, skips_inner,
    ModeGrid,
};
use vstd::prelude::*;

verus! {

/// `q` is `p` with no line changed but those from `lo` to before `hi`.
pub open spec fn lines_kept(p: Pic, q: Pic, lo: int, hi: int) -> bool {
    &&& q.len() == p.len()
    &&& forall|i: int| 0 <= i < p.len() ==> (#[trigger] q[i]).len() == p[i].len()
    &&& forall|i: int| 0 <= i < p.len() && !(lo <= i < hi) ==> #[trigger] q[i] == p[i]
}

/// `e` is `d` with no line changed but those of macroblock row `r`, and the last `above` lines
/// before them.
pub open spec fn row_kept(d: Yuv, e: Yuv, r: int, above: int) -> bool {
    &&& lines_kept(d.y, e.y, luma_at(r) - above, luma_at(r) + 16)
    &&& lines_kept(d.u, e.u, chroma_at(r) - above, chroma_at(r) + 8)
    &&& lines_kept(d.v, e.v, chroma_at(r) - above, chroma_at(r) + 8)
}

/// The planes hold `rows x cols` macroblocks and the border; their lines have `ys` and `cs` pixels.
pub open spec fn planes_hold(d: Yuv, rows: int, cols: int, ys: int, cs: int) -> bool {
    &&& is_rect(d.y, 16 * rows + 64, ys)
    &&& is_rect(d.u, 8 * rows + 32, cs)
    &&& is_rect(d.v, 8 * rows + 32, cs)
    &&& 16 * cols + 64 <= ys
    &&& 8 * cols + 32 <= cs
}

/// Two changes to the same lines make one.
proof fn lemma_chain(p: Pic, q: Pic, s: Pic, lo: int, hi: int)
    requires
        lines_kept(p, q, lo, hi),
        lines_kept(q, s, lo, hi),
    ensures
        lines_kept(p, s, lo, hi),
{
    assert forall|i: int| 0 <= i < p.len() implies (#[trigger] s[i]).len() == p[i].len() by {
        assert(q[i].len() == p[i].len());
    }
    assert forall|i: int| 0 <= i < p.len() && !(lo <= i < hi) implies #[trigger] s[i] == p[i] by {
        assert(q[i] == p[i]);
    }
}

/// Writing a rectangle changes its lines only.
proof fn lemma_blit(p: Pic, r0: int, c0: int, h: int, w: int, lo: int, hi: int)
    requires
        lo <= r0,
        r0 + h <= hi,
    ensures
        forall|f: spec_fn(int, int) -> u8|
            lines_kept(p, #[trigger] blit(p, r0, c0, h, w, f), lo, hi),
{
}

proof fn lemma_add_block(
    s: Residual,
    dq: [i16; 16],
    blk: int,
    eob: int,
    r0: int,
    c0: int,
    lo: int,
    hi: int,
)
    requires
        lo <= r0,
        r0 + 4 <= hi,
    ensures
        lines_kept(s.p, add_block(s, dq, blk, eob, r0, c0).p, lo, hi),
{
    lemma_blit(s.p, r0, c0, 4, 4, lo, hi);
}

proof fn lemma_add_blocks(
    s: Residual,
    dq: [i16; 16],
    eobs: [i8; 25],
    first: int,
    across: int,
    n: int,
    r0: int,
    c0: int,
)
    requires
        (across == 4 && n <= 16) || (across == 2 && n <= 4),
    ensures
        lines_kept(
            s.p,
            add_blocks(s, dq, eobs, first, across, n, r0, c0).p,
            r0,
            r0 + 4 * across,
        ),
    decreases n,
{
    if n > 0 {
        let k = n - 1;
        let u = add_blocks(s, dq, eobs, first, across, k, r0, c0);
        lemma_add_blocks(s, dq, eobs, first, across, k, r0, c0);
        assert(0 <= k / across < across);
        lemma_add_block(
            u,
            dq,
            first + k,
            eobs[first + k] as int,
            r0 + 4 * (k / across),
            c0 + 4 * (k % across),
            r0,
            r0 + 4 * across,
        );
        lemma_chain(
            s.p,
            u.p,
            add_blocks(s, dq, eobs, first, across, n, r0, c0).p,
            r0,
            r0 + 4 * across,
        );
    }
}

proof fn lemma_copy_right(p: Pic, r0: int, c0: int, r: int, n: int)
    requires
        0 <= r < p.len(),
        0 <= c0,
        n <= 4,
        c0 + 20 <= p[r].len(),
    ensures
        lines_kept(p, copy_right(p, r0, c0, r, n), r, r + 1),
    decreases n,
{
    if n > 0 {
        let q = copy_right(p, r0, c0, r, n - 1);
        lemma_copy_right(p, r0, c0, r, n - 1);
        assert(q[r].len() == p[r].len());
        lemma_chain(p, q, copy_right(p, r0, c0, r, n), r, r + 1);
    }
}

proof fn lemma_down_copy(p: Pic, r0: int, c0: int)
    requires
        0 <= r0,
        0 <= c0,
        r0 + 16 <= p.len(),
        forall|i: int| 0 <= i < p.len() ==> c0 + 20 <= (#[trigger] p[i]).len(),
    ensures
        lines_kept(p, down_copy(p, r0, c0), r0, r0 + 16),
{
    let p1 = copy_right(p, r0, c0, r0 + 3, 4);
    let p2 = copy_right(p1, r0, c0, r0 + 7, 4);
    lemma_copy_right(p, r0, c0, r0 + 3, 4);
    assert(p1[r0 + 7].len() == p[r0 + 7].len());
    lemma_copy_right(p1, r0, c0, r0 + 7, 4);
    assert(p2[r0 + 11].len() == p1[r0 + 11].len() == p[r0 + 11].len());
    lemma_copy_right(p2, r0, c0, r0 + 11, 4);
    lemma_chain(p, p1, p2, r0, r0 + 16);
    lemma_chain(p, p2, down_copy(p, r0, c0), r0, r0 + 16);
}

proof fn lemma_subblocks(
    s: Residual,
    dq: [i16; 16],
    eobs: [i8; 25],
    bmi: [BModeInfo; 16],
    r0: int,
    c0: int,
    n: int,
)
    requires
        n <= 16,
    ensures
        lines_kept(s.p, subblocks(s, dq, eobs, bmi, r0, c0, n).p, r0, r0 + 16),
    decreases n,
{
    if n > 0 {
        let k = n - 1;
        let u = subblocks(s, dq, eobs, bmi, r0, c0, k);
        lemma_subblocks(s, dq, eobs, bmi, r0, c0, k);
        let r = r0 + 4 * (k / 4);
        let c = c0 + 4 * (k % 4);
        let v = Residual {
            p: intra4(u.p, r, c, intra_b(bmi[k])),
            ..u
        };
        lemma_blit(u.p, r, c, 4, 4, r0, r0 + 16);
        lemma_chain(s.p, u.p, v.p, r0, r0 + 16);
        if eobs[k] != 0 {
            lemma_add_block(v, dq, k, eobs[k] as int, r, c, r0, r0 + 16);
            lemma_chain(s.p, v.p, subblocks(s, dq, eobs, bmi, r0, c0, n).p, r0, r0 + 16);
        }
    }
}

/// A change to the lines of a row keeps the sizes of the planes.
proof fn lemma_sizes(d: Yuv, e: Yuv, r: int, above: int, rows: int, cols: int, ys: int, cs: int)
    requires
        planes_hold(d, rows, cols, ys, cs),
        row_kept(d, e, r, above),
    ensures
        planes_hold(e, rows, cols, ys, cs),
{
}

/// Two changes to the lines of the same row make one.
proof fn lemma_row_chain(d: Yuv, e: Yuv, f: Yuv, r: int, above: int)
    requires
        row_kept(d, e, r, above),
        row_kept(e, f, r, above),
    ensures
        row_kept(d, f, r, above),
{
    let (y, c) = (luma_at(r), chroma_at(r));
    lemma_chain(d.y, e.y, f.y, y - above, y + 16);
    lemma_chain(d.u, e.u, f.u, c - above, c + 8);
    lemma_chain(d.v, e.v, f.v, c - above, c + 8);
}

proof fn lemma_intra(
    mb: Macroblockd,
    mi: ModeInfo,
    d: Yuv,
    r: int,
    c: int,
    rows: int,
    cols: int,
    ys: int,
    cs: int,
)
    requires
        planes_hold(d, rows, cols, ys, cs),
        0 <= r < rows,
        0 <= c < cols,
    ensures
        row_kept(d, mb_intra(mb, mi, d, r, c).1, r, 0),
{
    reveal(mb_intra);
    let (yr, yc, cr, cc) = (luma_at(r), luma_at(c), chroma_at(r), chroma_at(c));
    lemma_blit(d.u, cr, cc, 8, 8, cr, cr + 8);
    lemma_blit(d.v, cr, cc, 8, 8, cr, cr + 8);
    if mi.mbmi.mode != MbPredictionMode::BPred {
        lemma_blit(d.y, yr, yc, 16, 16, yr, yr + 16);
    } else {
        let eobs = eobs_of(mb, mi.mbmi.mb_skip_coeff);
        let s = Residual { p: down_copy(d.y, yr, yc), q: mb.qcoeff };
        lemma_down_copy(d.y, yr, yc);
        lemma_subblocks(s, mb.dequant_y1, eobs, mi.bmi, yr, yc, 16);
        lemma_chain(
            d.y,
            s.p,
            subblocks(s, mb.dequant_y1, eobs, mi.bmi, yr, yc, 16).p,
            yr,
            yr + 16,
        );
    }
}

proof fn lemma_inter_block(
    kind: SubpixFn,
    src: Pic,
    dst: Pic,
    r0: int,
    c0: int,
    h: int,
    w: int,
    mv: Mv,
    lo: int,
    hi: int,
)
    requires
        lo <= r0,
        r0 + h <= hi,
    ensures
        lines_kept(dst, inter_block(kind, src, dst, r0, c0, h, w, mv), lo, hi),
{
    reveal(inter_block);
    lemma_blit(dst, r0, c0, h, w, lo, hi);
}

proof fn lemma_split_quarters(
    kind: SubpixFn,
    mi: ModeInfo,
    e: MbEdges,
    s: Pic,
    d: Pic,
    r0: int,
    c0: int,
    n: int,
)
    requires
        n <= 4,
    ensures
        lines_kept(d, split_quarters(kind, mi, e, s, d, r0, c0, n), r0, r0 + 16),
    decreases n,
{
    if n > 0 {
        let k = n - 1;
        let u = split_quarters(kind, mi, e, s, d, r0, c0, k);
        lemma_split_quarters(kind, mi, e, s, d, r0, c0, k);
        lemma_inter_block(
            kind,
            s,
            u,
            r0 + 8 * (k / 2),
            c0 + 8 * (k % 2),
            8,
            8,
            luma_mv(mi, e, 8 * (k / 2) + 2 * (k % 2)),
            r0,
            r0 + 16,
        );
        lemma_chain(d, u, split_quarters(kind, mi, e, s, d, r0, c0, n), r0, r0 + 16);
    }
}

proof fn lemma_split_subblocks(
    kind: SubpixFn,
    mi: ModeInfo,
    e: MbEdges,
    s: Pic,
    d: Pic,
    r0: int,
    c0: int,
    n: int,
)
    requires
        n <= 16,
    ensures
        lines_kept(d, split_subblocks(kind, mi, e, s, d, r0, c0, n), r0, r0 + 16),
    decreases n,
{
    if n > 0 {
        let k = n - 1;
        let u = split_subblocks(kind, mi, e, s, d, r0, c0, k);
        lemma_split_subblocks(kind, mi, e, s, d, r0, c0, k);
        lemma_inter_block(
            kind,
            s,
            u,
            r0 + 4 * (k / 4),
            c0 + 4 * (k % 4),
            4,
            4,
            luma_mv(mi, e, k),
            r0,
            r0 + 16,
        );
        lemma_chain(d, u, split_subblocks(kind, mi, e, s, d, r0, c0, n), r0, r0 + 16);
    }
}

proof fn lemma_split_chroma(
    kind: SubpixFn,
    full: bool,
    mi: ModeInfo,
    e: MbEdges,
    s: Pic,
    d: Pic,
    r0: int,
    c0: int,
    n: int,
)
    requires
        n <= 4,
    ensures
        lines_kept(d, split_chroma(kind, full, mi, e, s, d, r0, c0, n), r0, r0 + 8),
    decreases n,
{
    if n > 0 {
        let k = n - 1;
        let u = split_chroma(kind, full, mi, e, s, d, r0, c0, k);
        lemma_split_chroma(kind, full, mi, e, s, d, r0, c0, k);
        lemma_inter_block(
            kind,
            s,
            u,
            r0 + 4 * (k / 2),
            c0 + 4 * (k % 2),
            4,
            4,
            chroma_mv(mi, e, full, k),
            r0,
            r0 + 8,
        );
        lemma_chain(d, u, split_chroma(kind, full, mi, e, s, d, r0, c0, n), r0, r0 + 8);
    }
}

proof fn lemma_inter(
    kind: SubpixFn,
    full: bool,
    mi: ModeInfo,
    e: MbEdges,
    s: Yuv,
    d: Yuv,
    r: int,
    c: int,
)
    ensures
        row_kept(d, inter_mb(kind, full, mi, e, s, d, r, c), r, 0),
{
    reveal(inter_mb);
    let (yr, yc, cr, cc) = (luma_at(r), luma_at(c), chroma_at(r), chroma_at(c));
    if mi.mbmi.mode == MbPredictionMode::SplitMv {
        lemma_split_quarters(kind, mi, e, s.y, d.y, yr, yc, 4);
        lemma_split_subblocks(kind, mi, e, s.y, d.y, yr, yc, 16);
        lemma_split_chroma(kind, full, mi, e, s.u, d.u, cr, cc, 4);
        lemma_split_chroma(kind, full, mi, e, s.v, d.v, cr, cc, 4);
    } else {
        let mv = if mi.mbmi.need_to_clamp_mvs {
            clamped_mv(mi.mbmi.mv, e)
        } else {
            mi.mbmi.mv
        };
        let uv = uvmv16(mv, full);
        lemma_inter_block(kind, s.y, d.y, yr, yc, 16, 16, mv, yr, yr + 16);
        lemma_inter_block(kind, s.u, d.u, cr, cc, 8, 8, uv, cr, cr + 8);
        lemma_inter_block(kind, s.v, d.v, cr, cc, 8, 8, uv, cr, cr + 8);
    }
}

proof fn lemma_residual(mb: Macroblockd, mi: ModeInfo, d: Yuv, r: int, c: int)
    ensures
        row_kept(d, mb_residual(mb, mi, d, r, c).1, r, 0),
{
    reveal(mb_residual);
    let (yr, yc, cr, cc) = (luma_at(r), luma_at(c), chroma_at(r), chroma_at(c));
    if !mi.mbmi.mb_skip_coeff {
        let y = if mi.mbmi.mode != MbPredictionMode::BPred {
            luma_residual(mb, mi.mbmi.mode, d, r, c)
        } else {
            Residual { p: d.y, q: mb.qcoeff }
        };
        lemma_add_blocks(
            Residual { p: d.y, q: second_order(mb) },
            mb.dequant_y1_dc,
            mb.eobs,
            0,
            4,
            16,
            yr,
            yc,
        );
        lemma_add_blocks(
            Residual { p: d.y, q: mb.qcoeff },
            mb.dequant_y1,
            mb.eobs,
            0,
            4,
            16,
            yr,
            yc,
        );
        let us = Residual { p: d.u, q: y.q };
        let u = add_blocks(us, mb.dequant_uv, mb.eobs, 16, 2, 4, cr, cc);
        lemma_add_blocks(us, mb.dequant_uv, mb.eobs, 16, 2, 4, cr, cc);
        lemma_add_blocks(
            Residual { p: d.v, q: u.q },
            mb.dequant_uv,
            mb.eobs,
            20,
            2,
            4,
            cr,
            cc,
        );
    }
}

/// Decoding a macroblock changes no lines but those of its own row.
pub proof fn law_macroblock_lines(
    s: MbState,
    env: MbEnv,
    refs: RefPics,
    r: int,
    c: int,
    rows: int,
    cols: int,
    ys: int,
    cs: int,
)
    requires
        planes_hold(s.d, rows, cols, ys, cs),
        0 <= r < rows,
        0 <= c < cols,
    ensures
        row_kept(s.d, mb_decode(s, env, refs, r, c, rows, cols).d, r, 0),
{
    reveal(mb_decode);
    reveal(mb_tokens);
    let s1 = mb_tokens(s, env.fc);
    let mb2 = mb_steps(s1.mb, s1.mi, env);
    let (mb3, d3) = mb_predict(mb2, s1.mi, s1.d, refs, r, c, rows, cols);
    if s1.mi.mbmi.ref_frame == MvReferenceFrame::Intra {
        lemma_intra(mb2, s1.mi, s1.d, r, c, rows, cols, ys, cs);
    } else {
        lemma_inter(
            mb2.subpixel_predict,
            mb2.fullpixel_mask == -8,
            s1.mi,
            edges_at(r, c, rows, cols),
            ref_pic(refs, s1.mi.mbmi.ref_frame),
            s1.d,
            r,
            c,
        );
    }
    lemma_residual(mb3, s1.mi, d3, r, c);
    lemma_row_chain(s.d, d3, mb_residual(mb3, s1.mi, d3, r, c).1, r, 0);
}

proof fn lemma_mbv(d: Yuv, r: int, c: int, l: LoopFilterInfo)
    ensures
        row_kept(d, mbv(d, luma_at(r), luma_at(c), chroma_at(r), chroma_at(c), l), r, 3),
{
    reveal(mb_v);
    let (yr, yc, cr, cc) = (luma_at(r), luma_at(c), chroma_at(r), chroma_at(c));
    lemma_blit(d.y, yr, yc - 3, 16, 6, yr - 3, yr + 16);
    lemma_blit(d.u, cr, cc - 3, 8, 6, cr - 3, cr + 8);
    lemma_blit(d.v, cr, cc - 3, 8, 6, cr - 3, cr + 8);
}

proof fn lemma_mbh(d: Yuv, r: int, c: int, l: LoopFilterInfo)
    ensures
        row_kept(d, mbh(d, luma_at(r), luma_at(c), chroma_at(r), chroma_at(c), l), r, 3),
{
    reveal(mb_h);
    let (yr, yc, cr, cc) = (luma_at(r), luma_at(c), chroma_at(r), chroma_at(c));
    lemma_blit(d.y, yr - 3, yc, 6, 16, yr - 3, yr + 16);
    lemma_blit(d.u, cr - 3, cc, 6, 8, cr - 3, cr + 8);
    lemma_blit(d.v, cr - 3, cc, 6, 8, cr - 3, cr + 8);
}

proof fn lemma_bv(d: Yuv, r: int, c: int, l: LoopFilterInfo)
    ensures
        row_kept(d, bv(d, luma_at(r), luma_at(c), chroma_at(r), chroma_at(c), l), r, 3),
{
    reveal(normal_v);
    let (yr, yc, cr, cc) = (luma_at(r), luma_at(c), chroma_at(r), chroma_at(c));
    let y1 = normal_v(d.y, yr, yc + 4, l.blim, l.lim, l.hev_thr, 16);
    let y2 = normal_v(y1, yr, yc + 8, l.blim, l.lim, l.hev_thr, 16);
    let y3 = normal_v(y2, yr, yc + 12, l.blim, l.lim, l.hev_thr, 16);
    lemma_blit(d.y, yr, yc + 4 - 2, 16, 4, yr - 3, yr + 16);
    lemma_blit(y1, yr, yc + 8 - 2, 16, 4, yr - 3, yr + 16);
    lemma_blit(y2, yr, yc + 12 - 2, 16, 4, yr - 3, yr + 16);
    lemma_chain(d.y, y1, y2, yr - 3, yr + 16);
    lemma_chain(d.y, y2, y3, yr - 3, yr + 16);
    lemma_blit(d.u, cr, cc + 4 - 2, 8, 4, cr - 3, cr + 8);
    lemma_blit(d.v, cr, cc + 4 - 2, 8, 4, cr - 3, cr + 8);
}

proof fn lemma_bh(d: Yuv, r: int, c: int, l: LoopFilterInfo)
    ensures
        row_kept(d, bh(d, luma_at(r), luma_at(c), chroma_at(r), chroma_at(c), l), r, 3),
{
    reveal(normal_h);
    let (yr, yc, cr, cc) = (luma_at(r), luma_at(c), chroma_at(r), chroma_at(c));
    let y1 = normal_h(d.y, yr + 4, yc, l.blim, l.lim, l.hev_thr, 16);
    let y2 = normal_h(y1, yr + 8, yc, l.blim, l.lim, l.hev_thr, 16);
    let y3 = normal_h(y2, yr + 12, yc, l.blim, l.lim, l.hev_thr, 16);
    lemma_blit(d.y, yr + 4 - 2, yc, 4, 16, yr - 3, yr + 16);
    lemma_blit(y1, yr + 8 - 2, yc, 4, 16, yr - 3, yr + 16);
    lemma_blit(y2, yr + 12 - 2, yc, 4, 16, yr - 3, yr + 16);
    lemma_chain(d.y, y1, y2, yr - 3, yr + 16);
    lemma_chain(d.y, y2, y3, yr - 3, yr + 16);
    lemma_blit(d.u, cr + 4 - 2, cc, 4, 8, cr - 3, cr + 8);
    lemma_blit(d.v, cr + 4 - 2, cc, 4, 8, cr - 3, cr + 8);
}

proof fn lemma_same(d: Yuv, r: int, above: int)
    ensures
        row_kept(d, d, r, above),
{
}

proof fn lemma_lf_mb(l: LoopFilterInfoN, ft: FrameType, mi: ModeInfo, d: Yuv, r: int, c: int)
    ensures
        row_kept(d, lf_mb(l, ft, mi, d, r, c), r, 3),
{
    let level = mb_level(l, mi);
    lemma_same(d, r, 3);
    if level != 0 {
        let (yr, yc, cr, cc) = (luma_at(r), luma_at(c), chroma_at(r), chroma_at(c));
        let lim = limits_at(l, ft, level);
        let d1 = if c > 0 {
            mbv(d, yr, yc, cr, cc, lim)
        } else {
            d
        };
        let d2 = if !skips_inner(mi) {
            bv(d1, yr, yc, cr, cc, lim)
        } else {
            d1
        };
        let d3 = if r > 0 {
            mbh(d2, yr, yc, cr, cc, lim)
        } else {
            d2
        };
        let d4 = if !skips_inner(mi) {
            bh(d3, yr, yc, cr, cc, lim)
        } else {
            d3
        };
        lemma_mbv(d, r, c, lim);
        lemma_bv(d1, r, c, lim);
        lemma_same(d1, r, 3);
        lemma_row_chain(d, d1, d2, r, 3);
        lemma_mbh(d2, r, c, lim);
        lemma_same(d2, r, 3);
        lemma_row_chain(d, d2, d3, r, 3);
        lemma_bh(d3, r, c, lim);
        lemma_same(d3, r, 3);
        lemma_row_chain(d, d3, d4, r, 3);
    }
}

proof fn lemma_simple_v(p: Pic, r0: int, c: int, blimit: u8)
    ensures
        lines_kept(p, simple_v(p, r0, c, blimit, 16), r0 - 3, r0 + 16),
{
    reveal(simple_v);
    lemma_blit(p, r0, c - 1, 16, 2, r0 - 3, r0 + 16);
}

proof fn lemma_simple_h(p: Pic, r: int, c0: int, blimit: u8, lo: int, hi: int)
    requires
        lo <= r - 1,
        r + 1 <= hi,
    ensures
        lines_kept(p, simple_h(p, r, c0, blimit, 16), lo, hi),
{
    reveal(simple_h);
    lemma_blit(p, r - 1, c0, 2, 16, lo, hi);
}

proof fn lemma_bvs(p: Pic, r: int, c: int, blimit: u8)
    ensures
        lines_kept(p, bvs(p, r, c, blimit), r - 3, r + 16),
{
    let p1 = simple_v(p, r, c + 4, blimit, 16);
    let p2 = simple_v(p1, r, c + 8, blimit, 16);
    lemma_simple_v(p, r, c + 4, blimit);
    lemma_simple_v(p1, r, c + 8, blimit);
    lemma_simple_v(p2, r, c + 12, blimit);
    lemma_chain(p, p1, p2, r - 3, r + 16);
    lemma_chain(p, p2, bvs(p, r, c, blimit), r - 3, r + 16);
}

proof fn lemma_bhs(p: Pic, r: int, c: int, blimit: u8)
    ensures
        lines_kept(p, bhs(p, r, c, blimit), r - 3, r + 16),
{
    let p1 = simple_h(p, r + 4, c, blimit, 16);
    let p2 = simple_h(p1, r + 8, c, blimit, 16);
    lemma_simple_h(p, r + 4, c, blimit, r - 3, r + 16);
    lemma_simple_h(p1, r + 8, c, blimit, r - 3, r + 16);
    lemma_simple_h(p2, r + 12, c, blimit, r - 3, r + 16);
    lemma_chain(p, p1, p2, r - 3, r + 16);
    lemma_chain(p, p2, bhs(p, r, c, blimit), r - 3, r + 16);
}

proof fn lemma_lf_mb_simple(l: LoopFilterInfoN, mi: ModeInfo, y: Pic, r: int, c: int)
    ensures
        lines_kept(y, lf_mb_simple(l, mi, y, r, c), luma_at(r) - 3, luma_at(r) + 16),
{
    let level = mb_level(l, mi);
    if level != 0 {
        let (yr, yc) = (luma_at(r), luma_at(c));
        let y1 = if c > 0 {
            simple_v(y, yr, yc, l.mblim[level], 16)
        } else {
            y
        };
        let y2 = if !skips_inner(mi) {
            bvs(y1, yr, yc, l.blim[level])
        } else {
            y1
        };
        let y3 = if r > 0 {
            simple_h(y2, yr, yc, l.mblim[level], 16)
        } else {
            y2
        };
        let y4 = if !skips_inner(mi) {
            bhs(y3, yr, yc, l.blim[level])
        } else {
            y3
        };
        lemma_simple_v(y, yr, yc, l.mblim[level]);
        lemma_bvs(y1, yr, yc, l.blim[level]);
        lemma_chain(y, y1, y2, yr - 3, yr + 16);
        lemma_simple_h(y2, yr, yc, l.mblim[level], yr - 3, yr + 16);
        lemma_chain(y, y2, y3, yr - 3, yr + 16);
        lemma_bhs(y3, yr, yc, l.blim[level]);
        lemma_chain(y, y3, y4, yr - 3, yr + 16);
    }
}

proof fn lemma_lf_row(l: LoopFilterInfoN, ft: FrameType, g: ModeGrid, d: Yuv, r: int, n: int)
    ensures
        row_kept(d, lf_row(l, ft, g, d, r, n), r, 3),
    decreases n,
{
    if n <= 0 {
        lemma_same(d, r, 3);
    } else {
        let e = lf_row(l, ft, g, d, r, n - 1);
        lemma_lf_row(l, ft, g, d, r, n - 1);
        lemma_lf_mb(l, ft, g[r + 1][n], e, r, n - 1);
        lemma_row_chain(d, e, lf_row(l, ft, g, d, r, n), r, 3);
    }
}

proof fn lemma_lf_row_simple(l: LoopFilterInfoN, g: ModeGrid, y: Pic, r: int, n: int)
    ensures
        lines_kept(y, lf_row_simple(l, g, y, r, n), luma_at(r) - 3, luma_at(r) + 16),
    decreases n,
{
    if n > 0 {
        let e = lf_row_simple(l, g, y, r, n - 1);
        lemma_lf_row_simple(l, g, y, r, n - 1);
        lemma_lf_mb_simple(l, g[r + 1][n], e, r, n - 1);
        lemma_chain(y, e, lf_row_simple(l, g, y, r, n), luma_at(r) - 3, luma_at(r) + 16);
    }
}

/// Filtering a row of macroblocks changes no lines but its own and the last three of the row
/// above it.
pub proof fn law_filter_lines(f: FrameEnv, g: ModeGrid, d: Yuv, r: int)
    ensures
        row_kept(d, filter_row(f, g, d, r), r, 3),
{
    if f.filter == LoopFilterType::Normal {
        lemma_lf_row(f.lf, f.frame_type, g, d, r, f.cols);
    } else {
        lemma_lf_row_simple(f.lf, g, d.y, r, f.cols);
    }
}

proof fn lemma_row_mbs(s: RowState, f: FrameEnv, r: int, n: int, ys: int, cs: int)
    requires
        planes_hold(s.d, f.rows, f.cols, ys, cs),
        0 <= r < f.rows,
        n <= f.cols,
    ensures
        row_kept(s.d, row_mbs(s, f, r, n).d, r, 0),
    decreases n,
{
    lemma_same(s.d, r, 0);
    if n > 0 {
        let u = row_mbs(s, f, r, n - 1);
        lemma_row_mbs(s, f, r, n - 1, ys, cs);
        lemma_sizes(s.d, u.d, r, 0, f.rows, f.cols, ys, cs);
        let mi = u.g[r + 1][n];
        let m = MbState {
            t: u.ts[r % f.parts],
            above: u.above[n - 1],
            left: u.left,
            mb: Macroblockd {
                corrupted: u.mb.corrupted | f.corrupted[ref_number(mi.mbmi.ref_frame)],
                ..u.mb
            },
            mi,
            d: u.d,
        };
        law_macroblock_lines(m, f.env, f.refs, r, n - 1, f.rows, f.cols, ys, cs);
        assert(one_mb(u, f, r, n - 1).d == mb_decode(m, f.env, f.refs, r, n - 1, f.rows, f.cols).d);
        lemma_row_chain(s.d, u.d, row_mbs(s, f, r, n).d, r, 0);
    }
}

/// Decoding a row of macroblocks changes no lines but its own.
pub proof fn law_row_lines(s: RowState, f: FrameEnv, r: int, ys: int, cs: int)
    requires
        planes_hold(s.d, f.rows, f.cols, ys, cs),
        0 <= r < f.rows,
    ensures
        row_kept(s.d, one_row(s, f, r).d, r, 0),
{
    reveal(one_row);
    reveal(left_lines);
    reveal(extend_row_end);
    let (yr, cr) = (luma_at(r), chroma_at(r));
    let d1 = left_lines(s.d, r);
    lemma_blit(s.d.y, yr, 32 - 1, 16, 1, yr, yr + 16);
    lemma_blit(s.d.u, cr, 16 - 1, 8, 1, cr, cr + 8);
    lemma_blit(s.d.v, cr, 16 - 1, 8, 1, cr, cr + 8);
    lemma_sizes(s.d, d1, r, 0, f.rows, f.cols, ys, cs);
    let s1 = RowState { left: no_context(), d: d1, ..s };
    let d2 = row_mbs(s1, f, r, f.cols).d;
    lemma_row_mbs(s1, f, r, f.cols, ys, cs);
    lemma_row_chain(s.d, d1, d2, r, 0);
    lemma_blit(d2.y, yr + 14, luma_at(f.cols), 2, 4, yr, yr + 16);
    lemma_blit(d2.u, cr + 6, chroma_at(f.cols), 2, 4, cr, cr + 8);
    lemma_blit(d2.v, cr + 6, chroma_at(f.cols), 2, 4, cr, cr + 8);
    lemma_row_chain(s.d, d2, extend_row_end(d2, r, f.cols), r, 0);
}

/// The lines of macroblock row `k` repeat their first and last pixels on both sides.
pub open spec fn row_sided(d: Yuv, k: int, cols: int) -> bool {
    &&& sides_repeat(d.y, luma_at(k), 16, 32, 16 * cols)
    &&& sides_repeat(d.u, chroma_at(k), 8, 16, 8 * cols)
    &&& sides_repeat(d.v, chroma_at(k), 8, 16, 8 * cols)
}

/// The first `n` rows of macroblocks do.
pub open spec fn rows_sided(d: Yuv, n: int, cols: int) -> bool {
    forall|k: int| 0 <= k < n ==> #[trigger] row_sided(d, k, cols)
}

proof fn lemma_lines_sided(p: Pic, q: Pic, lo: int, hi: int, r: int, h: int, b: int, w: int)
    requires
        lines_kept(p, q, lo, hi),
        0 <= r,
        r + h <= p.len(),
        r + h <= lo || hi <= r,
        sides_repeat(p, r, h, b, w),
    ensures
        sides_repeat(q, r, h, b, w),
{
    assert forall|i: int, j: int| r <= i < r + h && 0 <= j < 2 * b + w implies #[trigger] q[i][j]
        == q[i][clamp_int(j, b, b + w - 1)] by {
        assert(q[i] == p[i]);
        assert(p[i][j] == p[i][clamp_int(j, b, b + w - 1)]);
    }
}

/// A change to other lines leaves the sides of the rows before as they are.
proof fn lemma_stay_sided(
    d: Yuv,
    e: Yuv,
    r: int,
    above: int,
    n: int,
    rows: int,
    cols: int,
    ys: int,
    cs: int,
)
    requires
        planes_hold(d, rows, cols, ys, cs),
        row_kept(d, e, r, above),
        n <= rows,
        (above == 0 && n <= r) || (above == 3 && n <= r - 1),
        rows_sided(d, n, cols),
    ensures
        rows_sided(e, n, cols),
{
    assert forall|k: int| 0 <= k < n implies #[trigger] row_sided(e, k, cols) by {
        assert(row_sided(d, k, cols));
        let (yr, cr) = (luma_at(r), chroma_at(r));
        lemma_lines_sided(d.y, e.y, yr - above, yr + 16, luma_at(k), 16, 32, 16 * cols);
        lemma_lines_sided(d.u, e.u, cr - above, cr + 8, chroma_at(k), 8, 16, 8 * cols);
        lemma_lines_sided(d.v, e.v, cr - above, cr + 8, chroma_at(k), 8, 16, 8 * cols);
    }
}

/// Extending row `r` to both sides, after the rows before it. The lines below the frame count as
/// a row too, which has no part in the frame.
proof fn lemma_extended(d: Yuv, r: int, rows: int, cols: int, ys: int, cs: int)
    requires
        planes_hold(d, rows, cols, ys, cs),
        1 <= cols,
        0 <= r <= rows,
        1 <= rows,
        rows_sided(d, r, cols),
    ensures
        r < rows ==> rows_sided(extend_left_right(d, r, cols), r + 1, cols),
        r == rows ==> rows_sided(extend_left_right(d, r, cols), r, cols),
        planes_hold(extend_left_right(d, r, cols), rows, cols, ys, cs),
{
    reveal(extend_left_right);
    let e = extend_left_right(d, r, cols);
    let (yr, cr) = (luma_at(r), chroma_at(r));
    law_sides_repeat(d.y, yr, 16, 32, 16 * cols, 16 * rows + 64, ys);
    law_sides_repeat(d.u, cr, 8, 16, 8 * cols, 8 * rows + 32, cs);
    law_sides_repeat(d.v, cr, 8, 16, 8 * cols, 8 * rows + 32, cs);
    assert(row_kept(d, e, r, 0));
    lemma_sizes(d, e, r, 0, rows, cols, ys, cs);
    lemma_stay_sided(d, e, r, 0, r, rows, cols, ys, cs);
}

/// How many of the first `n` rows have their sides once these have been decoded: the extension
/// stays behind the decoding.
spec fn sided_count(f: FrameEnv, n: int) -> int {
    if f.level != 0 {
        n - 2
    } else {
        n - 1
    }
}

proof fn lemma_all_rows(s: RowState, f: FrameEnv, n: int, ys: int, cs: int)
    requires
        planes_hold(s.d, f.rows, f.cols, ys, cs),
        1 <= f.cols,
        n <= f.rows,
    ensures
        planes_hold(all_rows(s, f, n).d, f.rows, f.cols, ys, cs),
        rows_sided(all_rows(s, f, n).d, sided_count(f, n), f.cols),
    decreases n,
{
    if n > 0 {
        let r = n - 1;
        let t = all_rows(s, f, r);
        lemma_all_rows(s, f, r, ys, cs);
        let u = one_row(t, f, r);
        law_row_lines(t, f, r, ys, cs);
        lemma_sizes(t.d, u.d, r, 0, f.rows, f.cols, ys, cs);
        lemma_stay_sided(t.d, u.d, r, 0, sided_count(f, r), f.rows, f.cols, ys, cs);
        reveal(after_row);
        if r > 0 {
            if f.level != 0 {
                let d1 = filter_row(f, u.g, u.d, r - 1);
                law_filter_lines(f, u.g, u.d, r - 1);
                lemma_sizes(u.d, d1, r - 1, 3, f.rows, f.cols, ys, cs);
                lemma_stay_sided(u.d, d1, r - 1, 3, r - 2, f.rows, f.cols, ys, cs);
                if r > 1 {
                    lemma_extended(d1, r - 2, f.rows, f.cols, ys, cs);
                }
            } else {
                lemma_extended(u.d, r - 1, f.rows, f.cols, ys, cs);
            }
        }
    }
}

/// Every pixel of the border, `b` pixels wide, of a frame with `h` lines of `w` pixels is the
/// nearest pixel of the frame.
pub open spec fn border_repeats(p: Pic, b: int, h: int, w: int) -> bool {
    forall|i: int, j: int|
        0 <= i < h + 2 * b && 0 <= j < w + 2 * b ==> #[trigger] p[i][j] == p[clamp_int(
            i,
            b,
            b + h - 1,
        )][clamp_int(j, b, b + w - 1)]
}

/// The borders of all planes of a frame of `rows x cols` macroblocks repeat its edges.
pub open spec fn borders_repeat(d: Yuv, rows: int, cols: int) -> bool {
    &&& border_repeats(d.y, 32, 16 * rows, 16 * cols)
    &&& border_repeats(d.u, 16, 8 * rows, 8 * cols)
    &&& border_repeats(d.v, 16, 8 * rows, 8 * cols)
}

proof fn lemma_border(p: Pic, b: int, h: int, w: int, stride: int)
    requires
        is_rect(p, h + 2 * b, stride),
        1 <= b,
        1 <= h,
        1 <= w,
        2 * b + w <= stride,
        sides_repeat(p, b, h, b, w),
    ensures
        border_repeats(extend_down(extend_up(p, b, stride), b, h, stride), b, h, w),
        is_rect(extend_up(p, b, stride), h + 2 * b, stride),
{
    let q = extend_down(extend_up(p, b, stride), b, h, stride);
    assert forall|i: int, j: int| 0 <= i < h + 2 * b && 0 <= j < w + 2 * b implies #[trigger] q[i][j]
        == q[clamp_int(i, b, b + h - 1)][clamp_int(j, b, b + w - 1)] by {
        law_border_repeats_edge(p, b, h, w, stride, i, j);
        law_border_repeats_edge(
            p,
            b,
            h,
            w,
            stride,
            clamp_int(i, b, b + h - 1),
            clamp_int(j, b, b + w - 1),
        );
    }
}

proof fn lemma_all_sided(d: Yuv, rows: int, cols: int)
    requires
        rows_sided(d, rows, cols),
    ensures
        sides_repeat(d.y, 32, 16 * rows, 32, 16 * cols),
        sides_repeat(d.u, 16, 8 * rows, 16, 8 * cols),
        sides_repeat(d.v, 16, 8 * rows, 16, 8 * cols),
{
    assert forall|i: int, j: int|
        32 <= i < 32 + 16 * rows && 0 <= j < 2 * 32 + 16 * cols implies #[trigger] d.y[i][j]
        == d.y[i][clamp_int(j, 32, 32 + 16 * cols - 1)] by {
        assert(row_sided(d, (i - 32) / 16, cols));
    }
    assert forall|i: int, j: int|
        16 <= i < 16 + 8 * rows && 0 <= j < 2 * 16 + 8 * cols implies #[trigger] d.u[i][j]
        == d.u[i][clamp_int(j, 16, 16 + 8 * cols - 1)] by {
        assert(row_sided(d, (i - 16) / 8, cols));
    }
    assert forall|i: int, j: int|
        16 <= i < 16 + 8 * rows && 0 <= j < 2 * 16 + 8 * cols implies #[trigger] d.v[i][j]
        == d.v[i][clamp_int(j, 16, 16 + 8 * cols - 1)] by {
        assert(row_sided(d, (i - 16) / 8, cols));
    }
}

/// In every frame that has been decoded, the border repeats the edges: each of its pixels is the
/// nearest pixel of the frame, so that vectors may lead out of the frame.
pub proof fn law_decoded_border(s: RowState, f: FrameEnv, ys: int, cs: int)
    requires
        planes_hold(s.d, f.rows, f.cols, ys, cs),
        1 <= f.rows,
        1 <= f.cols,
    ensures
        borders_repeat(frame_rows(s, f).d, f.rows, f.cols),
{
    reveal(frame_rows);
    reveal(top_lines);
    reveal(after_rows);
    reveal(extend_top);
    reveal(extend_bottom);
    let s1 = RowState { d: top_lines(s.d, f.cols), ..s };
    let u = all_rows(s1, f, f.rows);
    lemma_all_rows(s1, f, f.rows, ys, cs);
    let e = if f.level != 0 {
        let d1 = filter_row(f, u.g, u.d, f.rows - 1);
        law_filter_lines(f, u.g, u.d, f.rows - 1);
        lemma_sizes(u.d, d1, f.rows - 1, 3, f.rows, f.cols, ys, cs);
        lemma_stay_sided(u.d, d1, f.rows - 1, 3, f.rows - 2, f.rows, f.cols, ys, cs);
        let k = if f.rows >= 2 {
            f.rows - 2
        } else {
            0
        };
        lemma_extended(d1, k, f.rows, f.cols, ys, cs);
        let d2 = extend_left_right(d1, k, f.cols);
        lemma_extended(d2, k + 1, f.rows, f.cols, ys, cs);
        extend_left_right(d2, k + 1, f.cols)
    } else {
        lemma_extended(u.d, f.rows - 1, f.rows, f.cols, ys, cs);
        extend_left_right(u.d, f.rows - 1, f.cols)
    };
    lemma_all_sided(e, f.rows, f.cols);
    lemma_border(e.y, 32, 16 * f.rows, 16 * f.cols, ys);
    lemma_border(e.u, 16, 8 * f.rows, 8 * f.cols, cs);
    lemma_border(e.v, 16, 8 * f.rows, 8 * f.cols, cs);
}

} // verus!
