//! The loop filter: its levels and limits, and its way over a row of macroblocks.

use crate::arith::{clamp_i32, clamp_int};
use crate::grid::{is_rect, Grid, Pic, Plane};
use crate::loopfilter_filters::{
    bh, bhs, bv, bvs, mbh, mbv, simple_h, simple_v, vp8_loop_filter_bh_c, vp8_loop_filter_bhs_c,
    vp8_loop_filter_bv_c, vp8_loop_filter_bvs_c, vp8_loop_filter_mbh_c, vp8_loop_filter_mbv_c,
    vp8_loop_filter_simple_horizontal_edge_c, vp8_loop_filter_simple_vertical_edge_c,
    LoopFilterInfo,
};
use crate::reconinter::{chroma_at, luma_at};
use crate::types::{
    FramePlanes, FrameType, LoopFilterInfoN, Macroblockd, MbPredictionMode, ModeInfo,
    MvReferenceFrame, Vp8Common, Yuv,
};
use vstd::array::{spec_array_fill_for_copy_type, spec_array_update};
use vstd::prelude::*;

verus! {

/// The number of a prediction mode.
pub open spec fn mode_number(m: MbPredictionMode) -> int {
    match m {
        MbPredictionMode::DcPred => 0,
        MbPredictionMode::VPred => 1,
        MbPredictionMode::HPred => 2,
        MbPredictionMode::TmPred => 3,
        MbPredictionMode::BPred => 4,
        MbPredictionMode::NearestMv => 5,
        MbPredictionMode::NearMv => 6,
        MbPredictionMode::ZeroMv => 7,
        MbPredictionMode::NewMv => 8,
        MbPredictionMode::SplitMv => 9,
    }
}

/// The number of a prediction mode.
pub fn mode_index(m: MbPredictionMode) -> (n: usize)
    ensures
        n == mode_number(m),
        n < 10,
{
    match m {
        MbPredictionMode::DcPred => 0,
        MbPredictionMode::VPred => 1,
        MbPredictionMode::HPred => 2,
        MbPredictionMode::TmPred => 3,
        MbPredictionMode::BPred => 4,
        MbPredictionMode::NearestMv => 5,
        MbPredictionMode::NearMv => 6,
        MbPredictionMode::ZeroMv => 7,
        MbPredictionMode::NewMv => 8,
        MbPredictionMode::SplitMv => 9,
    }
}

/// The number of a reference frame.
pub open spec fn ref_number(r: MvReferenceFrame) -> int {
    match r {
        MvReferenceFrame::Intra => 0,
        MvReferenceFrame::Last => 1,
        MvReferenceFrame::Golden => 2,
        MvReferenceFrame::Altref => 3,
    }
}

/// The number of a reference frame.
pub fn ref_index(r: MvReferenceFrame) -> (n: usize)
    ensures
        n == ref_number(r),
        n < 4,
{
    match r {
        MvReferenceFrame::Intra => 0,
        MvReferenceFrame::Last => 1,
        MvReferenceFrame::Golden => 2,
        MvReferenceFrame::Altref => 3,
    }
}

/// The number of a kind of frame.
pub open spec fn frame_number(f: FrameType) -> int {
    match f {
        FrameType::Key => 0,
        FrameType::Inter => 1,
    }
}

/// The class of a prediction mode that the filter level depends on.
pub open spec fn mode_class(m: int) -> u8 {
    if m == 4 {
        0
    } else if m <= 3 || m == 7 {
        1
    } else if m == 9 {
        3
    } else {
        2
    }
}

/// The threshold of high variance for a kind of frame at a filter level.
pub open spec fn hev_level(frame: int, level: int) -> u8 {
    if level >= 40 {
        (2 + frame) as u8
    } else if level >= 20 {
        (1 + frame) as u8
    } else if level >= 15 {
        1
    } else {
        0
    }
}

/// The tables that pick level and threshold are filled in.
pub open spec fn lf_ready(l: LoopFilterInfoN) -> bool {
    &&& forall|m: int| 0 <= m < 10 ==> #[trigger] l.mode_lf_lut[m] == mode_class(m)
    &&& forall|f: int, v: int|
        0 <= f < 2 && 0 <= v < 64 ==> #[trigger] l.hev_thr_lut[f][v] == hev_level(f, v)
    &&& forall|i: int| 0 <= i < 4 ==> #[trigger] l.hev_thr[i] == i
}

/// No level is above 63.
pub open spec fn levels_ok(l: LoopFilterInfoN) -> bool {
    forall|s: int, r: int, m: int|
        0 <= s < 4 && 0 <= r < 4 && 0 <= m < 4 ==> #[trigger] l.lvl[s][r][m] <= 63
}

/// The limit inside a block at level `i` and sharpness `s`.
pub open spec fn inside_limit(i: int, s: int) -> int {
    let a = if s > 4 {
        i / 4
    } else if s > 0 {
        i / 2
    } else {
        i
    };
    let b = if s > 0 && a > 9 - s {
        9 - s
    } else {
        a
    };
    if b < 1 {
        1
    } else {
        b
    }
}

/// `l` with the limits of the first `n` levels for sharpness `s`.
pub open spec fn with_limits(l: LoopFilterInfoN, s: int, n: int) -> LoopFilterInfoN
    decreases n,
{
    if n <= 0 {
        l
    } else {
        let m = with_limits(l, s, n - 1);
        let i = n - 1;
        let il = inside_limit(i, s);
        LoopFilterInfoN {
            lim: spec_array_update(m.lim, i, il as u8),
            blim: spec_array_update(m.blim, i, (2 * i + il) as u8),
            mblim: spec_array_update(m.mblim, i, (2 * (i + 2) + il) as u8),
            ..m
        }
    }
}

/// Fills in the tables that pick level and threshold.
fn lf_init_lut(lfi: &mut LoopFilterInfoN)
    ensures
        forall|m: int| 0 <= m < 10 ==> #[trigger] final(lfi).mode_lf_lut[m] == mode_class(m),
        forall|f: int, v: int|
            0 <= f < 2 && 0 <= v < 64 ==> #[trigger] final(lfi).hev_thr_lut[f][v] == hev_level(f, v),
        *final(lfi) == (LoopFilterInfoN {
            mode_lf_lut: final(lfi).mode_lf_lut,
            hev_thr_lut: final(lfi).hev_thr_lut,
            ..*old(lfi)
        }),
{
    let mut v: usize = 0;
    while v < 64
        invariant
            v <= 64,
            forall|f: int, i: int|
                0 <= f < 2 && 0 <= i < v ==> #[trigger] lfi.hev_thr_lut[f][i] == hev_level(f, i),
            *lfi == (LoopFilterInfoN { hev_thr_lut: lfi.hev_thr_lut, ..*old(lfi) }),
        decreases 64 - v,
    {
        if v >= 40 {
            lfi.hev_thr_lut[0][v] = 2;
            lfi.hev_thr_lut[1][v] = 3;
        } else if v >= 20 {
            lfi.hev_thr_lut[0][v] = 1;
            lfi.hev_thr_lut[1][v] = 2;
        } else if v >= 15 {
            lfi.hev_thr_lut[0][v] = 1;
            lfi.hev_thr_lut[1][v] = 1;
        } else {
            lfi.hev_thr_lut[0][v] = 0;
            lfi.hev_thr_lut[1][v] = 0;
        }
        v += 1;
    }
    lfi.mode_lf_lut = [1, 1, 1, 1, 0, 2, 2, 1, 2, 3];
}

/// Fills in the limits of all levels for a sharpness.
pub fn vp8_loop_filter_update_sharpness(lfi: &mut LoopFilterInfoN, sharpness_lvl: i32)
    ensures
        *final(lfi) == with_limits(*old(lfi), sharpness_lvl as int, 64),
{
    let mut i: usize = 0;
    while i < 64
        invariant
            i <= 64,
            *lfi == with_limits(*old(lfi), sharpness_lvl as int, i as int),
        decreases 64 - i,
    {
        let level: i32 = i as i32;
        let mut limit: i32 = if sharpness_lvl > 4 {
            level / 4
        } else if sharpness_lvl > 0 {
            level / 2
        } else {
            level
        };
        if sharpness_lvl > 0 && limit > 9 - sharpness_lvl {
            limit = 9 - sharpness_lvl;
        }
        if limit < 1 {
            limit = 1;
        }
        lfi.lim[i] = limit as u8;
        lfi.blim[i] = (2 * level + limit) as u8;
        lfi.mblim[i] = (2 * (level + 2) + limit) as u8;
        i += 1;
    }
}

/// Prepares the loop filter of a new decoder.
pub fn vp8_loop_filter_init(cm: &mut Vp8Common)
    ensures
        lf_ready(final(cm).lf_info),
        *final(cm) == (Vp8Common {
            lf_info: LoopFilterInfoN {
                mode_lf_lut: final(cm).lf_info.mode_lf_lut,
                hev_thr_lut: final(cm).lf_info.hev_thr_lut,
                hev_thr: final(cm).lf_info.hev_thr,
                ..with_limits(old(cm).lf_info, old(cm).sharpness_level as int, 64)
            },
            last_sharpness_level: old(cm).sharpness_level,
            ..*old(cm)
        }),
{
    let s: i32 = cm.sharpness_level;
    vp8_loop_filter_update_sharpness(&mut cm.lf_info, s);
    cm.last_sharpness_level = s;
    lf_init_lut(&mut cm.lf_info);
    cm.lf_info.hev_thr = [0, 1, 2, 3];
}

/// The filter level of a segment.
pub open spec fn segment_level(mb: Macroblockd, default_level: int, seg: int) -> int {
    if mb.segmentation_enabled != 0 {
        let d = mb.segment_feature_data[1][seg] as int;
        clamp_int(
            if mb.mb_segment_abs_delta == 1 {
                d
            } else {
                default_level + d
            },
            0,
            63,
        )
    } else {
        default_level
    }
}

/// A level adjusted by `delta` and limited to what there is.
pub open spec fn adjusted(level: int, delta: int) -> u8 {
    clamp_int(level + delta, 0, 63) as u8
}

/// The levels of the inter modes for one reference frame.
pub open spec fn inter_levels(old_row: [u8; 4], level: int, d: [i8; 4]) -> [u8; 4] {
    spec_array_update(
        spec_array_update(
            spec_array_update(old_row, 1, adjusted(level, d[1] as int)),
            2,
            adjusted(level, d[2] as int),
        ),
        3,
        adjusted(level, d[3] as int),
    )
}

/// The levels of a segment. Entries that no macroblock can refer to keep what they held.
pub open spec fn segment_levels(t: [[u8; 4]; 4], mb: Macroblockd, level: int) -> [[u8; 4]; 4] {
    if mb.mode_ref_lf_delta_enabled == 0 {
        spec_array_fill_for_copy_type::<[u8; 4], 4>(spec_array_fill_for_copy_type::<u8, 4>(level as u8))
    } else {
        let l0 = level + mb.ref_lf_deltas[0];
        let t0 = spec_array_update(
            t,
            0,
            spec_array_update(
                spec_array_update(t[0], 0, adjusted(l0, mb.mode_lf_deltas[0] as int)),
                1,
                adjusted(l0, 0),
            ),
        );
        let t1 = spec_array_update(
            t0,
            1,
            inter_levels(t[1], level + mb.ref_lf_deltas[1], mb.mode_lf_deltas),
        );
        let t2 = spec_array_update(
            t1,
            2,
            inter_levels(t[2], level + mb.ref_lf_deltas[2], mb.mode_lf_deltas),
        );
        spec_array_update(
            t2,
            3,
            inter_levels(t[3], level + mb.ref_lf_deltas[3], mb.mode_lf_deltas),
        )
    }
}

/// `l` with the levels of the first `n` segments.
pub open spec fn with_levels(
    l: [[[u8; 4]; 4]; 4],
    mb: Macroblockd,
    default_level: int,
    n: int,
) -> [[[u8; 4]; 4]; 4]
    decreases n,
{
    if n <= 0 {
        l
    } else {
        let m = with_levels(l, mb, default_level, n - 1);
        spec_array_update(
            m,
            n - 1,
            segment_levels(m[n - 1], mb, segment_level(mb, default_level, n - 1)),
        )
    }
}

/// The loop filter's tables at the start of a frame.
#[verifier::opaque]
pub open spec fn lf_frame(
    l: LoopFilterInfoN,
    last_sharpness: i32,
    sharpness: i32,
    mb: Macroblockd,
    default_level: int,
) -> LoopFilterInfoN {
    let m = if last_sharpness != sharpness {
        with_limits(l, sharpness as int, 64)
    } else {
        l
    };
    LoopFilterInfoN { lvl: with_levels(m.lvl, mb, default_level, 4), ..m }
}

fn adjust(level: i32, delta: i8) -> (v: u8)
    requires
        -1000 <= level <= 1000,
    ensures
        v == adjusted(level as int, delta as int),
        v <= 63,
{
    clamp_i32(level + delta as i32, 0, 63) as u8
}

fn inter_row(row: [u8; 4], level: i32, d: &[i8; 4]) -> (r: [u8; 4])
    requires
        -1000 <= level <= 1000,
    ensures
        r == inter_levels(row, level as int, *d),
        forall|m: int| 0 <= m < 4 ==> (row[m] <= 63 ==> #[trigger] r[m] <= 63),
{
    let mut r: [u8; 4] = row;
    r[1] = adjust(level, d[1]);
    r[2] = adjust(level, d[2]);
    r[3] = adjust(level, d[3]);
    r
}

/// Sets the levels of one segment.
fn segment_table(t: &mut [[u8; 4]; 4], mb: &Macroblockd, level: i32)
    requires
        0 <= level <= 63,
        forall|r: int, m: int| 0 <= r < 4 && 0 <= m < 4 ==> #[trigger] old(t)[r][m] <= 63,
    ensures
        *final(t) == segment_levels(*old(t), *mb, level as int),
        forall|r: int, m: int| 0 <= r < 4 && 0 <= m < 4 ==> #[trigger] final(t)[r][m] <= 63,
{
    if mb.mode_ref_lf_delta_enabled == 0 {
        *t = [[level as u8; 4]; 4];
    } else {
        let l0: i32 = level + mb.ref_lf_deltas[0] as i32;
        t[0][0] = adjust(l0, mb.mode_lf_deltas[0]);
        t[0][1] = adjust(l0, 0);
        let r1: [u8; 4] = inter_row(t[1], level + mb.ref_lf_deltas[1] as i32, &mb.mode_lf_deltas);
        let r2: [u8; 4] = inter_row(t[2], level + mb.ref_lf_deltas[2] as i32, &mb.mode_lf_deltas);
        let r3: [u8; 4] = inter_row(t[3], level + mb.ref_lf_deltas[3] as i32, &mb.mode_lf_deltas);
        t[1] = r1;
        t[2] = r2;
        t[3] = r3;
    }
}

/// Sets the levels of the loop filter at the start of a frame, and its limits where the
/// sharpness has changed.
pub fn vp8_loop_filter_frame_init(cm: &mut Vp8Common, mbd: &Macroblockd, default_filt_lvl: i32)
    requires
        0 <= default_filt_lvl <= 63,
        levels_ok(old(cm).lf_info),
    ensures
        *final(cm) == (Vp8Common {
            lf_info: lf_frame(
                old(cm).lf_info,
                old(cm).last_sharpness_level,
                old(cm).sharpness_level,
                *mbd,
                default_filt_lvl as int,
            ),
            last_sharpness_level: old(cm).sharpness_level,
            ..*old(cm)
        }),
        levels_ok(final(cm).lf_info),
        lf_ready(old(cm).lf_info) ==> lf_ready(final(cm).lf_info),
{
    proof {
        reveal(lf_frame);
        lemma_limits_keep(cm.lf_info, cm.sharpness_level as int, 64);
    }
    if cm.last_sharpness_level != cm.sharpness_level {
        let s: i32 = cm.sharpness_level;
        vp8_loop_filter_update_sharpness(&mut cm.lf_info, s);
        cm.last_sharpness_level = s;
    }
    let ghost l1 = cm.lf_info;
    let mut seg: usize = 0;
    while seg < 4
        invariant
            seg <= 4,
            0 <= default_filt_lvl <= 63,
            levels_ok(cm.lf_info),
            *cm == (Vp8Common {
                lf_info: cm.lf_info,
                last_sharpness_level: old(cm).sharpness_level,
                ..*old(cm)
            }),
            cm.lf_info == (LoopFilterInfoN {
                lvl: with_levels(l1.lvl, *mbd, default_filt_lvl as int, seg as int),
                ..l1
            }),
        decreases 4 - seg,
    {
        let mut lvl_seg: i32 = default_filt_lvl;
        if mbd.segmentation_enabled != 0 {
            let d: i32 = mbd.segment_feature_data[1][seg] as i32;
            if mbd.mb_segment_abs_delta == 1 {
                lvl_seg = d;
            } else {
                lvl_seg = lvl_seg + d;
            }
            lvl_seg = clamp_i32(lvl_seg, 0, 63);
        }
        let mut t: [[u8; 4]; 4] = cm.lf_info.lvl[seg];
        assert(forall|r: int, m: int| 0 <= r < 4 && 0 <= m < 4 ==> #[trigger] t[r][m] <= 63) by {
            assert(forall|r: int, m: int|
                0 <= r < 4 && 0 <= m < 4 ==> cm.lf_info.lvl[seg as int][r][m] <= 63);
        }
        segment_table(&mut t, mbd, lvl_seg);
        cm.lf_info.lvl[seg] = t;
        seg += 1;
    }
}

/// The limits are all that a change of sharpness touches.
proof fn lemma_limits_keep(l: LoopFilterInfoN, s: int, n: int)
    ensures
        with_limits(l, s, n).lvl == l.lvl,
        with_limits(l, s, n).hev_thr == l.hev_thr,
        with_limits(l, s, n).hev_thr_lut == l.hev_thr_lut,
        with_limits(l, s, n).mode_lf_lut == l.mode_lf_lut,
    decreases n,
{
    if n > 0 {
        lemma_limits_keep(l, s, n - 1);
    }
}

/// The modes of all macroblocks, with a row above and a column to the left of them.
pub type ModeGrid = Seq<Seq<ModeInfo>>;

/// The filter level of a macroblock.
pub open spec fn mb_level(l: LoopFilterInfoN, mi: ModeInfo) -> int {
    let class = l.mode_lf_lut[mode_number(mi.mbmi.mode)];
    l.lvl[mi.mbmi.segment_id as int][ref_number(mi.mbmi.ref_frame)][class as int] as int
}

/// The inner edges of a macroblock without coefficients and with one vector are not filtered.
pub open spec fn skips_inner(mi: ModeInfo) -> bool {
    &&& mi.mbmi.mode != MbPredictionMode::BPred
    &&& mi.mbmi.mode != MbPredictionMode::SplitMv
    &&& mi.mbmi.mb_skip_coeff
}

/// The limits at a level.
pub open spec fn limits_at(l: LoopFilterInfoN, ft: FrameType, level: int) -> LoopFilterInfo {
    LoopFilterInfo {
        mblim: l.mblim[level],
        blim: l.blim[level],
        lim: l.lim[level],
        hev_thr: l.hev_thr[l.hev_thr_lut[frame_number(ft)][level] as int],
    }
}

/// The normal loop filter over the macroblock in row `r` and column `c`: the left edge, the
/// inner vertical edges, the upper edge and the inner horizontal edges. The edges of the
/// frame are left alone.
pub open spec fn lf_mb(
    l: LoopFilterInfoN,
    ft: FrameType,
    mi: ModeInfo,
    d: Yuv,
    r: int,
    c: int,
) -> Yuv {
    let level = mb_level(l, mi);
    if level == 0 {
        d
    } else {
        let (yr, yc, cr, cc) = (luma_at(r), luma_at(c), chroma_at(r), chroma_at(c));
        let lim = limits_at(l, ft, level);
        let d1 = if c > 0 {
            mbv(d, yr, yc, cr, cc, lim)
        } else {
            d
        };
        let d2 = if !skips_inner(mi) {
            bv(d1, yr, yc, cr, cc, lim)
        } else {
            d1
        };
        let d3 = if r > 0 {
            mbh(d2, yr, yc, cr, cc, lim)
        } else {
            d2
        };
        if !skips_inner(mi) {
            bh(d3, yr, yc, cr, cc, lim)
        } else {
            d3
        }
    }
}

/// The simple loop filter over the luma of the macroblock in row `r` and column `c`.
pub open spec fn lf_mb_simple(l: LoopFilterInfoN, mi: ModeInfo, y: Pic, r: int, c: int) -> Pic {
    let level = mb_level(l, mi);
    if level == 0 {
        y
    } else {
        let (yr, yc) = (luma_at(r), luma_at(c));
        let y1 = if c > 0 {
            simple_v(y, yr, yc, l.mblim[level], 16)
        } else {
            y
        };
        let y2 = if !skips_inner(mi) {
            bvs(y1, yr, yc, l.blim[level])
        } else {
            y1
        };
        let y3 = if r > 0 {
            simple_h(y2, yr, yc, l.mblim[level], 16)
        } else {
            y2
        };
        if !skips_inner(mi) {
            bhs(y3, yr, yc, l.blim[level])
        } else {
            y3
        }
    }
}

/// The normal loop filter over the first `n` macroblocks of row `r`.
pub open spec fn lf_row(
    l: LoopFilterInfoN,
    ft: FrameType,
    g: ModeGrid,
    d: Yuv,
    r: int,
    n: int,
) -> Yuv
    decreases n,
{
    if n <= 0 {
        d
    } else {
        lf_mb(l, ft, g[r + 1][n], lf_row(l, ft, g, d, r, n - 1), r, n - 1)
    }
}

/// The simple loop filter over the first `n` macroblocks of row `r`.
pub open spec fn lf_row_simple(l: LoopFilterInfoN, g: ModeGrid, y: Pic, r: int, n: int) -> Pic
    decreases n,
{
    if n <= 0 {
        y
    } else {
        lf_mb_simple(l, g[r + 1][n], lf_row_simple(l, g, y, r, n - 1), r, n - 1)
    }
}

/// Every macroblock belongs to one of the four segments.
pub open spec fn segments_ok(g: ModeGrid) -> bool {
    forall|r: int, c: int|
        0 <= r < g.len() && 0 <= c < g[r].len() ==> (#[trigger] g[r][c]).mbmi.segment_id < 4
}

/// The level of a macroblock.
fn level_of(l: &LoopFilterInfoN, mi: &ModeInfo) -> (level: usize)
    requires
        lf_ready(*l),
        levels_ok(*l),
        mi.mbmi.segment_id < 4,
    ensures
        level == mb_level(*l, *mi),
        level <= 63,
{
    let m: usize = mode_index(mi.mbmi.mode);
    let class: usize = l.mode_lf_lut[m] as usize;
    assert(class < 4) by {
        assert(l.mode_lf_lut[m as int] == mode_class(m as int));
    }
    let seg: usize = mi.mbmi.segment_id as usize;
    let r: usize = ref_index(mi.mbmi.ref_frame);
    assert(l.lvl[seg as int][r as int][class as int] <= 63);
    l.lvl[seg][r][class] as usize
}

fn skip_inner(mi: &ModeInfo) -> (b: bool)
    ensures
        b == skips_inner(*mi),
{
    mi.mbmi.mode != MbPredictionMode::BPred && mi.mbmi.mode != MbPredictionMode::SplitMv
        && mi.mbmi.mb_skip_coeff
}

/// Filters one macroblock.
fn filter_mb(
    l: &LoopFilterInfoN,
    ft: FrameType,
    mi: &ModeInfo,
    d: &mut FramePlanes,
    r: usize,
    c: usize,
    Ghost(rows): Ghost<int>,
    Ghost(cols): Ghost<int>,
)
    requires
        lf_ready(*l),
        levels_ok(*l),
        mi.mbmi.segment_id < 4,
        old(d).holds(rows, cols),
        r < rows,
        c < cols,
    ensures
        final(d)@ == lf_mb(*l, ft, *mi, old(d)@, r as int, c as int),
        final(d).sized_as(old(d)),
{
    let level: usize = level_of(l, mi);
    if level != 0 {
        let f: usize = match ft {
            FrameType::Key => 0,
            FrameType::Inter => 1,
        };
        let t: usize = l.hev_thr_lut[f][level] as usize;
        assert(t < 4) by {
            assert(l.hev_thr_lut[f as int][level as int] == hev_level(f as int, level as int));
        }
        let lfi = LoopFilterInfo {
            mblim: l.mblim[level],
            blim: l.blim[level],
            lim: l.lim[level],
            hev_thr: l.hev_thr[t],
        };
        let skip: bool = skip_inner(mi);
        let yr: usize = 32 + 16 * r;
        let yc: usize = 32 + 16 * c;
        let cr: usize = 16 + 8 * r;
        let cc: usize = 16 + 8 * c;
        if c > 0 {
            vp8_loop_filter_mbv_c(d, yr, yc, cr, cc, &lfi);
        }
        if !skip {
            vp8_loop_filter_bv_c(d, yr, yc, cr, cc, &lfi);
        }
        if r > 0 {
            vp8_loop_filter_mbh_c(d, yr, yc, cr, cc, &lfi);
        }
        if !skip {
            vp8_loop_filter_bh_c(d, yr, yc, cr, cc, &lfi);
        }
    }
}

/// Filters the luma of one macroblock by the simple filter.
fn filter_mb_simple(
    l: &LoopFilterInfoN,
    mi: &ModeInfo,
    y: &mut Plane,
    r: usize,
    c: usize,
)
    requires
        lf_ready(*l),
        levels_ok(*l),
        mi.mbmi.segment_id < 4,
        r <= 1024,
        c <= 1024,
        luma_at(r as int) + 16 <= old(y).spec_rows(),
        luma_at(c as int) + 16 <= old(y).spec_stride(),
    ensures
        final(y)@ == lf_mb_simple(*l, *mi, old(y)@, r as int, c as int),
        final(y).spec_rows() == old(y).spec_rows(),
        final(y).spec_stride() == old(y).spec_stride(),
{
    let level: usize = level_of(l, mi);
    if level != 0 {
        let skip: bool = skip_inner(mi);
        let yr: usize = 32 + 16 * r;
        let yc: usize = 32 + 16 * c;
        if c > 0 {
            vp8_loop_filter_simple_vertical_edge_c(y, yr, yc, l.mblim[level]);
        }
        if !skip {
            vp8_loop_filter_bvs_c(y, yr, yc, l.blim[level]);
        }
        if r > 0 {
            vp8_loop_filter_simple_horizontal_edge_c(y, yr, yc, l.mblim[level]);
        }
        if !skip {
            vp8_loop_filter_bhs_c(y, yr, yc, l.blim[level]);
        }
    }
}

/// The grid holds the modes of `rows x cols` macroblocks.
pub open spec fn grid_holds(g: Grid<ModeInfo>, rows: int, cols: int) -> bool {
    &&& g.spec_rows() == rows + 1
    &&& g.spec_stride() == cols + 1
}

/// Filters row `mb_row` by the normal filter.
pub fn vp8_loop_filter_row_normal(
    lf_info: &LoopFilterInfoN,
    frame_type: FrameType,
    mip: &Grid<ModeInfo>,
    mb_row: usize,
    mb_rows: usize,
    mb_cols: usize,
    d: &mut FramePlanes,
)
    requires
        lf_ready(*lf_info),
        levels_ok(*lf_info),
        grid_holds(*mip, mb_rows as int, mb_cols as int),
        segments_ok(mip@),
        mb_row < mb_rows,
        old(d).holds(mb_rows as int, mb_cols as int),
    ensures
        final(d)@ == lf_row(*lf_info, frame_type, mip@, old(d)@, mb_row as int, mb_cols as int),
        final(d).sized_as(old(d)),
{
    let mut c: usize = 0;
    proof {
        mip.lemma_rect();
    }
    while c < mb_cols
        invariant
            c <= mb_cols,
            lf_ready(*lf_info),
            levels_ok(*lf_info),
            grid_holds(*mip, mb_rows as int, mb_cols as int),
            is_rect(mip@, mb_rows + 1, mb_cols + 1),
            segments_ok(mip@),
            mb_row < mb_rows,
            d.holds(mb_rows as int, mb_cols as int),
            d.sized_as(old(d)),
            d@ == lf_row(*lf_info, frame_type, mip@, old(d)@, mb_row as int, c as int),
        decreases mb_cols - c,
    {
        let mi: ModeInfo = mip.get(mb_row + 1, c + 1);
        assert(mip@[mb_row + 1][c + 1].mbmi.segment_id < 4);
        filter_mb(
            lf_info,
            frame_type,
            &mi,
            d,
            mb_row,
            c,
            Ghost(mb_rows as int),
            Ghost(mb_cols as int),
        );
        c += 1;
    }
}

/// Filters the luma of row `mb_row` by the simple filter.
pub fn vp8_loop_filter_row_simple(
    lf_info: &LoopFilterInfoN,
    mip: &Grid<ModeInfo>,
    mb_row: usize,
    mb_rows: usize,
    mb_cols: usize,
    d: &mut FramePlanes,
)
    requires
        lf_ready(*lf_info),
        levels_ok(*lf_info),
        grid_holds(*mip, mb_rows as int, mb_cols as int),
        segments_ok(mip@),
        mb_row < mb_rows,
        old(d).holds(mb_rows as int, mb_cols as int),
    ensures
        final(d)@ == (Yuv {
            y: lf_row_simple(*lf_info, mip@, old(d).y@, mb_row as int, mb_cols as int),
            ..old(d)@
        }),
        final(d).sized_as(old(d)),
{
    let mut c: usize = 0;
    proof {
        mip.lemma_rect();
    }
    while c < mb_cols
        invariant
            c <= mb_cols,
            lf_ready(*lf_info),
            levels_ok(*lf_info),
            grid_holds(*mip, mb_rows as int, mb_cols as int),
            is_rect(mip@, mb_rows + 1, mb_cols + 1),
            segments_ok(mip@),
            mb_row < mb_rows,
            d.holds(mb_rows as int, mb_cols as int),
            d.sized_as(old(d)),
            d.u == old(d).u,
            d.v == old(d).v,
            d.y@ == lf_row_simple(*lf_info, mip@, old(d).y@, mb_row as int, c as int),
        decreases mb_cols - c,
    {
        let mi: ModeInfo = mip.get(mb_row + 1, c + 1);
        assert(mip@[mb_row + 1][c + 1].mbmi.segment_id < 4);
        filter_mb_simple(lf_info, &mi, &mut d.y, mb_row, c);
        c += 1;
    }
}

/// A filter level limited to what there is.
pub open spec fn bounded_level(v: int) -> int {
    if v < 0 {
        0
    } else if v > 63 {
        63
    } else {
        v
    }
}

/// How much the header adds to the level of a macroblock of some prediction mode: the first
/// adjustment for those with subblock modes, none for other intra modes, the second where there is
/// no motion, the fourth where there are several vectors, and the third for all others.
pub open spec fn mode_delta(mb: Macroblockd, m: MbPredictionMode) -> int {
    match m {
        MbPredictionMode::BPred => mb.mode_lf_deltas[0] as int,
        MbPredictionMode::ZeroMv => mb.mode_lf_deltas[1] as int,
        MbPredictionMode::NearestMv => mb.mode_lf_deltas[2] as int,
        MbPredictionMode::NearMv => mb.mode_lf_deltas[2] as int,
        MbPredictionMode::NewMv => mb.mode_lf_deltas[2] as int,
        MbPredictionMode::SplitMv => mb.mode_lf_deltas[3] as int,
        _ => 0,
    }
}

/// The mode of a macroblock is one of those that go with its reference frame.
pub open spec fn mode_fits(mi: ModeInfo) -> bool {
    mi.mbmi.ref_frame == MvReferenceFrame::Intra <==> {
        ||| mi.mbmi.mode == MbPredictionMode::DcPred
        ||| mi.mbmi.mode == MbPredictionMode::VPred
        ||| mi.mbmi.mode == MbPredictionMode::HPred
        ||| mi.mbmi.mode == MbPredictionMode::TmPred
        ||| mi.mbmi.mode == MbPredictionMode::BPred
    }
}

proof fn lemma_levels(l: [[[u8; 4]; 4]; 4], mb: Macroblockd, level: int, n: int, seg: int)
    requires
        0 <= seg < n <= 4,
    ensures
        with_levels(l, mb, level, n)[seg] == segment_levels(
            with_levels(l, mb, level, seg)[seg],
            mb,
            segment_level(mb, level, seg),
        ),
    decreases n,
{
    if seg < n - 1 {
        lemma_levels(l, mb, level, n - 1, seg);
    }
}

proof fn lemma_cell(t: [[u8; 4]; 4], mb: Macroblockd, level: int, mi: ModeInfo)
    requires
        mode_fits(mi),
        0 <= level <= 63,
    ensures
        segment_levels(t, mb, level)[ref_number(mi.mbmi.ref_frame)][mode_class(
            mode_number(mi.mbmi.mode),
        ) as int] == (if mb.mode_ref_lf_delta_enabled == 0 {
            level
        } else {
            bounded_level(
                level + mb.ref_lf_deltas[ref_number(mi.mbmi.ref_frame)] + mode_delta(
                    mb,
                    mi.mbmi.mode,
                ),
            )
        }),
{
    let k = mode_class(mode_number(mi.mbmi.mode)) as int;
    match mi.mbmi.ref_frame {
        MvReferenceFrame::Intra => {
            assert(k == 0 || k == 1);
        },
        MvReferenceFrame::Last => {
            assert(k == 1 || k == 2 || k == 3);
        },
        MvReferenceFrame::Golden => {
            assert(k == 1 || k == 2 || k == 3);
        },
        MvReferenceFrame::Altref => {
            assert(k == 1 || k == 2 || k == 3);
        },
    }
}

/// The filter level of a macroblock, from what the header says and from its own modes: the frame's
/// level, or what its segment puts in the place of it or adds to it; then what is added for its
/// reference frame and for its mode, where adjustments are used. It is limited after the segment
/// and at the end, and does not depend on frames before.
pub proof fn law_macroblock_level(
    l: LoopFilterInfoN,
    last_sharpness: i32,
    sharpness: i32,
    mb: Macroblockd,
    level: int,
    mi: ModeInfo,
)
    requires
        lf_ready(l),
        mi.mbmi.segment_id < 4,
        mode_fits(mi),
        0 <= level <= 63,
    ensures
        ({
            let d = mb.segment_feature_data[1][mi.mbmi.segment_id as int] as int;
            let base = if mb.segmentation_enabled == 0 {
                level
            } else if mb.mb_segment_abs_delta == 1 {
                bounded_level(d)
            } else {
                bounded_level(level + d)
            };
            mb_level(lf_frame(l, last_sharpness, sharpness, mb, level), mi) == (
            if mb.mode_ref_lf_delta_enabled == 0 {
                base
            } else {
                bounded_level(
                    base + mb.ref_lf_deltas[ref_number(mi.mbmi.ref_frame)] + mode_delta(
                        mb,
                        mi.mbmi.mode,
                    ),
                )
            })
        }),
{
    reveal(lf_frame);
    lemma_limits_keep(l, sharpness as int, 64);
    let m = if last_sharpness != sharpness {
        with_limits(l, sharpness as int, 64)
    } else {
        l
    };
    let seg = mi.mbmi.segment_id as int;
    lemma_levels(m.lvl, mb, level, 4, seg);
    let f = lf_frame(l, last_sharpness, sharpness, mb, level);
    let n = mode_number(mi.mbmi.mode);
    assert(f.mode_lf_lut[n] == mode_class(n));
    let base = segment_level(mb, level, seg);
    lemma_cell(with_levels(m.lvl, mb, level, seg)[seg], mb, base, mi);
}

/// The limits of all levels are those of sharpness `s`.
pub open spec fn limits_of(l: LoopFilterInfoN, s: int) -> bool {
    forall|i: int|
        0 <= i < 64 ==> {
            let il = inside_limit(i, s);
            #[trigger] l.lim[i] == il && l.blim[i] == 2 * i + il && l.mblim[i] == 2 * i + 4 + il
        }
}

proof fn lemma_limits(l: LoopFilterInfoN, s: int, n: int, i: int)
    requires
        0 <= i < n <= 64,
        0 <= s <= 7,
    ensures
        with_limits(l, s, n).lim[i] == inside_limit(i, s),
        with_limits(l, s, n).blim[i] == 2 * i + inside_limit(i, s),
        with_limits(l, s, n).mblim[i] == 2 * i + 4 + inside_limit(i, s),
    decreases n,
{
    if i < n - 1 {
        lemma_limits(l, s, n - 1, i);
    }
}

/// The limits of a frame are those of its own sharpness, whatever sharpness frames before had: as
/// long as the tables hold what the last sharpness gives, they do so after every frame.
pub proof fn law_limits_follow_sharpness(
    l: LoopFilterInfoN,
    last_sharpness: i32,
    sharpness: i32,
    mb: Macroblockd,
    level: int,
)
    requires
        0 <= sharpness <= 7,
        limits_of(l, last_sharpness as int),
    ensures
        limits_of(lf_frame(l, last_sharpness, sharpness, mb, level), sharpness as int),
{
    reveal(lf_frame);
    let f = lf_frame(l, last_sharpness, sharpness, mb, level);
    assert forall|i: int| 0 <= i < 64 implies {
        let il = inside_limit(i, sharpness as int);
        #[trigger] f.lim[i] == il && f.blim[i] == 2 * i + il && f.mblim[i] == 2 * i + 4 + il
    } by {
        lemma_limits(l, sharpness as int, 64, i);
        assert(l.lim[i] == inside_limit(i, last_sharpness as int));
    }
}

/// The limit inside a block is never below one nor above the level, but for level zero; with
/// sharpness zero it is the level itself, and any sharpness keeps it at most `9 - s` and halves or
/// quarters the level. A higher level never has a lower limit, nor a higher sharpness a higher one.
pub proof fn law_inside_limit(i: int, j: int, s: int, t: int)
    requires
        0 <= i <= j <= 63,
        0 <= s <= t <= 7,
    ensures
        1 <= inside_limit(i, s),
        i >= 1 ==> inside_limit(i, s) <= i,
        i >= 1 ==> inside_limit(i, 0) == i,
        s >= 1 ==> inside_limit(i, s) <= 9 - s,
        inside_limit(i, s) <= inside_limit(j, s),
        inside_limit(i, t) <= inside_limit(i, s),
        1 <= s <= 4 && 1 <= i / 2 <= 9 - s ==> inside_limit(i, s) == i / 2,
        5 <= s && 1 <= i / 4 <= 9 - s ==> inside_limit(i, s) == i / 4,
        s >= 1 && i / 4 > 9 - s ==> inside_limit(i, s) == 9 - s,
{
}

/// The thresholds at a level: high variance counts from level 15, 20 and 40 on, and more so
/// between key frames.
pub proof fn law_limits_at(l: LoopFilterInfoN, s: int, level: int)
    requires
        lf_ready(l),
        limits_of(l, s),
        0 <= s <= 7,
        0 <= level <= 63,
    ensures
        limits_at(l, FrameType::Key, level).hev_thr == (if level < 15 {
            0int
        } else if level < 40 {
            1
        } else {
            2
        }),
        limits_at(l, FrameType::Inter, level).hev_thr == (if level < 15 {
            0int
        } else if level < 20 {
            1
        } else if level < 40 {
            2
        } else {
            3
        }),
        ({
            let (a, b) = (limits_at(l, FrameType::Key, level), limits_at(l, FrameType::Inter, level));
            &&& a.mblim == b.mblim && a.blim == b.blim && a.lim == b.lim
            &&& a.lim == inside_limit(level, s)
            &&& a.blim == 2 * level + a.lim
            &&& a.mblim == a.blim + 4
        }),
{
    assert(l.lim[level] == inside_limit(level, s));
    assert(l.hev_thr_lut[0][level] == hev_level(0, level));
    assert(l.hev_thr_lut[1][level] == hev_level(1, level));
    let (a, b) = (hev_level(0, level) as int, hev_level(1, level) as int);
    assert(l.hev_thr[a] == a && l.hev_thr[b] == b);
}

/// A macroblock with level zero is not filtered, nor one without coefficients and with one vector
/// in the upper left corner of the frame: the edges of the frame are left alone.
pub proof fn law_unfiltered(l: LoopFilterInfoN, ft: FrameType, mi: ModeInfo, d: Yuv, r: int, c: int)
    ensures
        mb_level(l, mi) == 0 ==> lf_mb(l, ft, mi, d, r, c) == d,
        skips_inner(mi) && r == 0 && c == 0 ==> lf_mb(l, ft, mi, d, r, c) == d,
{
}

/// Of the modes of a macroblock its filter goes by the level and by whether its inner edges are
/// filtered, and by nothing else. These are left out where it has no coefficients and neither
/// subblock modes nor several vectors.
pub proof fn law_filter_by_level(
    l: LoopFilterInfoN,
    ft: FrameType,
    a: ModeInfo,
    b: ModeInfo,
    d: Yuv,
    r: int,
    c: int,
)
    requires
        mb_level(l, a) == mb_level(l, b),
        a.mbmi.mb_skip_coeff && a.mbmi.mode != MbPredictionMode::BPred && a.mbmi.mode
            != MbPredictionMode::SplitMv <==> b.mbmi.mb_skip_coeff && b.mbmi.mode
            != MbPredictionMode::BPred && b.mbmi.mode != MbPredictionMode::SplitMv,
    ensures
        lf_mb(l, ft, a, d, r, c) == lf_mb(l, ft, b, d, r, c),
{
}

/// Which edges of a macroblock are filtered, and in which order, wherever it lies: its left edge
/// unless it is in the first column, its upper edge unless it is in the first row, and those inside
/// it unless they are left out; all that run down before all that run across.
pub proof fn law_filtered_edges(
    l: LoopFilterInfoN,
    ft: FrameType,
    mi: ModeInfo,
    d: Yuv,
    r: int,
    c: int,
)
    requires
        mb_level(l, mi) != 0,
        0 <= r,
        0 <= c,
    ensures
        ({
            let lim = limits_at(l, ft, mb_level(l, mi));
            let (yr, yc, cr, cc) = (32 + 16 * r, 32 + 16 * c, 16 + 8 * r, 16 + 8 * c);
            let down = if c == 0 {
                d
            } else {
                mbv(d, yr, yc, cr, cc, lim)
            };
            let inner = bv(down, yr, yc, cr, cc, lim);
            &&& skips_inner(mi) && r == 0 ==> lf_mb(l, ft, mi, d, r, c) == down
            &&& skips_inner(mi) && r >= 1 ==> lf_mb(l, ft, mi, d, r, c) == mbh(
                down,
                yr,
                yc,
                cr,
                cc,
                lim,
            )
            &&& !skips_inner(mi) && r == 0 ==> lf_mb(l, ft, mi, d, r, c) == bh(
                inner,
                yr,
                yc,
                cr,
                cc,
                lim,
            )
            &&& !skips_inner(mi) && r >= 1 ==> lf_mb(l, ft, mi, d, r, c) == bh(
                mbh(inner, yr, yc, cr, cc, lim),
                yr,
                yc,
                cr,
                cc,
                lim,
            )
        }),
{
}

/// The simple filter goes over the same edges of the luma plane, and over no others.
pub proof fn law_filtered_edges_simple(l: LoopFilterInfoN, mi: ModeInfo, y: Pic, r: int, c: int)
    requires
        0 <= r,
        0 <= c,
    ensures
        mb_level(l, mi) == 0 ==> lf_mb_simple(l, mi, y, r, c) == y,
        mb_level(l, mi) != 0 ==> {
            let v = mb_level(l, mi);
            let (yr, yc) = (32 + 16 * r, 32 + 16 * c);
            let down = if c == 0 {
                y
            } else {
                simple_v(y, yr, yc, l.mblim[v], 16)
            };
            let inner = bvs(down, yr, yc, l.blim[v]);
            &&& skips_inner(mi) && r == 0 ==> lf_mb_simple(l, mi, y, r, c) == down
            &&& skips_inner(mi) && r >= 1 ==> lf_mb_simple(l, mi, y, r, c) == simple_h(
                down,
                yr,
                yc,
                l.mblim[v],
                16,
            )
            &&& !skips_inner(mi) && r == 0 ==> lf_mb_simple(l, mi, y, r, c) == bhs(
                inner,
                yr,
                yc,
                l.blim[v],
            )
            &&& !skips_inner(mi) && r >= 1 ==> lf_mb_simple(l, mi, y, r, c) == bhs(
                simple_h(inner, yr, yc, l.mblim[v], 16),
                yr,
                yc,
                l.blim[v],
            )
        },
{
}

} // verus!
