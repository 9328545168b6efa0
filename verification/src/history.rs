//! What a key frame makes of the decoder, whatever was decoded before.

use crate::coefheader::{keep_header, quant_header, ref_header, with_tables};
use crate::dboolhuff::{fresh, read_bool, read_literal, BoolState};
use crate::decodeframe::{
    body_decoded, cleared_above, frame_decoded, frame_finished, frame_modes,
    macroblocks_decoded, modes_known, rest_header, token_readers, with_partitions,
};
use crate::decodemv::{env_of, law_mode_header_anew, mode_header};
use crate::frameheader::{
    clamp_header, first_header, law_first_header_touches, lf_deltas, partition_header,
    partition_number, segment_data, segment_header, segment_tree,
};
use crate::framerows::{filter_started, frame_env, rows_end, rows_start};
use crate::frametag::{
    first_mode_reset, frame_started, frame_tag, law_inter_frame_keeps, law_key_frame_defaults,
    law_key_frame_forgets, law_tag_bytes, law_tag_touches_little,
};
use crate::macroblock::{mb_decode, mb_intra, mb_residual, mb_tokens, MbEnv, MbState, RefPics};
use crate::mbrows::{
    all_rows, error_flag, frame_rows, mb_frame, one_mb, one_row, row_mbs, FrameEnv, RowState,
};
use crate::partitions::partitions_of;
use crate::setupintrarecon::{left_lines, top_lines};
use crate::tables::{DEFAULT_COEF_PROBS, VP8_DEFAULT_MV_CONTEXT, VP8_UV_MODE_PROB, VP8_YMODE_PROB};
use crate::types::{
    no_context, FragmentData, FrameType, Macroblockd, MbPredictionMode, Vp8Common, Vp8dComp,
    VpxCodecErr, VpxResult,
};
use crate::vp8_loopfilter::{ref_number, ModeGrid};
use vstd::prelude::*;

verus! {

/// The working area says the same about segments and loop filter adjustments.
pub open spec fn same_adjustments(a: Macroblockd, b: Macroblockd) -> bool {
    &&& a.segment_feature_data == b.segment_feature_data
    &&& a.mb_segment_abs_delta == b.mb_segment_abs_delta
    &&& a.ref_lf_deltas == b.ref_lf_deltas
    &&& a.mode_lf_deltas == b.mode_lf_deltas
}

/// The header said the same about segments and the loop filter.
pub open spec fn same_switches(a: Macroblockd, b: Macroblockd) -> bool {
    &&& same_adjustments(a, b)
    &&& a.segmentation_enabled == b.segmentation_enabled
    &&& a.update_mb_segmentation_map == b.update_mb_segmentation_map
    &&& a.update_mb_segmentation_data == b.update_mb_segmentation_data
    &&& a.update_mb_segmentation_map != 0 ==> a.mb_segment_tree_probs == b.mb_segment_tree_probs
    &&& a.mode_ref_lf_delta_enabled == b.mode_ref_lf_delta_enabled
}

/// The header said the same about the loop filter.
pub open spec fn same_filter(a: Vp8Common, b: Vp8Common) -> bool {
    &&& a.clamp_type == b.clamp_type
    &&& a.filter_type == b.filter_type
    &&& a.filter_level == b.filter_level
    &&& a.sharpness_level == b.sharpness_level
}

/// The header said the same about quantizers and about the frames and probabilities to keep.
pub open spec fn same_rest(a: Vp8Common, b: Vp8Common) -> bool {
    &&& a.base_qindex == b.base_qindex
    &&& a.y1dc_delta_q == b.y1dc_delta_q
    &&& a.y2dc_delta_q == b.y2dc_delta_q
    &&& a.y2ac_delta_q == b.y2ac_delta_q
    &&& a.uvdc_delta_q == b.uvdc_delta_q
    &&& a.uvac_delta_q == b.uvac_delta_q
    &&& a.refresh_last_frame == b.refresh_last_frame
    &&& a.refresh_golden_frame == b.refresh_golden_frame
    &&& a.refresh_alt_ref_frame == b.refresh_alt_ref_frame
    &&& a.copy_buffer_to_gf == b.copy_buffer_to_gf
    &&& a.copy_buffer_to_arf == b.copy_buffer_to_arf
    &&& a.ref_frame_sign_bias[2] == b.ref_frame_sign_bias[2]
    &&& a.ref_frame_sign_bias[3] == b.ref_frame_sign_bias[3]
    &&& a.refresh_entropy_probs == b.refresh_entropy_probs
    &&& a.refresh_entropy_probs == 0 ==> a.lfc == b.lfc
}

/// Two decoders at the start of the same key frame.
spec fn both_started(p: Vp8dComp, q: Vp8dComp) -> bool {
    &&& p.common.frame_type == FrameType::Key
    &&& q.common.frame_type == FrameType::Key
    &&& p.common.fc == q.common.fc
    &&& same_adjustments(p.mb, q.mb)
    &&& p.common.refresh_golden_frame == q.common.refresh_golden_frame
    &&& p.common.refresh_alt_ref_frame == q.common.refresh_alt_ref_frame
    &&& p.common.copy_buffer_to_gf == q.common.copy_buffer_to_gf
    &&& p.common.copy_buffer_to_arf == q.common.copy_buffer_to_arf
    &&& p.common.ref_frame_sign_bias[2] == q.common.ref_frame_sign_bias[2]
    &&& p.common.ref_frame_sign_bias[3] == q.common.ref_frame_sign_bias[3]
}

proof fn lemma_start(p: Vp8dComp, q: Vp8dComp)
    requires
        p.common.frame_type == FrameType::Key,
        q.common.frame_type == FrameType::Key,
        p.common.fc.bmode_prob == q.common.fc.bmode_prob,
    ensures
        both_started(frame_started(p), frame_started(q)),
{
    reveal(frame_started);
    law_key_frame_forgets(p, q);
}

proof fn lemma_segment_header(t: BoolState, a: Macroblockd, b: Macroblockd)
    requires
        same_adjustments(a, b),
    ensures
        ({
            let (x, u) = segment_header(t, a);
            let (y, v) = segment_header(t, b);
            &&& u == v
            &&& same_adjustments(x, y)
            &&& x.segmentation_enabled == y.segmentation_enabled
            &&& x.update_mb_segmentation_map == y.update_mb_segmentation_map
            &&& x.update_mb_segmentation_data == y.update_mb_segmentation_data
            &&& x.update_mb_segmentation_map != 0 ==> x.mb_segment_tree_probs
                == y.mb_segment_tree_probs
        }),
{
    reveal(segment_header);
    reveal(segment_data);
    reveal(segment_tree);
}

proof fn lemma_lf_deltas(t: BoolState, a: Macroblockd, b: Macroblockd)
    requires
        a.ref_lf_deltas == b.ref_lf_deltas,
        a.mode_lf_deltas == b.mode_lf_deltas,
    ensures
        ({
            let (x, u) = lf_deltas(t, a);
            let (y, v) = lf_deltas(t, b);
            &&& u == v
            &&& x.ref_lf_deltas == y.ref_lf_deltas
            &&& x.mode_lf_deltas == y.mode_lf_deltas
            &&& x.mode_ref_lf_delta_enabled == y.mode_ref_lf_delta_enabled
            &&& x == (Macroblockd {
                mode_ref_lf_delta_enabled: x.mode_ref_lf_delta_enabled,
                mode_ref_lf_delta_update: x.mode_ref_lf_delta_update,
                ref_lf_deltas: x.ref_lf_deltas,
                mode_lf_deltas: x.mode_lf_deltas,
                ..a
            })
            &&& y == (Macroblockd {
                mode_ref_lf_delta_enabled: y.mode_ref_lf_delta_enabled,
                mode_ref_lf_delta_update: y.mode_ref_lf_delta_update,
                ref_lf_deltas: y.ref_lf_deltas,
                mode_lf_deltas: y.mode_lf_deltas,
                ..b
            })
        }),
{
    reveal(lf_deltas);
}

proof fn lemma_first(t: BoolState, p: Vp8dComp, q: Vp8dComp)
    requires
        both_started(p, q),
    ensures
        ({
            let (x, u) = first_header(t, p);
            let (y, v) = first_header(t, q);
            &&& u == v
            &&& both_started(x, y)
            &&& same_switches(x.mb, y.mb)
            &&& same_filter(x.common, y.common)
        }),
{
    reveal(first_header);
    reveal(clamp_header);
    let t1 = clamp_header(t, p.common).1;
    lemma_segment_header(t1, p.mb, q.mb);
    let (a, t2) = segment_header(t1, p.mb);
    let b = segment_header(t1, q.mb).0;
    let t3 = read_bool(t2, 128).1;
    let t4 = read_literal(t3, 6).1;
    let t5 = read_literal(t4, 3).1;
    lemma_lf_deltas(t5, a, b);
}

proof fn lemma_rest(
    t: BoolState,
    p: Vp8dComp,
    q: Vp8dComp,
    a: Vp8Common,
    b: Vp8Common,
    i: int,
    j: int,
)
    requires
        both_started(p, q),
        same_switches(p.mb, q.mb),
        same_filter(p.common, q.common),
    ensures
        ({
            let (x, u) = rest_header(t, p, a, i);
            let (y, v) = rest_header(t, q, b, j);
            &&& u == v
            &&& both_started(x, y)
            &&& same_switches(x.mb, y.mb)
            &&& same_filter(x.common, y.common)
            &&& same_rest(x.common, y.common)
        }),
{
    reveal(rest_header);
    reveal(quant_header);
    reveal(ref_header);
    reveal(keep_header);
    lemma_bit(quant_header(t, p.common).1, 128);
}

proof fn lemma_bit(t: BoolState, prob: int)
    ensures
        read_bool(t, prob).0 == 0 || read_bool(t, prob).0 == 1,
{
    reveal(read_bool);
}

proof fn lemma_modes(t: BoolState, p: Vp8dComp, q: Vp8dComp)
    requires
        both_started(p, q),
        same_switches(p.mb, q.mb),
        same_filter(p.common, q.common),
        same_rest(p.common, q.common),
    ensures
        ({
            let x = modes_known(p, t);
            let y = modes_known(q, t);
            &&& both_started(x, y)
            &&& same_switches(x.mb, y.mb)
            &&& same_filter(x.common, y.common)
            &&& same_rest(x.common, y.common)
            &&& x.common.mb_no_coeff_skip == y.common.mb_no_coeff_skip
            &&& x.prob_skip_false == y.prob_skip_false
        }),
{
    reveal(mode_header);
}

proof fn lemma_mb_frame(
    s: MbState,
    env: MbEnv,
    refs: RefPics,
    r: int,
    c: int,
    rows: int,
    cols: int,
)
    ensures
        mb_frame(mb_decode(s, env, refs, r, c, rows, cols).mb, s.mb),
{
    reveal(mb_decode);
    reveal(mb_tokens);
    reveal(mb_intra);
    reveal(mb_residual);
}

proof fn lemma_row_frame(s: RowState, f: FrameEnv, r: int, n: int)
    ensures
        mb_frame(row_mbs(s, f, r, n).mb, s.mb),
    decreases n,
{
    if n > 0 {
        let u = row_mbs(s, f, r, n - 1);
        lemma_row_frame(s, f, r, n - 1);
        let mi = u.g[r + 1][n];
        let c = n - 1;
        let m = MbState {
            t: u.ts[r % f.parts],
            above: u.above[c],
            left: u.left,
            mb: Macroblockd {
                corrupted: u.mb.corrupted | f.corrupted[ref_number(
                    mi.mbmi.ref_frame,
                )],
                ..u.mb
            },
            mi,
            d: u.d,
        };
        lemma_mb_frame(m, f.env, f.refs, r, c, f.rows, f.cols);
        assert(one_mb(u, f, r, c).mb == (Macroblockd {
            corrupted: one_mb(u, f, r, c).mb.corrupted,
            ..mb_decode(m, f.env, f.refs, r, c, f.rows, f.cols).mb
        }));
    }
}

proof fn lemma_rows_frame(s: RowState, f: FrameEnv, n: int)
    ensures
        mb_frame(all_rows(s, f, n).mb, s.mb),
    decreases n,
{
    if n > 0 {
        reveal(one_row);
        let u = all_rows(s, f, n - 1);
        lemma_rows_frame(s, f, n - 1);
        let v = RowState { left: no_context(), d: left_lines(u.d, n - 1), ..u };
        lemma_row_frame(v, f, n - 1, f.cols);
    }
}

/// Reconstructing macroblocks leaves alone what the header says.
pub proof fn law_rows_keep_header(s: RowState, f: FrameEnv)
    ensures
        mb_frame(frame_rows(s, f).mb, s.mb),
{
    reveal(frame_rows);
    lemma_rows_frame(RowState { d: top_lines(s.d, f.cols), ..s }, f, f.rows);
}

proof fn lemma_macroblocks(
    p: Vp8dComp,
    t: BoolState,
    g: ModeGrid,
    ts: Seq<BoolState>,
    before: i32,
    q: Vp8dComp,
)
    requires
        macroblocks_decoded(p, t, g, ts, before, q, Ok(())),
    ensures
        ({
            let x = modes_known(p, t);
            &&& mb_frame(q.mb, x.mb)
            &&& q.common.fc == (if x.common.refresh_entropy_probs == 0 {
                x.common.lfc
            } else {
                x.common.fc
            })
            &&& same_rest(q.common, x.common)
            &&& same_filter(q.common, x.common)
            &&& q.common.mb_no_coeff_skip == x.common.mb_no_coeff_skip
            &&& q.prob_skip_false == x.prob_skip_false
            &&& q.decoded_key_frame == (if p.decoded_key_frame == 0 {
                1
            } else {
                p.decoded_key_frame
            })
        }),
{
    reveal(macroblocks_decoded);
    reveal(frame_finished);
    reveal(rows_end);
    let x = modes_known(p, t);
    let modes = frame_modes(p, g, t).0;
    law_rows_keep_header(
        rows_start(x, modes, cleared_above(p), ts),
        frame_env(filter_started(x)),
    );
}

/// A key frame makes a decoder forget what was decoded before: two decoders with different
/// histories that both decode it hold afterwards the same probabilities of motion vectors,
/// coefficients and modes, the same quantizers, segment values, loop filter settings and
/// adjustments, and the same sides of the reference frames. Later frames are therefore read alike.
pub proof fn law_key_frame_forgets_history(
    p: Vp8dComp,
    q: Vp8dComp,
    f: FragmentData,
    x: Vp8dComp,
    y: Vp8dComp,
)
    requires
        p.ec_active == q.ec_active,
        f.data[0]@.len() >= 3,
        f.data[0]@[0] % 2 == 0,
        p.common.fc.bmode_prob == q.common.fc.bmode_prob,
        frame_decoded(p, f, x, Ok(())),
        frame_decoded(q, f, y, Ok(())),
    ensures
        x.common.fc == y.common.fc,
        same_switches(x.mb, y.mb),
        same_filter(x.common, y.common),
        same_rest(x.common, y.common),
        x.common.mb_no_coeff_skip == y.common.mb_no_coeff_skip,
        x.prob_skip_false == y.prob_skip_false,
{
    reveal(frame_decoded);
    reveal(body_decoded);
    let d = f.data[0]@;
    let (p1, tag) = frame_tag(p, d);
    let q1 = frame_tag(q, d).0;
    law_tag_touches_little(p, q, d);
    law_tag_touches_little(q, p, d);
    law_tag_bytes(p, d);
    law_tag_bytes(q, d);
    let (len, at) = tag->Ok_0;
    let t0 = fresh(d.subrange(at, d.len() as int));
    lemma_start(p1, q1);
    let (ps, qs) = (frame_started(p1), frame_started(q1));
    lemma_first(t0, ps, qs);
    let (p2, t1) = first_header(t0, ps);
    let q2 = first_header(t0, qs).0;
    let (tp, t2) = partition_header(t1, p2.common.multi_token_partition);
    let tq = partition_header(t1, q2.common.multi_token_partition).0;
    assert(partition_header(t1, q2.common.multi_token_partition).1 == t2) by {
        reveal(partition_header);
    }
    let (p3, q3) = (with_partitions(p2, tp), with_partitions(q2, tq));
    let (gp, gq) = (first_mode_reset(p1.common.mip@), first_mode_reset(q1.common.mip@));
    let (i, j) = (gp[1][1].mbmi.segment_id as int, gq[1][1].mbmi.segment_id as int);
    lemma_rest(t2, p3, q3, x.common, y.common, i, j);
    let (p4, t3) = rest_header(t2, p3, x.common, i);
    let q4 = rest_header(t2, q3, y.common, j).0;
    lemma_modes(t3, p4, q4);
    let (np, nq) = (partition_number(tp), partition_number(tq));
    let ap = partitions_of(f, at + len, np, p1.ec_active != 0);
    let aq = partitions_of(f, at + len, nq, q1.ec_active != 0);
    lemma_macroblocks(p4, t3, gp, token_readers(ap->0, np), p.independent_partitions, x);
    lemma_macroblocks(q4, t3, gq, token_readers(aq->0, nq), q.independent_partitions, y);
}

/// Probabilities that a frame does not ask to keep are gone after it: the next frame starts from
/// those that held before it, or from the default ones after a key frame.
pub proof fn law_probabilities_come_back(p: Vp8dComp, f: FragmentData, x: Vp8dComp)
    requires
        f.data[0]@.len() >= 3,
        frame_decoded(p, f, x, Ok(())),
        x.common.refresh_entropy_probs == 0,
    ensures
        f.data[0]@[0] % 2 == 1 ==> x.common.fc == p.common.fc,
        f.data[0]@[0] % 2 == 0 ==> {
            &&& x.common.fc.mvc == VP8_DEFAULT_MV_CONTEXT
            &&& x.common.fc.coef_probs == DEFAULT_COEF_PROBS
            &&& x.common.fc.ymode_prob == VP8_YMODE_PROB
            &&& x.common.fc.uv_mode_prob == VP8_UV_MODE_PROB
            &&& x.common.fc.bmode_prob == p.common.fc.bmode_prob
        },
{
    reveal(frame_decoded);
    reveal(body_decoded);
    let d = f.data[0]@;
    let (p1, tag) = frame_tag(p, d);
    law_tag_touches_little(p, p, d);
    law_tag_bytes(p, d);
    let (len, at) = tag->Ok_0;
    let t0 = fresh(d.subrange(at, d.len() as int));
    let ps = frame_started(p1);
    if p1.common.frame_type == FrameType::Key {
        law_key_frame_defaults(p1);
    } else {
        law_inter_frame_keeps(p1);
    }
    let (p2, t1) = first_header(t0, ps);
    law_first_header_touches(t0, ps);
    let (tp, t2) = partition_header(t1, p2.common.multi_token_partition);
    let p3 = with_partitions(p2, tp);
    let g = first_mode_reset(p1.common.mip@);
    let i = g[1][1].mbmi.segment_id as int;
    let (p4, t3) = rest_header(t2, p3, x.common, i);
    lemma_saved(t2, p3, x.common, i);
    reveal(mode_header);
    let np = partition_number(tp);
    let ap = partitions_of(f, at + len, np, p1.ec_active != 0);
    lemma_macroblocks(p4, t3, g, token_readers(ap->0, np), p.independent_partitions, x);
}

proof fn lemma_saved(t: BoolState, p: Vp8dComp, tables: Vp8Common, i: int)
    ensures
        ({
            let x = rest_header(t, p, tables, i).0;
            x.common.refresh_entropy_probs == 0 ==> x.common.lfc == p.common.fc
        }),
{
    reveal(rest_header);
    reveal(quant_header);
    reveal(ref_header);
    reveal(keep_header);
    let c = with_tables(quant_header(t, p.common).0, tables);
    let t1 = ref_header(quant_header(t, p.common).1, c).1;
    lemma_bit(t1, 128);
}

/// No frame changes the probabilities that the modes of subblocks have outside key frames.
pub proof fn law_submode_probabilities_stay(p: Vp8dComp, f: FragmentData, x: Vp8dComp)
    requires
        f.data[0]@.len() >= 3,
        frame_decoded(p, f, x, Ok(())),
    ensures
        x.common.fc.bmode_prob == p.common.fc.bmode_prob,
{
    reveal(frame_decoded);
    reveal(body_decoded);
    let d = f.data[0]@;
    let (p1, tag) = frame_tag(p, d);
    law_tag_touches_little(p, p, d);
    law_tag_bytes(p, d);
    let (len, at) = tag->Ok_0;
    let t0 = fresh(d.subrange(at, d.len() as int));
    let ps = frame_started(p1);
    if p1.common.frame_type == FrameType::Key {
        law_key_frame_defaults(p1);
    } else {
        law_inter_frame_keeps(p1);
    }
    let (p2, t1) = first_header(t0, ps);
    law_first_header_touches(t0, ps);
    let (tp, t2) = partition_header(t1, p2.common.multi_token_partition);
    let p3 = with_partitions(p2, tp);
    let g = first_mode_reset(p1.common.mip@);
    let i = g[1][1].mbmi.segment_id as int;
    let (p4, t3) = rest_header(t2, p3, x.common, i);
    lemma_saved(t2, p3, x.common, i);
    assert(p4.common.fc.bmode_prob == p3.common.fc.bmode_prob) by {
        reveal(rest_header);
        reveal(quant_header);
        reveal(ref_header);
        reveal(keep_header);
    }
    law_mode_header_anew(t3, env_of(p4), env_of(p4));
    let np = partition_number(tp);
    let ap = partitions_of(f, at + len, np, p1.ec_active != 0);
    lemma_macroblocks(p4, t3, g, token_readers(ap->0, np), p.independent_partitions, x);
}

/// Until a key frame was decoded without errors every frame is an error; from then on wrong frames
/// are only marked. The mark is that of the new frame alone, the other buffers stay, and so does
/// what the decoder says of headers.
pub proof fn law_first_frame_intact(p: Vp8dComp, corrupted: i32, before: i32, i: int)
    requires
        0 <= p.dec_fb_ref_idx[0] < 4,
        0 <= i < 4,
    ensures
        ({
            let (q, r) = frame_finished(p, corrupted, before);
            let key = p.common.frame_type == FrameType::Key;
            &&& r is Ok <==> p.decoded_key_frame != 0 || (key && corrupted == 0)
            &&& r matches Err(e) ==> e == VpxCodecErr::VPX_CODEC_CORRUPT_FRAME
                && q.common.error.error_code == e
            &&& r is Ok ==> q.decoded_key_frame != 0
            &&& r is Err ==> q.decoded_key_frame == 0
            &&& i == p.dec_fb_ref_idx[0] ==> q.common.yv12_fb[i].corrupted == corrupted
            &&& i != p.dec_fb_ref_idx[0] ==> q.common.yv12_fb[i] == p.common.yv12_fb[i]
            &&& q.common.yv12_fb[i].planes == p.common.yv12_fb[i].planes
            &&& q.mb == p.mb
            &&& same_rest(q.common, p.common)
            &&& same_filter(q.common, p.common)
            &&& q.common.frame_type == p.common.frame_type
            &&& q.common.show_frame == p.common.show_frame
        }),
{
    reveal(frame_finished);
}

/// A frame counts as wrong where its header and modes were read past the end of the data, or where
/// a macroblock was wrong, and only there.
pub proof fn law_frame_marked(
    p: Vp8dComp,
    t: BoolState,
    g: ModeGrid,
    ts: Seq<BoolState>,
    before: i32,
    q: Vp8dComp,
    r: VpxResult<()>,
)
    requires
        macroblocks_decoded(p, t, g, ts, before, q, r),
        0 <= p.dec_fb_ref_idx[0] < 4,
    ensures
        ({
            let (modes, u) = frame_modes(p, g, t);
            let s = rows_end(modes_known(p, t), modes, cleared_above(p), ts);
            q.common.yv12_fb[p.dec_fb_ref_idx[0] as int].corrupted == 0 <==> error_flag(u) == 0
                && s.mb.corrupted == 0
        }),
{
    reveal(macroblocks_decoded);
    let (modes, u) = frame_modes(p, g, t);
    let s = rows_end(modes_known(p, t), modes, cleared_above(p), ts);
    let (a, b) = (error_flag(u), s.mb.corrupted);
    assert((a | b) == 0 <==> a == 0 && b == 0) by (bit_vector);
}

/// Before the modes of a frame are read, the first macroblock's luma mode is the flat one. All else
/// of the modes of the frame before is still there.
pub proof fn law_first_mode(g: ModeGrid, i: int, j: int)
    requires
        1 < g.len(),
        1 < g[1].len(),
        0 <= i < g.len(),
        0 <= j < g[i].len(),
    ensures
        ({
            let m = first_mode_reset(g)[i][j];
            &&& i == 1 && j == 1 ==> m.mbmi.mode == MbPredictionMode::DcPred
            &&& i != 1 || j != 1 ==> m == g[i][j]
            &&& m.mbmi.segment_id == g[i][j].mbmi.segment_id
            &&& m.mbmi.mv == g[i][j].mbmi.mv
            &&& m.mbmi.ref_frame == g[i][j].mbmi.ref_frame
            &&& m.bmi == g[i][j].bmi
        }),
{
}

} // verus!
