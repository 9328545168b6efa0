//! The modes of one macroblock.

use crate::dboolhuff::{read_bool, BoolState, Vp8Reader};
use crate::findnearmv::{
    clamped2, collect_near, count_split, law_near_start, lemma_contexts, near_all, near_merge,
    near_mvs, near_sort, order_near, split_count, vp8_clamp_mv2, Near,
};
use crate::intramode::{
    cell_ok, get_bmode, get_kf_ymode, get_uv_mode, get_ymode, kf_modes, kf_submodes, read_bmode,
    read_kf_modes, read_uv_mode, read_ymode,
};
use crate::mvread::{get_mv, read_mv};
use crate::reconinter::{bmi_as_mv, bmi_mv, edges_ok, mv_near, mvs_ok};
use crate::splitmv::{
    decode_split_mv, mv_sum, split_kind, split_mvs, split_parts, vp8_check_mv_bounds,
};
use crate::tables::{MvContext, Prob, VP8_MODE_CONTEXTS};
use crate::treereader::vp8_read;
use crate::types::{
    zero_mv, BModeInfo, BPredictionMode, FrameContext, FrameType, MbEdges, MbModeInfo,
    MbPredictionMode, ModeInfo, Mv, MvReferenceFrame,
};
use crate::vp8_loopfilter::mode_number;
use vstd::array::spec_array_update;
use vstd::prelude::*;

verus! {

/// What the frame header says about the modes of macroblocks.
#[derive(Clone, Copy)]
pub struct ModeEnv {
    pub frame_type: FrameType,
    pub segmentation_enabled: u8,
    pub update_mb_segmentation_map: u8,
    pub mb_segment_tree_probs: [Prob; 3],
    pub mb_no_coeff_skip: i32,
    pub prob_skip_false: Prob,
    pub prob_intra: Prob,
    pub prob_last: Prob,
    pub prob_gf: Prob,
    pub fc: FrameContext,
    pub ref_frame_sign_bias: [i32; 4],
}

/// The probability of the first of two ways at a branch of the motion vector modes.
pub open spec fn context_prob(count: int, branch: int) -> int {
    VP8_MODE_CONTEXTS[count][branch] as int
}

/// Reads which frame an inter macroblock is predicted from.
pub open spec fn get_ref(t: BoolState, env: ModeEnv) -> (MvReferenceFrame, BoolState) {
    let (b, t1) = read_bool(t, env.prob_last as int);
    if b == 0 {
        (MvReferenceFrame::Last, t1)
    } else {
        let (c, t2) = read_bool(t1, env.prob_gf as int);
        (if c == 0 {
            MvReferenceFrame::Golden
        } else {
            MvReferenceFrame::Altref
        }, t2)
    }
}

/// The macroblock with the given mode and vector.
pub open spec fn with_mv(mi: ModeInfo, mode: MbPredictionMode, mv: Mv) -> ModeInfo {
    ModeInfo { mbmi: MbModeInfo { mode, mv, ..mi.mbmi }, ..mi }
}

/// Reads the vectors of a macroblock that has new ones: one for all of it, or several.
#[verifier::opaque]
pub open spec fn new_mvs(
    t: BoolState,
    mi: ModeInfo,
    above: ModeInfo,
    left: ModeInfo,
    aboveleft: ModeInfo,
    best: Mv,
    env: ModeEnv,
    e: MbEdges,
) -> (ModeInfo, BoolState) {
    let (b, t1) = read_bool(t, context_prob(split_count(above, left, aboveleft), 3));
    if b != 0 {
        let (m, t2) = split_mvs(t1, mi, left, above, best, env.fc.mvc, e);
        (
            ModeInfo {
                mbmi: MbModeInfo {
                    mv: bmi_mv(m.bmi[15]),
                    mode: MbPredictionMode::SplitMv,
                    is_4x4: true,
                    ..m.mbmi
                },
                ..m
            },
            t2,
        )
    } else {
        let (d, t2) = get_mv(t1, env.fc.mvc);
        let mv = mv_sum(d, best);
        (
            ModeInfo {
                mbmi: MbModeInfo {
                    mv,
                    mode: MbPredictionMode::NewMv,
                    need_to_clamp_mvs: !mv_near(mv, e),
                    ..mi.mbmi
                },
                ..mi
            },
            t2,
        )
    }
}

/// The best guess at a vector among sorted candidates.
pub open spec fn best_of(s: Near, e: MbEdges) -> Mv {
    clamped2(
        if s.cnt[1] >= s.cnt[0] {
            s.mvs[1]
        } else {
            s.mvs[0]
        },
        e,
    )
}

/// Reads the mode and the vectors of an inter macroblock whose reference frame is known.
#[verifier::opaque]
pub open spec fn inter_modes(
    t: BoolState,
    mi: ModeInfo,
    above: ModeInfo,
    left: ModeInfo,
    aboveleft: ModeInfo,
    env: ModeEnv,
    e: MbEdges,
) -> (ModeInfo, BoolState) {
    let near = near_all(above, left, aboveleft, mi.mbmi.ref_frame, env.ref_frame_sign_bias);
    let (b0, t0) = read_bool(t, context_prob(near.cnt[0] as int, 0));
    if b0 == 0 {
        (with_mv(mi, MbPredictionMode::ZeroMv, zero_mv()), t0)
    } else {
        let s = near_sort(near_merge(near));
        let (b1, t1) = read_bool(t0, context_prob(s.cnt[1] as int, 1));
        if b1 == 0 {
            (with_mv(mi, MbPredictionMode::NearestMv, clamped2(s.mvs[1], e)), t1)
        } else {
            let (b2, t2) = read_bool(t1, context_prob(s.cnt[2] as int, 2));
            if b2 == 0 {
                (with_mv(mi, MbPredictionMode::NearMv, clamped2(s.mvs[2], e)), t2)
            } else {
                new_mvs(t2, mi, above, left, aboveleft, best_of(s, e), env, e)
            }
        }
    }
}

/// Reads the modes of the first `n` subblocks of an intra macroblock in an inter frame.
pub open spec fn submodes(t: BoolState, bmi: [BModeInfo; 16], p: Seq<Prob>, n: int) -> (
    [BModeInfo; 16],
    BoolState,
)
    decreases n,
{
    if n <= 0 {
        (bmi, t)
    } else {
        let (b, u) = submodes(t, bmi, p, n - 1);
        let (m, v) = get_bmode(u, p);
        (spec_array_update(b, n - 1, BModeInfo::Intra(m)), v)
    }
}

/// Reads the modes of an intra macroblock in an inter frame.
#[verifier::opaque]
pub open spec fn intra_modes(t: BoolState, mi: ModeInfo, fc: FrameContext) -> (
    ModeInfo,
    BoolState,
) {
    let (y, t1) = get_ymode(t, fc.ymode_prob@);
    let m1 = with_mv(mi, y, zero_mv());
    let (m2, t2) = if y == MbPredictionMode::BPred {
        let (bmi, u) = submodes(t1, m1.bmi, fc.bmode_prob@, 16);
        (ModeInfo { mbmi: MbModeInfo { is_4x4: true, ..m1.mbmi }, bmi }, u)
    } else {
        (m1, t1)
    };
    let (uv, t3) = get_uv_mode(t2, fc.uv_mode_prob@);
    (ModeInfo { mbmi: MbModeInfo { uv_mode: uv, ..m2.mbmi }, ..m2 }, t3)
}

/// Reads the modes of a macroblock in an inter frame.
#[verifier::opaque]
pub open spec fn modes_mv(
    t: BoolState,
    mi: ModeInfo,
    above: ModeInfo,
    left: ModeInfo,
    aboveleft: ModeInfo,
    env: ModeEnv,
    e: MbEdges,
) -> (ModeInfo, BoolState) {
    let (b, t1) = read_bool(t, env.prob_intra as int);
    if b == 0 {
        intra_modes(
            t1,
            ModeInfo {
                mbmi: MbModeInfo { ref_frame: MvReferenceFrame::Intra, ..mi.mbmi },
                ..mi
            },
            env.fc,
        )
    } else {
        let (ref_frame, t2) = get_ref(t1, env);
        inter_modes(
            t2,
            ModeInfo {
                mbmi: MbModeInfo { ref_frame, need_to_clamp_mvs: false, ..mi.mbmi },
                ..mi
            },
            above,
            left,
            aboveleft,
            env,
            e,
        )
    }
}

/// Reads the segment of a macroblock.
pub open spec fn get_segment(t: BoolState, p: [Prob; 3]) -> (int, BoolState) {
    let (b, t1) = read_bool(t, p[0] as int);
    if b != 0 {
        let (c, t2) = read_bool(t1, p[2] as int);
        (2 + c, t2)
    } else {
        read_bool(t1, p[1] as int)
    }
}

/// The segment of a macroblock: read where the map is updated, the first one by default in a
/// key frame, and otherwise as it was.
pub open spec fn segment_of(t: BoolState, mi: ModeInfo, env: ModeEnv) -> (int, BoolState) {
    if env.update_mb_segmentation_map != 0 {
        if env.segmentation_enabled != 0 {
            get_segment(t, env.mb_segment_tree_probs)
        } else {
            (mi.mbmi.segment_id as int, t)
        }
    } else if env.frame_type == FrameType::Key {
        (0, t)
    } else {
        (mi.mbmi.segment_id as int, t)
    }
}

/// Reads whether a macroblock has no coefficients.
pub open spec fn get_skip(t: BoolState, env: ModeEnv) -> (bool, BoolState) {
    if env.mb_no_coeff_skip != 0 {
        let (b, u) = read_bool(t, env.prob_skip_false as int);
        (b != 0, u)
    } else {
        (false, t)
    }
}

/// Reads all that is said of a macroblock before its coefficients.
#[verifier::opaque]
pub open spec fn mb_modes(
    t: BoolState,
    mi: ModeInfo,
    above: ModeInfo,
    left: ModeInfo,
    aboveleft: ModeInfo,
    env: ModeEnv,
    e: MbEdges,
) -> (ModeInfo, BoolState) {
    let (seg, t1) = segment_of(t, mi, env);
    let (skip, t2) = get_skip(t1, env);
    let m = ModeInfo {
        mbmi: MbModeInfo {
            segment_id: seg as u8,
            mb_skip_coeff: skip,
            is_4x4: false,
            ..mi.mbmi
        },
        ..mi
    };
    if env.frame_type == FrameType::Key {
        kf_modes(t2, m, above, left)
    } else {
        modes_mv(t2, m, above, left, aboveleft, env, e)
    }
}

/// Vectors of inter macroblocks that may lead further outside the frame are marked as such.
pub open spec fn inter_ok(mi: ModeInfo, e: MbEdges) -> bool {
    mi.mbmi.ref_frame != MvReferenceFrame::Intra ==> mvs_ok(mi, e)
}

/// Reads one of two ways at a branch of the motion vector modes.
fn read_branch(bc: &mut Vp8Reader<'_>, count: i32, branch: usize) -> (bit: i32)
    requires
        old(bc).wf(),
        0 <= count <= 5,
        branch < 4,
    ensures
        final(bc).wf(),
        (bit as int, final(bc)@) == read_bool(
            old(bc)@,
            context_prob(count as int, branch as int),
        ),
{
    proof {
        lemma_contexts();
    }
    let p: i32 = VP8_MODE_CONTEXTS[count as usize][branch];
    assert(0 <= p <= 255);
    vp8_read(bc, p)
}

fn read_ref(bc: &mut Vp8Reader<'_>, env: &ModeEnv) -> (f: MvReferenceFrame)
    requires
        old(bc).wf(),
    ensures
        final(bc).wf(),
        (f, final(bc)@) == get_ref(old(bc)@, *env),
        f != MvReferenceFrame::Intra,
{
    if vp8_read(bc, env.prob_last as i32) == 0 {
        return MvReferenceFrame::Last;
    }
    if vp8_read(bc, env.prob_gf as i32) == 0 {
        MvReferenceFrame::Golden
    } else {
        MvReferenceFrame::Altref
    }
}

fn read_new_mvs(
    bc: &mut Vp8Reader<'_>,
    mi: &mut ModeInfo,
    above: &ModeInfo,
    left: &ModeInfo,
    aboveleft: &ModeInfo,
    best: Mv,
    env: &ModeEnv,
    e: &MbEdges,
)
    requires
        old(bc).wf(),
        edges_ok(*e),
        cell_ok(*old(mi)),
        !old(mi).mbmi.need_to_clamp_mvs,
    ensures
        final(bc).wf(),
        (*final(mi), final(bc)@) == new_mvs(
            old(bc)@,
            *old(mi),
            *above,
            *left,
            *aboveleft,
            best,
            *env,
            *e,
        ),
        cell_ok(*final(mi)),
        mvs_ok(*final(mi), *e),
{
    proof {
        reveal(new_mvs);
    }
    let count: i32 = count_split(above, left, aboveleft);
    if read_branch(bc, count, 3) != 0 {
        decode_split_mv(bc, mi, left, above, best, &env.fc.mvc, e);
        let last: Mv = bmi_as_mv(&mi.bmi[15]);
        mi.mbmi.mv = last;
        mi.mbmi.mode = MbPredictionMode::SplitMv;
        mi.mbmi.is_4x4 = true;
        assert(last == bmi_mv(mi.bmi[15]));
    } else {
        let d: Mv = read_mv(bc, &env.fc.mvc);
        let mv = Mv {
            row: d.row.wrapping_add(best.row),
            col: d.col.wrapping_add(best.col),
        };
        mi.mbmi.mv = mv;
        mi.mbmi.need_to_clamp_mvs = vp8_check_mv_bounds(&mv, e);
        mi.mbmi.mode = MbPredictionMode::NewMv;
    }
}

fn read_inter_modes(
    bc: &mut Vp8Reader<'_>,
    mi: &mut ModeInfo,
    above: &ModeInfo,
    left: &ModeInfo,
    aboveleft: &ModeInfo,
    env: &ModeEnv,
    e: &MbEdges,
)
    requires
        old(bc).wf(),
        edges_ok(*e),
        cell_ok(*old(mi)),
        !old(mi).mbmi.need_to_clamp_mvs,
    ensures
        final(bc).wf(),
        (*final(mi), final(bc)@) == inter_modes(
            old(bc)@,
            *old(mi),
            *above,
            *left,
            *aboveleft,
            *env,
            *e,
        ),
        cell_ok(*final(mi)),
        mvs_ok(*final(mi), *e),
{
    proof {
        reveal(inter_modes);
    }
    let (mut mvs, mut cnt, n): ([Mv; 4], [i32; 4], usize) = collect_near(
        above,
        left,
        aboveleft,
        mi.mbmi.ref_frame,
        &env.ref_frame_sign_bias,
    );
    if read_branch(bc, cnt[0], 0) == 0 {
        mi.mbmi.mode = MbPredictionMode::ZeroMv;
        mi.mbmi.mv = Mv { row: 0, col: 0 };
        return ;
    }
    order_near(&mut mvs, &mut cnt, n);
    assert(cnt[0] <= 5 && cnt[1] <= 5 && cnt[2] <= 5);
    if read_branch(bc, cnt[1], 1) == 0 {
        mi.mbmi.mode = MbPredictionMode::NearestMv;
        mi.mbmi.mv = vp8_clamp_mv2(mvs[1], e);
        return ;
    }
    if read_branch(bc, cnt[2], 2) == 0 {
        mi.mbmi.mode = MbPredictionMode::NearMv;
        mi.mbmi.mv = vp8_clamp_mv2(mvs[2], e);
        return ;
    }
    let best: Mv = vp8_clamp_mv2(
        if cnt[1] >= cnt[0] {
            mvs[1]
        } else {
            mvs[0]
        },
        e,
    );
    read_new_mvs(bc, mi, above, left, aboveleft, best, env, e);
}

fn read_intra_modes(bc: &mut Vp8Reader<'_>, mi: &mut ModeInfo, fc: &FrameContext)
    requires
        old(bc).wf(),
        cell_ok(*old(mi)),
    ensures
        final(bc).wf(),
        (*final(mi), final(bc)@) == intra_modes(old(bc)@, *old(mi), *fc),
        cell_ok(*final(mi)),
        final(mi).mbmi.ref_frame == old(mi).mbmi.ref_frame,
{
    proof {
        reveal(intra_modes);
    }
    let ym: MbPredictionMode = read_ymode(bc, &fc.ymode_prob);
    mi.mbmi.mv = Mv { row: 0, col: 0 };
    mi.mbmi.mode = ym;
    if ym == MbPredictionMode::BPred {
        mi.mbmi.is_4x4 = true;
        let ghost t1 = bc@;
        let ghost m1 = *mi;
        let mut j: usize = 0;
        while j < 16
            invariant
                j <= 16,
                bc.wf(),
                mi.mbmi == m1.mbmi,
                cell_ok(*mi),
                (mi.bmi, bc@) == submodes(t1, m1.bmi, fc.bmode_prob@, j as int),
            decreases 16 - j,
        {
            let m: BPredictionMode = read_bmode(bc, &fc.bmode_prob);
            mi.bmi[j] = BModeInfo::Intra(m);
            j += 1;
        }
    }
    mi.mbmi.uv_mode = read_uv_mode(bc, &fc.uv_mode_prob);
}

/// Reads the modes of a macroblock in an inter frame.
pub fn read_mb_modes_mv(
    bc: &mut Vp8Reader<'_>,
    mi: &mut ModeInfo,
    above: &ModeInfo,
    left: &ModeInfo,
    aboveleft: &ModeInfo,
    env: &ModeEnv,
    e: &MbEdges,
)
    requires
        old(bc).wf(),
        edges_ok(*e),
        cell_ok(*old(mi)),
    ensures
        final(bc).wf(),
        (*final(mi), final(bc)@) == modes_mv(
            old(bc)@,
            *old(mi),
            *above,
            *left,
            *aboveleft,
            *env,
            *e,
        ),
        cell_ok(*final(mi)),
        inter_ok(*final(mi), *e),
        !old(mi).mbmi.is_4x4 ==> modes_agree(*final(mi), *e),
{
    proof {
        if !mi.mbmi.is_4x4 {
            law_modes_fit_together(bc@, *mi, *above, *left, *aboveleft, *env, *e);
        }
        reveal(modes_mv);
    }
    if vp8_read(bc, env.prob_intra as i32) == 0 {
        mi.mbmi.ref_frame = MvReferenceFrame::Intra;
        read_intra_modes(bc, mi, &env.fc);
    } else {
        mi.mbmi.need_to_clamp_mvs = false;
        mi.mbmi.ref_frame = read_ref(bc, env);
        read_inter_modes(bc, mi, above, left, aboveleft, env, e);
    }
}

/// Reads the segment of a macroblock where the frame has a new map of segments.
fn read_mb_features(bc: &mut Vp8Reader<'_>, mi: &mut MbModeInfo, env: &ModeEnv)
    requires
        old(bc).wf(),
        env.update_mb_segmentation_map != 0,
        old(mi).segment_id < 4,
    ensures
        final(bc).wf(),
        final(mi).segment_id < 4,
        ({
            let (seg, u) = if env.segmentation_enabled != 0 {
                get_segment(old(bc)@, env.mb_segment_tree_probs)
            } else {
                (old(mi).segment_id as int, old(bc)@)
            };
            *final(mi) == (MbModeInfo { segment_id: seg as u8, ..*old(mi) }) && final(bc)@ == u
        }),
{
    if env.segmentation_enabled != 0 && env.update_mb_segmentation_map != 0 {
        if vp8_read(bc, env.mb_segment_tree_probs[0] as i32) != 0 {
            mi.segment_id = (2 + vp8_read(bc, env.mb_segment_tree_probs[2] as i32)) as u8;
        } else {
            mi.segment_id = vp8_read(bc, env.mb_segment_tree_probs[1] as i32) as u8;
        }
    }
}

/// Reads all that is said of a macroblock before its coefficients.
pub fn decode_mb_mode_mvs(
    bc: &mut Vp8Reader<'_>,
    mi: &mut ModeInfo,
    above: &ModeInfo,
    left: &ModeInfo,
    aboveleft: &ModeInfo,
    env: &ModeEnv,
    e: &MbEdges,
)
    requires
        old(bc).wf(),
        edges_ok(*e),
        cell_ok(*old(mi)),
        cell_ok(*above),
        cell_ok(*left),
    ensures
        final(bc).wf(),
        (*final(mi), final(bc)@) == mb_modes(
            old(bc)@,
            *old(mi),
            *above,
            *left,
            *aboveleft,
            *env,
            *e,
        ),
        cell_ok(*final(mi)),
        inter_ok(*final(mi), *e),
{
    proof {
        reveal(mb_modes);
    }
    if env.update_mb_segmentation_map != 0 {
        read_mb_features(bc, &mut mi.mbmi, env);
    } else if env.frame_type == FrameType::Key {
        mi.mbmi.segment_id = 0;
    }
    if env.mb_no_coeff_skip != 0 {
        mi.mbmi.mb_skip_coeff = vp8_read(bc, env.prob_skip_false as i32) != 0;
    } else {
        mi.mbmi.mb_skip_coeff = false;
    }
    mi.mbmi.is_4x4 = false;
    if env.frame_type == FrameType::Key {
        read_kf_modes(bc, mi, above, left);
    } else {
        read_mb_modes_mv(bc, mi, above, left, aboveleft, env, e);
    }
}

/// Reading the vectors of parts changes nothing of the macroblock but what follows from them.
proof fn lemma_split_parts_frame(
    t: BoolState,
    mi: ModeInfo,
    left: ModeInfo,
    above: ModeInfo,
    best: Mv,
    mvc: [MvContext; 2],
    e: MbEdges,
    s: int,
    n: int,
)
    ensures
        ({
            let m = split_parts(t, mi, left, above, best, mvc, e, s, n).0;
            m.mbmi == (MbModeInfo { need_to_clamp_mvs: m.mbmi.need_to_clamp_mvs, ..mi.mbmi })
        }),
    decreases n,
{
    if n > 0 {
        lemma_split_parts_frame(t, mi, left, above, best, mvc, e, s, n - 1);
    }
}

/// The modes of a macroblock fit together: it has subblocks exactly where its mode says so, and an
/// intra mode exactly where it is predicted from its own frame. Without motion its vector is zero;
/// a vector taken over from a neighbour stays near the frame and needs no limit; that of a split
/// macroblock is the one of its last subblock.
pub open spec fn modes_agree(m: ModeInfo, e: MbEdges) -> bool {
    let mode = m.mbmi.mode;
    &&& m.mbmi.is_4x4 <==> mode == MbPredictionMode::BPred || mode == MbPredictionMode::SplitMv
    &&& m.mbmi.ref_frame == MvReferenceFrame::Intra <==> mode_number(mode) <= 4
    &&& m.mbmi.ref_frame == MvReferenceFrame::Intra || mode == MbPredictionMode::ZeroMv
        ==> m.mbmi.mv == zero_mv()
    &&& mode == MbPredictionMode::NearestMv || mode == MbPredictionMode::NearMv ==> {
        &&& !m.mbmi.need_to_clamp_mvs
        &&& e.left - 128 <= m.mbmi.mv.col <= e.right + 128
        &&& e.top - 128 <= m.mbmi.mv.row <= e.bottom + 128
    }
    &&& mode == MbPredictionMode::SplitMv ==> m.mbmi.mv == bmi_mv(m.bmi[15])
}

/// What is read of a macroblock in an inter frame fits together.
pub proof fn law_modes_fit_together(
    t: BoolState,
    mi: ModeInfo,
    above: ModeInfo,
    left: ModeInfo,
    aboveleft: ModeInfo,
    env: ModeEnv,
    e: MbEdges,
)
    requires
        !mi.mbmi.is_4x4,
        edges_ok(e),
    ensures
        modes_agree(modes_mv(t, mi, above, left, aboveleft, env, e).0, e),
{
    reveal(modes_mv);
    reveal(intra_modes);
    reveal(inter_modes);
    reveal(new_mvs);
    reveal(split_mvs);
    reveal(get_ymode);
    let (b, t1) = read_bool(t, env.prob_intra as int);
    if b != 0 {
        let (ref_frame, t2) = get_ref(t1, env);
        let m0 = ModeInfo {
            mbmi: MbModeInfo { ref_frame, need_to_clamp_mvs: false, ..mi.mbmi },
            ..mi
        };
        let near = near_all(above, left, aboveleft, ref_frame, env.ref_frame_sign_bias);
        let s = near_sort(near_merge(near));
        let (b0, u0) = read_bool(t2, context_prob(near.cnt[0] as int, 0));
        let (b1, u1) = read_bool(u0, context_prob(s.cnt[1] as int, 1));
        let (b2, u2) = read_bool(u1, context_prob(s.cnt[2] as int, 2));
        let (b3, u3) = read_bool(u2, context_prob(split_count(above, left, aboveleft), 3));
        let (k, n, u4) = split_kind(u3);
        lemma_split_parts_frame(u4, m0, left, above, best_of(s, e), env.fc.mvc, e, k, n);
    }
}

proof fn lemma_flag(t: BoolState, prob: int)
    ensures
        read_bool(t, prob).0 == 0 || read_bool(t, prob).0 == 1,
{
    reveal(read_bool);
}

/// The segment of a macroblock: with a new map, a number of two bits of which the second has its
/// own probability after each value of the first. Without a new map it stays as it was, whether
/// segments are used or not, but that a key frame puts all macroblocks in the first segment.
pub proof fn law_segment_lasts(t: BoolState, mi: ModeInfo, env: ModeEnv)
    ensures
        ({
            let (seg, u) = segment_of(t, mi, env);
            let p = env.mb_segment_tree_probs;
            let (a, t1) = read_bool(t, p[0] as int);
            let (b, t2) = read_bool(t1, p[1 + a] as int);
            &&& env.update_mb_segmentation_map != 0 && env.segmentation_enabled != 0 ==> {
                &&& seg == 2 * a + b
                &&& u == t2
                &&& 0 <= seg < 4
            }
            &&& env.update_mb_segmentation_map == 0 ==> u == t
            &&& env.update_mb_segmentation_map == 0 && env.frame_type == FrameType::Inter
                ==> seg == mi.mbmi.segment_id
            &&& env.update_mb_segmentation_map == 0 && env.frame_type == FrameType::Key ==> seg
                == 0
        }),
{
    let p = env.mb_segment_tree_probs;
    lemma_flag(t, p[0] as int);
    let t1 = read_bool(t, p[0] as int).1;
    lemma_flag(t1, p[1] as int);
    lemma_flag(t1, p[2] as int);
}

/// What is read of a macroblock's segment is what it has afterwards, in key frames and others.
pub proof fn law_segment_and_skip_kept(
    t: BoolState,
    mi: ModeInfo,
    above: ModeInfo,
    left: ModeInfo,
    aboveleft: ModeInfo,
    env: ModeEnv,
    e: MbEdges,
)
    requires
        mi.mbmi.segment_id < 4,
    ensures
        ({
            let m = mb_modes(t, mi, above, left, aboveleft, env, e).0;
            let (seg, t1) = segment_of(t, mi, env);
            &&& m.mbmi.segment_id == seg
            &&& env.mb_no_coeff_skip == 0 ==> !m.mbmi.mb_skip_coeff
            &&& env.mb_no_coeff_skip != 0 ==> (m.mbmi.mb_skip_coeff <==> read_bool(
                t1,
                env.prob_skip_false as int,
            ).0 == 1)
        }),
{
    reveal(mb_modes);
    reveal(kf_modes);
    reveal(modes_mv);
    reveal(intra_modes);
    reveal(inter_modes);
    reveal(new_mvs);
    reveal(split_mvs);
    law_segment_lasts(t, mi, env);
    let (seg, t1) = segment_of(t, mi, env);
    lemma_flag(t1, env.prob_skip_false as int);
    let (skip, t2) = get_skip(t1, env);
    let m = ModeInfo {
        mbmi: MbModeInfo {
            segment_id: seg as u8,
            mb_skip_coeff: skip,
            is_4x4: false,
            ..mi.mbmi
        },
        ..mi
    };
    if env.frame_type == FrameType::Key {
        let (y, s1) = get_kf_ymode(t2);
        let m1 = ModeInfo {
            mbmi: MbModeInfo { ref_frame: MvReferenceFrame::Intra, mode: y, ..m.mbmi },
            ..m
        };
        lemma_kf_submodes_mbmi(
            s1,
            ModeInfo { mbmi: MbModeInfo { is_4x4: true, ..m1.mbmi }, ..m1 },
            above,
            left,
            16,
        );
    } else {
        let (b, s1) = read_bool(t2, env.prob_intra as int);
        if b != 0 {
            let (ref_frame, s2) = get_ref(s1, env);
            let m0 = ModeInfo {
                mbmi: MbModeInfo { ref_frame, need_to_clamp_mvs: false, ..m.mbmi },
                ..m
            };
            let near = near_all(above, left, aboveleft, ref_frame, env.ref_frame_sign_bias);
            let s = near_sort(near_merge(near));
            let (b0, u0) = read_bool(s2, context_prob(near.cnt[0] as int, 0));
            let (b1, u1) = read_bool(u0, context_prob(s.cnt[1] as int, 1));
            let (b2, u2) = read_bool(u1, context_prob(s.cnt[2] as int, 2));
            let (b3, u3) = read_bool(u2, context_prob(split_count(above, left, aboveleft), 3));
            let (k, n, u4) = split_kind(u3);
            lemma_split_parts_frame(u4, m0, left, above, best_of(s, e), env.fc.mvc, e, k, n);
        }
    }
}

proof fn lemma_kf_submodes_mbmi(
    s: BoolState,
    mi: ModeInfo,
    above: ModeInfo,
    left: ModeInfo,
    n: int,
)
    ensures
        kf_submodes(s, mi, above, left, n).0.mbmi == mi.mbmi,
    decreases n,
{
    if n > 0 {
        lemma_kf_submodes_mbmi(s, mi, above, left, n - 1);
    }
}

/// The reference frame of an inter macroblock: a zero is the last frame, a one and a zero the
/// golden one, and two ones the alternate one.
pub proof fn law_reference_bits(t: BoolState, env: ModeEnv)
    ensures
        ({
            let (f, u) = get_ref(t, env);
            let (a, t1) = read_bool(t, env.prob_last as int);
            let (b, t2) = read_bool(t1, env.prob_gf as int);
            &&& f == MvReferenceFrame::Last <==> a == 0
            &&& f == MvReferenceFrame::Golden <==> a == 1 && b == 0
            &&& f == MvReferenceFrame::Altref <==> a == 1 && b == 1
            &&& u == (if a == 0 {
                t1
            } else {
                t2
            })
        }),
{
    lemma_flag(t, env.prob_last as int);
    lemma_flag(read_bool(t, env.prob_last as int).1, env.prob_gf as int);
}

/// The mode of an inter macroblock is read in up to four bits, with probabilities that go by the
/// votes for no motion, the nearest vector, the next one and a split. The nearest and the next
/// vector are limited to the neighbourhood of the frame, and a new vector is what is read and the
/// limited best guess together.
pub proof fn law_inter_mode_bits(
    t: BoolState,
    mi: ModeInfo,
    above: ModeInfo,
    left: ModeInfo,
    aboveleft: ModeInfo,
    env: ModeEnv,
    e: MbEdges,
)
    ensures
        ({
            let (m, u) = inter_modes(t, mi, above, left, aboveleft, env, e);
            let near = near_mvs(
                above,
                left,
                aboveleft,
                mi.mbmi.ref_frame,
                env.ref_frame_sign_bias,
            );
            let (b0, t0) = read_bool(t, VP8_MODE_CONTEXTS[near.cnt[0] as int][0] as int);
            let (b1, t1) = read_bool(t0, VP8_MODE_CONTEXTS[near.cnt[1] as int][1] as int);
            let (b2, t2) = read_bool(t1, VP8_MODE_CONTEXTS[near.cnt[2] as int][2] as int);
            let (b3, t3) = read_bool(t2, VP8_MODE_CONTEXTS[near.cnt[3] as int][3] as int);
            let best = clamped2(near.best_mv, e);
            let (d, t4) = get_mv(t3, env.fc.mvc);
            &&& b0 == 0 ==> m.mbmi.mode == MbPredictionMode::ZeroMv && m.mbmi.mv == zero_mv() && u
                == t0
            &&& b0 == 1 && b1 == 0 ==> {
                &&& m.mbmi.mode == MbPredictionMode::NearestMv
                &&& m.mbmi.mv == clamped2(near.nearest, e)
                &&& u == t1
            }
            &&& b0 == 1 && b1 == 1 && b2 == 0 ==> {
                &&& m.mbmi.mode == MbPredictionMode::NearMv
                &&& m.mbmi.mv == clamped2(near.nearby, e)
                &&& u == t2
            }
            &&& b0 == 1 && b1 == 1 && b2 == 1 && b3 == 0 ==> {
                &&& m.mbmi.mode == MbPredictionMode::NewMv
                &&& m.mbmi.mv.row == d.row.wrapping_add(best.row)
                &&& m.mbmi.mv.col == d.col.wrapping_add(best.col)
                &&& u == t4
            }
            &&& b0 == 1 && b1 == 1 && b2 == 1 && b3 == 1 ==> {
                let (x, t5) = split_mvs(t3, mi, left, above, best, env.fc.mvc, e);
                &&& m.mbmi.mode == MbPredictionMode::SplitMv
                &&& m.bmi == x.bmi
                &&& m.mbmi.mv == bmi_mv(x.bmi[15])
                &&& u == t5
            }
        }),
{
    reveal(inter_modes);
    reveal(new_mvs);
    let near = near_mvs(above, left, aboveleft, mi.mbmi.ref_frame, env.ref_frame_sign_bias);
    let t0 = read_bool(t, VP8_MODE_CONTEXTS[near.cnt[0] as int][0] as int).1;
    let t1 = read_bool(t0, VP8_MODE_CONTEXTS[near.cnt[1] as int][1] as int).1;
    let t2 = read_bool(t1, VP8_MODE_CONTEXTS[near.cnt[2] as int][2] as int).1;
    lemma_flag(t, VP8_MODE_CONTEXTS[near.cnt[0] as int][0] as int);
    lemma_flag(t0, VP8_MODE_CONTEXTS[near.cnt[1] as int][1] as int);
    lemma_flag(t1, VP8_MODE_CONTEXTS[near.cnt[2] as int][2] as int);
    lemma_flag(t2, VP8_MODE_CONTEXTS[near.cnt[3] as int][3] as int);
    let a = near_all(above, left, aboveleft, mi.mbmi.ref_frame, env.ref_frame_sign_bias);
    let s = near_sort(near_merge(a));
    law_near_start(above, left, aboveleft, mi.mbmi.ref_frame, env.ref_frame_sign_bias);
    assert(best_of(s, e) == clamped2(near.best_mv, e));
}

/// Of a macroblock's modes in the frame before only its segment matters: what is read for it does
/// not depend on how it was predicted there.
pub proof fn law_modes_forget_frame_before(
    t: BoolState,
    x: ModeInfo,
    y: ModeInfo,
    above: ModeInfo,
    left: ModeInfo,
    aboveleft: ModeInfo,
    env: ModeEnv,
    e: MbEdges,
)
    requires
        x.mbmi.segment_id == y.mbmi.segment_id,
        x.bmi == y.bmi,
    ensures
        ({
            let (a, u) = mb_modes(t, x, above, left, aboveleft, env, e);
            let (b, v) = mb_modes(t, y, above, left, aboveleft, env, e);
            &&& u == v
            &&& a.mbmi.mode == b.mbmi.mode
            &&& a.mbmi.ref_frame == b.mbmi.ref_frame
            &&& a.mbmi.is_4x4 == b.mbmi.is_4x4
            &&& a.mbmi.mb_skip_coeff == b.mbmi.mb_skip_coeff
            &&& a.mbmi.segment_id == b.mbmi.segment_id
            &&& a.bmi == b.bmi
            &&& a.mbmi.ref_frame == MvReferenceFrame::Intra ==> a.mbmi.uv_mode == b.mbmi.uv_mode
            &&& env.frame_type == FrameType::Inter ==> a.mbmi.mv == b.mbmi.mv
            &&& a.mbmi.ref_frame != MvReferenceFrame::Intra ==> a.mbmi.need_to_clamp_mvs
                == b.mbmi.need_to_clamp_mvs
        }),
{
    reveal(mb_modes);
    let (seg, t1) = segment_of(t, x, env);
    let (skip, t2) = get_skip(t1, env);
    let x1 = ModeInfo {
        mbmi: MbModeInfo {
            segment_id: seg as u8,
            mb_skip_coeff: skip,
            is_4x4: false,
            ..x.mbmi
        },
        ..x
    };
    let y1 = ModeInfo {
        mbmi: MbModeInfo {
            segment_id: seg as u8,
            mb_skip_coeff: skip,
            is_4x4: false,
            ..y.mbmi
        },
        ..y
    };
    if env.frame_type == FrameType::Key {
        reveal(kf_modes);
        let (m, s1) = get_kf_ymode(t2);
        let x2 = ModeInfo {
            mbmi: MbModeInfo { ref_frame: MvReferenceFrame::Intra, mode: m, ..x1.mbmi },
            ..x1
        };
        let y2 = ModeInfo {
            mbmi: MbModeInfo { ref_frame: MvReferenceFrame::Intra, mode: m, ..y1.mbmi },
            ..y1
        };
        lemma_kf_submodes_bmi(
            s1,
            ModeInfo { mbmi: MbModeInfo { is_4x4: true, ..x2.mbmi }, ..x2 },
            ModeInfo { mbmi: MbModeInfo { is_4x4: true, ..y2.mbmi }, ..y2 },
            above,
            left,
            16,
        );
    } else {
        lemma_modes_mv_forget(t2, x1, y1, above, left, aboveleft, env, e);
    }
}

proof fn lemma_kf_submodes_bmi(
    s: BoolState,
    x: ModeInfo,
    y: ModeInfo,
    above: ModeInfo,
    left: ModeInfo,
    n: int,
)
    requires
        x.bmi == y.bmi,
    ensures
        kf_submodes(s, x, above, left, n).0.bmi == kf_submodes(s, y, above, left, n).0.bmi,
        kf_submodes(s, x, above, left, n).1 == kf_submodes(s, y, above, left, n).1,
        kf_submodes(s, x, above, left, n).0.mbmi == x.mbmi,
        kf_submodes(s, y, above, left, n).0.mbmi == y.mbmi,
    decreases n,
{
    if n > 0 {
        lemma_kf_submodes_bmi(s, x, y, above, left, n - 1);
    }
}

proof fn lemma_modes_mv_forget(
    t: BoolState,
    x: ModeInfo,
    y: ModeInfo,
    above: ModeInfo,
    left: ModeInfo,
    aboveleft: ModeInfo,
    env: ModeEnv,
    e: MbEdges,
)
    requires
        x.mbmi.segment_id == y.mbmi.segment_id,
        x.mbmi.mb_skip_coeff == y.mbmi.mb_skip_coeff,
        x.mbmi.is_4x4 == y.mbmi.is_4x4,
        x.bmi == y.bmi,
    ensures
        ({
            let (a, u) = modes_mv(t, x, above, left, aboveleft, env, e);
            let (b, v) = modes_mv(t, y, above, left, aboveleft, env, e);
            &&& u == v
            &&& a.mbmi.mode == b.mbmi.mode
            &&& a.mbmi.ref_frame == b.mbmi.ref_frame
            &&& a.mbmi.is_4x4 == b.mbmi.is_4x4
            &&& a.mbmi.mb_skip_coeff == b.mbmi.mb_skip_coeff
            &&& a.mbmi.segment_id == b.mbmi.segment_id
            &&& a.bmi == b.bmi
            &&& a.mbmi.ref_frame == MvReferenceFrame::Intra ==> a.mbmi.uv_mode == b.mbmi.uv_mode
            &&& a.mbmi.mv == b.mbmi.mv
            &&& a.mbmi.ref_frame != MvReferenceFrame::Intra ==> a.mbmi.need_to_clamp_mvs
                == b.mbmi.need_to_clamp_mvs
        }),
{
    reveal(modes_mv);
    reveal(intra_modes);
    reveal(inter_modes);
    reveal(new_mvs);
    reveal(split_mvs);
    let (b, s1) = read_bool(t, env.prob_intra as int);
    if b != 0 {
        let (ref_frame, s2) = get_ref(s1, env);
        assert(ref_frame != MvReferenceFrame::Intra);
        let x0 = ModeInfo {
            mbmi: MbModeInfo { ref_frame, need_to_clamp_mvs: false, ..x.mbmi },
            ..x
        };
        let y0 = ModeInfo {
            mbmi: MbModeInfo { ref_frame, need_to_clamp_mvs: false, ..y.mbmi },
            ..y
        };
        let near = near_all(above, left, aboveleft, ref_frame, env.ref_frame_sign_bias);
        let s = near_sort(near_merge(near));
        let (b0, u0) = read_bool(s2, context_prob(near.cnt[0] as int, 0));
        let (b1, u1) = read_bool(u0, context_prob(s.cnt[1] as int, 1));
        let (b2, u2) = read_bool(u1, context_prob(s.cnt[2] as int, 2));
        let (b3, u3) = read_bool(u2, context_prob(split_count(above, left, aboveleft), 3));
        let (k, n, u4) = split_kind(u3);
        let best = best_of(s, e);
        lemma_split_parts_frame(u4, x0, left, above, best, env.fc.mvc, e, k, n);
        lemma_split_parts_frame(u4, y0, left, above, best, env.fc.mvc, e, k, n);
        lemma_split_parts_forget(u4, x0, y0, left, above, best, env.fc.mvc, e, k, n);
    }
}

proof fn lemma_split_parts_forget(
    t: BoolState,
    x: ModeInfo,
    y: ModeInfo,
    left: ModeInfo,
    above: ModeInfo,
    best: Mv,
    mvc: [MvContext; 2],
    e: MbEdges,
    s: int,
    n: int,
)
    requires
        x.bmi == y.bmi,
        x.mbmi.need_to_clamp_mvs == y.mbmi.need_to_clamp_mvs,
    ensures
        ({
            let (a, u) = split_parts(t, x, left, above, best, mvc, e, s, n);
            let (b, v) = split_parts(t, y, left, above, best, mvc, e, s, n);
            a.bmi == b.bmi && u == v && a.mbmi.need_to_clamp_mvs == b.mbmi.need_to_clamp_mvs
        }),
    decreases n,
{
    if n > 0 {
        lemma_split_parts_forget(t, x, y, left, above, best, mvc, e, s, n - 1);
    }
}

} // verus!
