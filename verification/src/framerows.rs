//! The reconstruction of a frame into its buffer.

use crate::alloccommon::buffers_hold;
use crate::dboolhuff::{BoolState, Vp8Reader};
use crate::decodemv::{modes_fit, reach_ok};
use crate::frameheader::{partition_count, partition_number};
use crate::framelines::{borders_repeat, law_decoded_border};
use crate::frametag::indices_ok;
use crate::macroblock::{MbEnv, RefFrames, RefPics};
use crate::mbrows::{
    contexts_ok, decode_rows, frame_rows, mb_frame, reader_states, readers_ok, rows_view,
    FrameEnv, FrameParams, RowState,
};
use crate::reconinter::mask_ok;
use crate::types::{
    EntropyContextPlanes, FramePlanes, Macroblockd, Vp8Common, Vp8dComp, Yv12BufferConfig,
};
use crate::vp8_loopfilter::{
    law_limits_follow_sharpness, levels_ok, lf_frame, lf_ready, limits_of,
    vp8_loop_filter_frame_init, ModeGrid,
};
use vstd::array::{spec_array_fill_for_copy_type, spec_array_update};
use vstd::prelude::*;

verus! {

/// What holds before the macroblocks of a frame are reconstructed.
pub open spec fn rows_ready(p: Vp8dComp) -> bool {
    &&& modes_fit(p.common)
    &&& reach_ok(
        p.common.mip@,
        p.common.mb_rows as int,
        p.common.mb_cols as int,
        p.common.mb_rows as int,
        0,
    )
    &&& indices_ok(p)
    &&& buffers_hold(p.common.yv12_fb, p.common.mb_rows as int, p.common.mb_cols as int)
    &&& p.common.above_context@.len() == p.common.mb_cols
    &&& contexts_ok(p.common.above_context@)
    &&& p.common.left_context.ok()
    &&& lf_ready(p.common.lf_info)
    &&& levels_ok(p.common.lf_info)
    &&& 0 <= p.common.filter_level <= 63
    &&& 0 <= p.common.base_qindex <= 127
    &&& mask_ok(p.mb.fullpixel_mask)
}

/// The state with the loop filter set up for the frame, where it is used.
pub open spec fn filter_started(p: Vp8dComp) -> Vp8dComp {
    if p.common.filter_level != 0 {
        Vp8dComp {
            common: Vp8Common {
                lf_info: lf_frame(
                    p.common.lf_info,
                    p.common.last_sharpness_level,
                    p.common.sharpness_level,
                    p.mb,
                    p.common.filter_level as int,
                ),
                last_sharpness_level: p.common.sharpness_level,
                ..p.common
            },
            ..p
        }
    } else {
        p
    }
}

/// Frame buffer number `i` of those that the frame uses: its own, and its reference frames.
pub open spec fn frame_buffer(p: Vp8dComp, i: int) -> Yv12BufferConfig {
    p.common.yv12_fb[p.dec_fb_ref_idx[i] as int]
}

/// Which reference frames may be wrong.
pub open spec fn corrupted_refs(p: Vp8dComp) -> [i32; 4] {
    spec_array_update(
        spec_array_update(
            spec_array_update(
                spec_array_fill_for_copy_type::<i32, 4>(0),
                1,
                frame_buffer(p, 1).corrupted,
            ),
            2,
            frame_buffer(p, 2).corrupted,
        ),
        3,
        frame_buffer(p, 3).corrupted,
    )
}

/// What is the same for all macroblocks of a frame.
pub open spec fn frame_env(p: Vp8dComp) -> FrameEnv {
    FrameEnv {
        env: MbEnv {
            fc: p.common.fc,
            y1: p.common.y1_dequant,
            y2: p.common.y2_dequant,
            uv: p.common.uv_dequant,
            base: p.common.base_qindex as int,
        },
        refs: RefPics {
            last: frame_buffer(p, 1).planes@,
            golden: frame_buffer(p, 2).planes@,
            altref: frame_buffer(p, 3).planes@,
        },
        corrupted: corrupted_refs(p),
        parts: partition_number(p.common.multi_token_partition),
        lf: p.common.lf_info,
        level: p.common.filter_level as int,
        filter: p.common.filter_type,
        frame_type: p.common.frame_type,
        rows: p.common.mb_rows as int,
        cols: p.common.mb_cols as int,
    }
}

/// What the reconstruction starts with.
pub open spec fn rows_start(
    p: Vp8dComp,
    g: ModeGrid,
    above: Seq<EntropyContextPlanes>,
    ts: Seq<BoolState>,
) -> RowState {
    RowState {
        ts,
        above,
        left: p.common.left_context,
        mb: p.mb,
        g,
        d: frame_buffer(p, 0).planes@,
    }
}

/// What the reconstruction ends with, where `g` has the modes, `above` the contexts above the
/// first row, and `ts` the readers of the token partitions.
#[verifier::opaque]
pub open spec fn rows_end(
    p: Vp8dComp,
    g: ModeGrid,
    above: Seq<EntropyContextPlanes>,
    ts: Seq<BoolState>,
) -> RowState {
    frame_rows(rows_start(p, g, above, ts), frame_env(filter_started(p)))
}

/// `q` is `p` after its macroblocks were reconstructed, with the result `s`.
pub open spec fn reconstructed(p: Vp8dComp, q: Vp8dComp, s: RowState) -> bool {
    let k = p.dec_fb_ref_idx[0] as int;
    &&& q.common.mip@ == s.g
    &&& q.common.above_context@ == s.above
    &&& q.common.yv12_fb[k].planes@ == s.d
    &&& q.common.yv12_fb[k] == (Yv12BufferConfig {
        planes: q.common.yv12_fb[k].planes,
        ..p.common.yv12_fb[k]
    })
    &&& forall|i: int| 0 <= i < 4 && i != k ==> #[trigger] q.common.yv12_fb[i] == p.common.yv12_fb[i]
    &&& q == (Vp8dComp {
        mb: s.mb,
        common: Vp8Common {
            left_context: s.left,
            mip: q.common.mip,
            above_context: q.common.above_context,
            yv12_fb: q.common.yv12_fb,
            ..filter_started(p).common
        },
        ..p
    })
}

/// Reconstructs all macroblocks of a frame into its buffer. Where the buffer is that of a
/// reference frame too, the reference is the picture as it was before. Afterwards the border of
/// the buffer repeats the edges of the frame.
#[verifier::spinoff_prover]
#[verifier::rlimit(60)]
pub fn decode_mb_rows(pbi: &mut Vp8dComp, readers: &mut Vec<Vp8Reader<'_>>)
    requires
        rows_ready(*old(pbi)),
        readers_ok(old(readers)@),
        old(readers)@.len() >= partition_number(old(pbi).common.multi_token_partition),
    ensures
        reconstructed(
            *old(pbi),
            *final(pbi),
            rows_end(
                *old(pbi),
                old(pbi).common.mip@,
                old(pbi).common.above_context@,
                reader_states(old(readers)@),
            ),
        ),
        borders_repeat(
            final(pbi).common.yv12_fb[old(pbi).dec_fb_ref_idx[0] as int].planes@,
            old(pbi).common.mb_rows as int,
            old(pbi).common.mb_cols as int,
        ),
        rows_ready(*final(pbi)),
        mb_frame(final(pbi).mb, old(pbi).mb),
{
    proof {
        reveal(rows_end);
    }
    if pbi.common.filter_level != 0 {
        let level: i32 = pbi.common.filter_level;
        let mb: Macroblockd = pbi.mb;
        vp8_loop_filter_frame_init(&mut pbi.common, &mb, level);
    }
    let ghost p1 = *pbi;
    proof {
        assert(p1 == filter_started(*old(pbi)));
        assert(0 <= pbi.dec_fb_ref_idx[0] < 4 && 0 <= pbi.dec_fb_ref_idx[1] < 4 && 0
            <= pbi.dec_fb_ref_idx[2] < 4 && 0 <= pbi.dec_fb_ref_idx[3] < 4);
    }
    let new_idx: usize = pbi.dec_fb_ref_idx[0] as usize;
    let last_idx: usize = pbi.dec_fb_ref_idx[1] as usize;
    let gold_idx: usize = pbi.dec_fb_ref_idx[2] as usize;
    let alt_idx: usize = pbi.dec_fb_ref_idx[3] as usize;
    let rows: usize = pbi.common.mb_rows as usize;
    let cols: usize = pbi.common.mb_cols as usize;
    proof {
        let fb = p1.common.yv12_fb;
        assert(fb[new_idx as int].holds(rows as int, cols as int));
        assert(fb[last_idx as int].holds(rows as int, cols as int));
        assert(fb[gold_idx as int].holds(rows as int, cols as int));
        assert(fb[alt_idx as int].holds(rows as int, cols as int));
    }
    let corrupted: [i32; 4] = [
        0,
        pbi.common.yv12_fb[last_idx].corrupted,
        pbi.common.yv12_fb[gold_idx].corrupted,
        pbi.common.yv12_fb[alt_idx].corrupted,
    ];
    assert(corrupted@ =~= corrupted_refs(p1)@);
    assert(corrupted =~= corrupted_refs(p1));
    let mut dst: FramePlanes = FramePlanes::empty();
    std::mem::swap(&mut dst, &mut pbi.common.yv12_fb[new_idx].planes);
    if new_idx == last_idx || new_idx == gold_idx || new_idx == alt_idx {
        pbi.common.yv12_fb[new_idx].planes = dst.copy();
    }
    let num_part: usize = partition_count(pbi.common.multi_token_partition);
    let fp = FrameParams {
        fc: &pbi.common.fc,
        y1_dequant: &pbi.common.y1_dequant,
        y2_dequant: &pbi.common.y2_dequant,
        uv_dequant: &pbi.common.uv_dequant,
        base_qindex: pbi.common.base_qindex,
        refs: RefFrames {
            last: &pbi.common.yv12_fb[last_idx].planes,
            golden: &pbi.common.yv12_fb[gold_idx].planes,
            altref: &pbi.common.yv12_fb[alt_idx].planes,
        },
        corrupted,
        num_part,
        lf_info: &pbi.common.lf_info,
        filter_level: pbi.common.filter_level,
        filter_type: pbi.common.filter_type,
        frame_type: pbi.common.frame_type,
        rows,
        cols,
    };
    proof {
        assert(fp@ == frame_env(p1));
        dst.y.lemma_rect();
        dst.u.lemma_rect();
        dst.v.lemma_rect();
        law_decoded_border(
            rows_view(
                readers@,
                pbi.common.above_context@,
                pbi.common.left_context,
                pbi.mb,
                pbi.common.mip,
                dst,
            ),
            fp@,
            dst.y.spec_stride() as int,
            dst.u.spec_stride() as int,
        );
    }
    decode_rows(
        &fp,
        readers,
        &mut pbi.common.above_context,
        &mut pbi.common.left_context,
        &mut pbi.mb,
        &mut pbi.common.mip,
        &mut dst,
    );
    pbi.common.yv12_fb[new_idx].planes = dst;
    proof {
        let q = *pbi;
        assert forall|i: int| 0 <= i < 4 && i != new_idx implies #[trigger] q.common.yv12_fb[i]
            == old(pbi).common.yv12_fb[i] by {
            assert(p1.common.yv12_fb[i] == old(pbi).common.yv12_fb[i]);
        }
        assert forall|i: int| 0 <= i < 4 implies (#[trigger] q.common.yv12_fb[i]).holds(
            rows as int,
            cols as int,
        ) by {
            assert(p1.common.yv12_fb[i].holds(rows as int, cols as int));
        }
    }
}

/// `p` with what `m` has of the things that the pixels of a frame have nothing to do with: whether
/// it is shown, how many frames there were before, its size in pixels, its version, and the
/// bookkeeping of the frame buffers.
pub open spec fn with_bookkeeping(p: Vp8dComp, m: Vp8dComp) -> Vp8dComp {
    Vp8dComp {
        common: Vp8Common {
            width: m.common.width,
            height: m.common.height,
            horiz_scale: m.common.horiz_scale,
            vert_scale: m.common.vert_scale,
            frame_to_show_idx: m.common.frame_to_show_idx,
            temp_scale_frame: m.common.temp_scale_frame,
            fb_idx_ref_cnt: m.common.fb_idx_ref_cnt,
            new_fb_idx: m.common.new_fb_idx,
            lst_fb_idx: m.common.lst_fb_idx,
            gld_fb_idx: m.common.gld_fb_idx,
            alt_fb_idx: m.common.alt_fb_idx,
            show_frame: m.common.show_frame,
            mbs: m.common.mbs,
            no_lpf: m.common.no_lpf,
            current_video_frame: m.common.current_video_frame,
            version: m.common.version,
            ..p.common
        },
        oxcf: m.oxcf,
        ready_for_new_data: m.ready_for_new_data,
        ec_enabled: m.ec_enabled,
        ..p
    }
}

/// The pixels of a frame do not depend on whether it is shown, on how many frames there were
/// before, on its size in pixels or on the bookkeeping of the buffers: with the same modes and
/// readers, two decoders that differ in nothing else reconstruct the same.
pub proof fn law_pixels_whether_shown_or_not(
    p: Vp8dComp,
    m: Vp8dComp,
    g: ModeGrid,
    above: Seq<EntropyContextPlanes>,
    ts: Seq<BoolState>,
)
    ensures
        rows_end(with_bookkeeping(p, m), g, above, ts) == rows_end(p, g, above, ts),
        filter_started(with_bookkeeping(p, m)) == with_bookkeeping(filter_started(p), m),
{
    reveal(rows_end);
    let q = with_bookkeeping(p, m);
    assert(frame_env(filter_started(q)) == frame_env(filter_started(p)));
    assert(rows_start(q, g, above, ts) == rows_start(p, g, above, ts));
}

/// Neither do they depend on what only later frames or the header are read with.
pub proof fn law_pixels_without_later_frames(
    p: Vp8dComp,
    q: Vp8dComp,
    g: ModeGrid,
    above: Seq<EntropyContextPlanes>,
    ts: Seq<BoolState>,
)
    requires
        q == (Vp8dComp {
            common: Vp8Common {
                error: q.common.error,
                clamp_type: q.common.clamp_type,
                mb_no_coeff_skip: q.common.mb_no_coeff_skip,
                use_bilinear_mc_filter: q.common.use_bilinear_mc_filter,
                full_pixel: q.common.full_pixel,
                y1dc_delta_q: q.common.y1dc_delta_q,
                y2dc_delta_q: q.common.y2dc_delta_q,
                y2ac_delta_q: q.common.y2ac_delta_q,
                uvdc_delta_q: q.common.uvdc_delta_q,
                uvac_delta_q: q.common.uvac_delta_q,
                refresh_last_frame: q.common.refresh_last_frame,
                refresh_golden_frame: q.common.refresh_golden_frame,
                refresh_alt_ref_frame: q.common.refresh_alt_ref_frame,
                copy_buffer_to_gf: q.common.copy_buffer_to_gf,
                copy_buffer_to_arf: q.common.copy_buffer_to_arf,
                refresh_entropy_probs: q.common.refresh_entropy_probs,
                ref_frame_sign_bias: q.common.ref_frame_sign_bias,
                lfc: q.common.lfc,
                ..p.common
            },
            prob_intra: q.prob_intra,
            prob_last: q.prob_last,
            prob_gf: q.prob_gf,
            prob_skip_false: q.prob_skip_false,
            ec_active: q.ec_active,
            decoded_key_frame: q.decoded_key_frame,
            independent_partitions: q.independent_partitions,
            frame_corrupt_residual: q.frame_corrupt_residual,
            ..p
        }),
    ensures
        rows_end(q, g, above, ts) == rows_end(p, g, above, ts),
{
    reveal(rows_end);
    assert(frame_env(filter_started(q)) == frame_env(filter_started(p)));
    assert(rows_start(q, g, above, ts) == rows_start(p, g, above, ts));
}

/// The rows of a frame are reconstructed with the filter level, the kind of filter and the kind of
/// frame that its header gives, and from the three buffers that hold its reference frames;
/// nothing else of the decoder changes these.
pub proof fn law_frame_as_header_says(p: Vp8dComp)
    ensures
        ({
            let f = frame_env(filter_started(p));
            &&& f.level == p.common.filter_level
            &&& f.filter == p.common.filter_type
            &&& f.frame_type == p.common.frame_type
            &&& f.rows == p.common.mb_rows
            &&& f.cols == p.common.mb_cols
            &&& f.refs.last == p.common.yv12_fb[p.dec_fb_ref_idx[1] as int].planes@
            &&& f.refs.golden == p.common.yv12_fb[p.dec_fb_ref_idx[2] as int].planes@
            &&& f.refs.altref == p.common.yv12_fb[p.dec_fb_ref_idx[3] as int].planes@
            &&& f.corrupted[0] == 0
            &&& f.corrupted[1] == p.common.yv12_fb[p.dec_fb_ref_idx[1] as int].corrupted
            &&& f.corrupted[2] == p.common.yv12_fb[p.dec_fb_ref_idx[2] as int].corrupted
            &&& f.corrupted[3] == p.common.yv12_fb[p.dec_fb_ref_idx[3] as int].corrupted
        }),
{
}

/// The limits of the loop filter are those of the sharpness that the frame's header gives: as long
/// as they agree with the sharpness on record they do so after every frame, whether it is filtered
/// or not, and a filtered frame is filtered with its own.
pub proof fn law_filter_uses_own_sharpness(p: Vp8dComp)
    requires
        limits_of(p.common.lf_info, p.common.last_sharpness_level as int),
        0 <= p.common.sharpness_level <= 7,
    ensures
        ({
            let q = filter_started(p);
            &&& limits_of(q.common.lf_info, q.common.last_sharpness_level as int)
            &&& p.common.filter_level != 0 ==> limits_of(
                q.common.lf_info,
                p.common.sharpness_level as int,
            )
            &&& p.common.filter_level != 0 ==> q.common.last_sharpness_level
                == p.common.sharpness_level
        }),
{
    law_limits_follow_sharpness(
        p.common.lf_info,
        p.common.last_sharpness_level,
        p.common.sharpness_level,
        p.mb,
        p.common.filter_level as int,
    );
}

} // verus!
