//! A new decoder.

use crate::alloccommon::{common_defaults, unallocated, vp8_create_common};
use crate::decodeframe::header_ok;
use crate::dequantizer::{tables_ok, vp8cx_init_de_quantizer};
use crate::framebufs::refs_placed;
use crate::frametag::indices_ok;
use crate::grid::Grid;
use crate::tables::VP8_BMODE_PROB;
use crate::types::{
    no_context, Blockd, ClampType, EntropyContextPlanes, FrameContext, FrameType,
    LoopFilterInfoN, LoopFilterType, Macroblockd, SubpixFn, TokenPartition, Vp8Common, Vp8dComp,
    Vp8dConfig, VpxCodecErr, VpxInternalErrorInfo, Yv12BufferConfig,
};
use crate::vp8_loopfilter::{levels_ok, lf_ready, vp8_loop_filter_init, with_limits};
use vstd::array::spec_array_fill_for_copy_type;
use vstd::prelude::*;

verus! {

/// A working area that nothing was written to.
pub open spec fn blank_mb() -> Macroblockd {
    Macroblockd {
        qcoeff: spec_array_fill_for_copy_type::<i16, 400>(0),
        eobs: spec_array_fill_for_copy_type::<i8, 25>(0),
        dequant_y1: spec_array_fill_for_copy_type::<i16, 16>(0),
        dequant_y1_dc: spec_array_fill_for_copy_type::<i16, 16>(0),
        dequant_y2: spec_array_fill_for_copy_type::<i16, 16>(0),
        dequant_uv: spec_array_fill_for_copy_type::<i16, 16>(0),
        block: spec_array_fill_for_copy_type::<Blockd, 25>(Blockd { offset: 0 }),
        fullpixel_mask: 0,
        mode_info_stride: 0,
        frame_type: FrameType::Key,
        segmentation_enabled: 0,
        update_mb_segmentation_map: 0,
        update_mb_segmentation_data: 0,
        mb_segment_abs_delta: 0,
        mb_segment_tree_probs: spec_array_fill_for_copy_type::<u8, 3>(0),
        segment_feature_data: spec_array_fill_for_copy_type::<[i8; 4], 2>(
            spec_array_fill_for_copy_type::<i8, 4>(0),
        ),
        mode_ref_lf_delta_enabled: 0,
        mode_ref_lf_delta_update: 0,
        ref_lf_deltas: spec_array_fill_for_copy_type::<i8, 4>(0),
        mode_lf_deltas: spec_array_fill_for_copy_type::<i8, 4>(0),
        subpixel_predict: SubpixFn::Sixtap,
        corrupted: 0,
    }
}

fn new_mb() -> (mb: Macroblockd)
    ensures
        mb == blank_mb(),
{
    Macroblockd {
        qcoeff: [0i16; 400],
        eobs: [0i8; 25],
        dequant_y1: [0i16; 16],
        dequant_y1_dc: [0i16; 16],
        dequant_y2: [0i16; 16],
        dequant_uv: [0i16; 16],
        block: [Blockd { offset: 0 }; 25],
        fullpixel_mask: 0,
        mode_info_stride: 0,
        frame_type: FrameType::Key,
        segmentation_enabled: 0,
        update_mb_segmentation_map: 0,
        update_mb_segmentation_data: 0,
        mb_segment_abs_delta: 0,
        mb_segment_tree_probs: [0u8; 3],
        segment_feature_data: [[0i8; 4]; 2],
        mode_ref_lf_delta_enabled: 0,
        mode_ref_lf_delta_update: 0,
        ref_lf_deltas: [0i8; 4],
        mode_lf_deltas: [0i8; 4],
        subpixel_predict: SubpixFn::Sixtap,
        corrupted: 0,
    }
}

/// Probabilities that nothing was said of.
pub open spec fn blank_context() -> FrameContext {
    FrameContext {
        bmode_prob: spec_array_fill_for_copy_type::<u8, 9>(0),
        ymode_prob: spec_array_fill_for_copy_type::<u8, 4>(0),
        uv_mode_prob: spec_array_fill_for_copy_type::<u8, 3>(0),
        sub_mv_ref_prob: spec_array_fill_for_copy_type::<u8, 3>(0),
        coef_probs: spec_array_fill_for_copy_type::<[[[u8; 11]; 3]; 8], 4>(
            spec_array_fill_for_copy_type::<[[u8; 11]; 3], 8>(
                spec_array_fill_for_copy_type::<[u8; 11], 3>(
                    spec_array_fill_for_copy_type::<u8, 11>(0),
                ),
            ),
        ),
        mvc: spec_array_fill_for_copy_type::<[u8; 19], 2>(
            spec_array_fill_for_copy_type::<u8, 19>(0),
        ),
    }
}

fn new_context() -> (fc: FrameContext)
    ensures
        fc == blank_context(),
{
    FrameContext {
        bmode_prob: [0u8; 9],
        ymode_prob: [0u8; 4],
        uv_mode_prob: [0u8; 3],
        sub_mv_ref_prob: [0u8; 3],
        coef_probs: [[[[0u8; 11]; 3]; 8]; 4],
        mvc: [[0u8; 19]; 2],
    }
}

/// The tables of a loop filter that was not set up yet.
pub open spec fn blank_lf() -> LoopFilterInfoN {
    LoopFilterInfoN {
        mblim: spec_array_fill_for_copy_type::<u8, 64>(0),
        blim: spec_array_fill_for_copy_type::<u8, 64>(0),
        lim: spec_array_fill_for_copy_type::<u8, 64>(0),
        hev_thr: spec_array_fill_for_copy_type::<u8, 4>(0),
        lvl: spec_array_fill_for_copy_type::<[[u8; 4]; 4], 4>(
            spec_array_fill_for_copy_type::<[u8; 4], 4>(
                spec_array_fill_for_copy_type::<u8, 4>(0),
            ),
        ),
        hev_thr_lut: spec_array_fill_for_copy_type::<[u8; 64], 2>(
            spec_array_fill_for_copy_type::<u8, 64>(0),
        ),
        mode_lf_lut: spec_array_fill_for_copy_type::<u8, 10>(0),
    }
}

fn new_lf() -> (l: LoopFilterInfoN)
    ensures
        l == blank_lf(),
        levels_ok(l),
{
    let l = LoopFilterInfoN {
        mblim: [0u8; 64],
        blim: [0u8; 64],
        lim: [0u8; 64],
        hev_thr: [0u8; 4],
        lvl: [[[0u8; 4]; 4]; 4],
        hev_thr_lut: [[0u8; 64]; 2],
        mode_lf_lut: [0u8; 10],
    };
    assert forall|s: int, r: int, m: int|
        0 <= s < 4 && 0 <= r < 4 && 0 <= m < 4 implies #[trigger] l.lvl[s][r][m] <= 63 by {
        assert(l.lvl[s] == spec_array_fill_for_copy_type::<[u8; 4], 4>(
            spec_array_fill_for_copy_type::<u8, 4>(0),
        ));
        assert(l.lvl[s][r] == spec_array_fill_for_copy_type::<u8, 4>(0));
    }
    l
}

/// The state that frames share, before anything is set; storage and step tables are those of
/// `q`.
pub open spec fn blank_common(q: Vp8Common) -> Vp8Common {
    Vp8Common {
        error: VpxInternalErrorInfo { error_code: VpxCodecErr::VPX_CODEC_OK },
        y1_dequant: q.y1_dequant,
        y2_dequant: q.y2_dequant,
        uv_dequant: q.uv_dequant,
        width: 0,
        height: 0,
        horiz_scale: 0,
        vert_scale: 0,
        clamp_type: ClampType::Required,
        frame_to_show_idx: 0,
        yv12_fb: q.yv12_fb,
        temp_scale_frame: q.temp_scale_frame,
        fb_idx_ref_cnt: spec_array_fill_for_copy_type::<i32, 4>(0),
        new_fb_idx: 0,
        lst_fb_idx: 0,
        gld_fb_idx: 0,
        alt_fb_idx: 0,
        frame_type: FrameType::Key,
        show_frame: 0,
        mbs: 0,
        mb_rows: 0,
        mb_cols: 0,
        mode_info_stride: 0,
        mb_no_coeff_skip: 0,
        no_lpf: 0,
        use_bilinear_mc_filter: 0,
        full_pixel: 0,
        base_qindex: 0,
        y1dc_delta_q: 0,
        y2dc_delta_q: 0,
        y2ac_delta_q: 0,
        uvdc_delta_q: 0,
        uvac_delta_q: 0,
        mip: q.mip,
        filter_type: LoopFilterType::Normal,
        lf_info: blank_lf(),
        filter_level: 0,
        last_sharpness_level: 0,
        sharpness_level: 0,
        refresh_last_frame: 0,
        refresh_golden_frame: 0,
        refresh_alt_ref_frame: 0,
        copy_buffer_to_gf: 0,
        copy_buffer_to_arf: 0,
        refresh_entropy_probs: 0,
        ref_frame_sign_bias: spec_array_fill_for_copy_type::<i32, 4>(0),
        above_context: q.above_context,
        left_context: no_context(),
        lfc: blank_context(),
        fc: blank_context(),
        current_video_frame: 0,
        version: 0,
        multi_token_partition: TokenPartition::One,
    }
}

fn new_common() -> (cm: Vp8Common)
    ensures
        cm == blank_common(cm),
        unallocated(Vp8Common { frame_to_show_idx: (-1) as i32, ..cm }),
        levels_ok(cm.lf_info),
{
    Vp8Common {
        error: VpxInternalErrorInfo { error_code: VpxCodecErr::VPX_CODEC_OK },
        y1_dequant: [[0i16; 2]; 128],
        y2_dequant: [[0i16; 2]; 128],
        uv_dequant: [[0i16; 2]; 128],
        width: 0,
        height: 0,
        horiz_scale: 0,
        vert_scale: 0,
        clamp_type: ClampType::Required,
        frame_to_show_idx: 0,
        yv12_fb: [
            Yv12BufferConfig::empty(),
            Yv12BufferConfig::empty(),
            Yv12BufferConfig::empty(),
            Yv12BufferConfig::empty(),
        ],
        temp_scale_frame: Yv12BufferConfig::empty(),
        fb_idx_ref_cnt: [0i32; 4],
        new_fb_idx: 0,
        lst_fb_idx: 0,
        gld_fb_idx: 0,
        alt_fb_idx: 0,
        frame_type: FrameType::Key,
        show_frame: 0,
        mbs: 0,
        mb_rows: 0,
        mb_cols: 0,
        mode_info_stride: 0,
        mb_no_coeff_skip: 0,
        no_lpf: 0,
        use_bilinear_mc_filter: 0,
        full_pixel: 0,
        base_qindex: 0,
        y1dc_delta_q: 0,
        y2dc_delta_q: 0,
        y2ac_delta_q: 0,
        uvdc_delta_q: 0,
        uvac_delta_q: 0,
        mip: Grid::empty(),
        filter_type: LoopFilterType::Normal,
        lf_info: new_lf(),
        filter_level: 0,
        last_sharpness_level: 0,
        sharpness_level: 0,
        refresh_last_frame: 0,
        refresh_golden_frame: 0,
        refresh_alt_ref_frame: 0,
        copy_buffer_to_gf: 0,
        copy_buffer_to_arf: 0,
        refresh_entropy_probs: 0,
        ref_frame_sign_bias: [0i32; 4],
        above_context: Vec::new(),
        left_context: EntropyContextPlanes::default(),
        lfc: new_context(),
        fc: new_context(),
        current_video_frame: 0,
        version: 0,
        multi_token_partition: TokenPartition::One,
    }
}

/// The state that frames share in a new decoder: the defaults, with the loop filter set up.
pub open spec fn started_common(q: Vp8Common) -> Vp8Common {
    let c = common_defaults(blank_common(q));
    Vp8Common {
        lf_info: LoopFilterInfoN {
            mode_lf_lut: q.lf_info.mode_lf_lut,
            hev_thr_lut: q.lf_info.hev_thr_lut,
            hev_thr: q.lf_info.hev_thr,
            ..with_limits(blank_lf(), 0, 64)
        },
        ..c
    }
}

/// A new decoder.
#[verifier::opaque]
pub open spec fn is_new(p: Vp8dComp) -> bool {
    &&& p == (Vp8dComp {
        mb: blank_mb(),
        dec_fb_ref_idx: spec_array_fill_for_copy_type::<i32, 4>(0),
        common: started_common(p.common),
        oxcf: Vp8dConfig {
            width: 0,
            height: 0,
            version: 0,
            postprocess: 0,
            max_threads: 0,
            error_concealment: 0,
        },
        ready_for_new_data: 1,
        prob_intra: 0,
        prob_last: 0,
        prob_gf: 0,
        prob_skip_false: 0,
        ec_enabled: 0,
        ec_active: 0,
        decoded_key_frame: 0,
        independent_partitions: 0,
        frame_corrupt_residual: 0,
    })
    &&& unallocated(p.common)
    &&& tables_ok(p.common)
    &&& lf_ready(p.common.lf_info)
    &&& levels_ok(p.common.lf_info)
}

/// A new decoder was set up; its reference frames have places.
pub proof fn lemma_new(p: Vp8dComp)
    requires
        is_new(p),
    ensures
        setup_ok(p),
        refs_placed(p.common),
        p.ec_active == 0,
{
    reveal(is_new);
}

/// What holds of a decoder whether it has frame buffers or not.
pub open spec fn setup_ok(p: Vp8dComp) -> bool {
    &&& header_ok(p.common)
    &&& lf_ready(p.common.lf_info)
    &&& levels_ok(p.common.lf_info)
    &&& p.common.left_context.ok()
}

/// Makes a new decoder. The configuration has no influence on it.
pub fn create_decompressor(oxcf: &Vp8dConfig) -> (p: Box<Vp8dComp>)
    ensures
        is_new(*p),
        setup_ok(*p),
        indices_ok(*p),
{
    let mut p: Box<Vp8dComp> = Box::new(
        Vp8dComp {
            mb: new_mb(),
            dec_fb_ref_idx: [0i32; 4],
            common: new_common(),
            oxcf: Vp8dConfig {
                width: 0,
                height: 0,
                version: 0,
                postprocess: 0,
                max_threads: 0,
                error_concealment: 0,
            },
            ready_for_new_data: 1,
            prob_intra: 0,
            prob_last: 0,
            prob_gf: 0,
            prob_skip_false: 0,
            ec_enabled: 0,
            ec_active: 0,
            decoded_key_frame: 0,
            independent_partitions: 0,
            frame_corrupt_residual: 0,
        },
    );
    vp8_create_common(&mut p.common);
    p.common.current_video_frame = 0;
    vp8cx_init_de_quantizer(&mut p.common);
    let ghost l0 = p.common.lf_info;
    vp8_loop_filter_init(&mut p.common);
    proof {
        reveal(is_new);
        lemma_limits_keep_levels(l0, 0, 64);
        assert(no_context().ok());
    }
    p
}

/// The limits of the filter do not touch its levels.
proof fn lemma_limits_keep_levels(l: LoopFilterInfoN, s: int, n: int)
    ensures
        with_limits(l, s, n).lvl == l.lvl,
    decreases n,
{
    if n > 0 {
        lemma_limits_keep_levels(l, s, n - 1);
    }
}

/// A new decoder has decoded no key frame, has neither frame buffers nor a picture to show, and
/// waits for a frame. It says nothing of segments and adjusts no loop filter level; of the
/// probabilities it has those of the subblocks' modes, which no frame changes.
pub proof fn law_new_decoder(p: Vp8dComp)
    requires
        is_new(p),
    ensures
        p.decoded_key_frame == 0,
        p.ready_for_new_data == 1,
        p.ec_active == 0,
        p.common.mip@.len() == 0,
        p.common.frame_to_show_idx < 0,
        p.common.show_frame == 0,
        p.common.fc.bmode_prob == VP8_BMODE_PROB,
        p.mb.segmentation_enabled == 0,
        p.mb.mode_ref_lf_delta_enabled == 0,
        p.common.current_video_frame == 0,
{
    reveal(is_new);
}

} // verus!
