//! The decoder for one stream: finding out the size of its frames, setting up the decoder for
//! it, and decoding.

use crate::alloccommon::{
    allocated, lemma_allocated, mbs_for, removed, vp8_alloc_frame_buffers,
    vp8_de_alloc_frame_buffers,
};
use crate::api::frame::AllocError;
use crate::decodeframe::{body_reached, decoder_ok, parts_there, reaches_body};
use crate::fragments::{
    bytes_of, collected, law_packet_is_frame, update_fragments, with_fragment, Fragments,
};
use crate::framebufs::{counts_exact, free_fb, refs_placed, release_fb, released, uses};
use crate::frametag::{failed, start_code, tag_number, vpx_internal_error};
use crate::mbpitch::{block_offset, vp8_build_block_doffsets};
use crate::newdecoder::{is_new, lemma_new, setup_ok};
use crate::onyxd_if::{
    at_rest, bare, has_buffers, key_frame_starts, law_error_recorded,
    law_intact_key_frame_received, picture, playing, read_whole, receive_without_buffers,
    received, vp8_create_decoder_instances, vp8dx_receive_compressed_data,
};
use crate::partitions::{fragments_of, fragments_ok};
use crate::types::{
    FragmentData, FrameBuffers, Macroblockd, PlaneRef, Vp8Common, Vp8dComp, Vp8dConfig,
    VpxCodecErr, VpxInternalErrorInfo, VpxResult, Yv12BufferConfig,
};
use crate::yv12config::{all_zero, no_buffer, no_pixels};
use crate::vpx_api::{
    STREAM_INFO_SIZE, VPX_CODEC_USE_ERROR_CONCEALMENT, VPX_CODEC_USE_POSTPROC, VpxCodecDecCfg,
    VpxCodecFlags, VpxCodecStreamInfo, VpxImage,
};
use vstd::array::{spec_array_fill_for_copy_type, spec_array_update};
use vstd::prelude::*;

verus! {

/// What is known of a stream.
pub type Vp8StreamInfo = VpxCodecStreamInfo;

/// How pictures are postprocessed.
#[derive(Clone, Copy, PartialEq, Eq, Structural, Debug)]
pub struct Vp8PostprocCfg {
    pub post_proc_flag: i32,
    pub deblocking_level: i32,
    pub noise_level: i32,
}

impl Default for Vp8PostprocCfg {
    fn default() -> (c: Vp8PostprocCfg)
        ensures
            c == (Vp8PostprocCfg { post_proc_flag: 0, deblocking_level: 0, noise_level: 0 }),
    {
        Vp8PostprocCfg { post_proc_flag: 0, deblocking_level: 0, noise_level: 0 }
    }
}

pub const VP8_DEBLOCK: i32 = 0x1;

pub const VP8_DEMACROBLOCK: i32 = 0x2;

pub const VP8_MFQE: i32 = 0x10;

/// A picture to take the place of a reference frame, or to be filled with one.
pub struct VpxRefFrame {
    pub frame_type: i32,
    pub img: VpxImage,
}

/// What became of the request for memory for new frame buffers: four for frames, and then one for
/// a strip of them.
#[derive(Clone, Copy, PartialEq, Eq, Structural, Debug)]
pub enum Memory {
    /// There is memory for all of them.
    Granted,
    /// There is none for one of the frames.
    NoFrame(AllocError),
    /// There is none for the strip.
    NoStrip(AllocError),
}

/// The state of the decoder for one stream.
pub struct Vp8AlgPriv {
    pub init_flags: VpxCodecFlags,
    pub cfg: VpxCodecDecCfg,
    pub si: Vp8StreamInfo,
    pub decoder_init: i32,
    pub postproc_cfg_set: i32,
    pub postproc_cfg: Vp8PostprocCfg,
    pub img: VpxImage,
    pub img_setup: i32,
    pub yv12_frame_buffers: FrameBuffers,
    pub fragments: FragmentData,
}

/// What the bytes of a frame say of the stream, given what was known before. Only a key frame
/// says something; it has the start code and a size.
pub open spec fn peeked(d: Seq<u8>, si: VpxCodecStreamInfo) -> (VpxCodecStreamInfo, VpxCodecErr) {
    if d.len() == 0 {
        (si, VpxCodecErr::VPX_CODEC_INVALID_PARAM)
    } else if d.len() >= 10 && d[0] % 2 == 0 {
        let w = (d[6] + 0x100 * d[7]) % 0x4000;
        let h = (d[8] + 0x100 * d[9]) % 0x4000;
        if !start_code(d) {
            (VpxCodecStreamInfo { is_kf: 1, ..si }, VpxCodecErr::VPX_CODEC_UNSUP_BITSTREAM)
        } else if w != 0 && h != 0 {
            (
                VpxCodecStreamInfo { is_kf: 1, w: w as u32, h: h as u32, ..si },
                VpxCodecErr::VPX_CODEC_OK,
            )
        } else {
            (
                VpxCodecStreamInfo { is_kf: 1, w: 0, h: 0, ..si },
                VpxCodecErr::VPX_CODEC_CORRUPT_FRAME,
            )
        }
    } else {
        (VpxCodecStreamInfo { is_kf: 0, ..si }, VpxCodecErr::VPX_CODEC_UNSUP_BITSTREAM)
    }
}

/// Finds out what a frame says of the stream.
pub fn vp8_peek_si(data: &[u8], si: &mut VpxCodecStreamInfo) -> (code: VpxCodecErr)
    ensures
        (*final(si), code) == peeked(data@, *old(si)),
{
    let n: usize = data.len();
    if n == 0 {
        return VpxCodecErr::VPX_CODEC_INVALID_PARAM;
    }
    si.is_kf = 0;
    if n >= 10 && data[0] % 2 == 0 {
        si.is_kf = 1;
        if data[3] != 0x9d || data[4] != 0x01 || data[5] != 0x2a {
            return VpxCodecErr::VPX_CODEC_UNSUP_BITSTREAM;
        }
        si.w = (data[6] as u32 + 0x100 * (data[7] as u32)) % 0x4000;
        si.h = (data[8] as u32 + 0x100 * (data[9] as u32)) % 0x4000;
        if !(si.h != 0 && si.w != 0) {
            si.w = 0;
            si.h = 0;
            return VpxCodecErr::VPX_CODEC_CORRUPT_FRAME;
        }
        VpxCodecErr::VPX_CODEC_OK
    } else {
        VpxCodecErr::VPX_CODEC_UNSUP_BITSTREAM
    }
}

/// The size of a stream's frames is found out exactly from a key frame with the start code and
/// a size that is not zero.
pub proof fn law_peek_accepts_key_frames(d: Seq<u8>, si: VpxCodecStreamInfo)
    ensures
        peeked(d, si).1 == VpxCodecErr::VPX_CODEC_OK <==> {
            &&& d.len() >= 10
            &&& d[0] % 2 == 0
            &&& start_code(d)
            &&& (d[6] + 0x100 * d[7]) % 0x4000 != 0
            &&& (d[8] + 0x100 * d[9]) % 0x4000 != 0
        },
        peeked(d, si).1 == VpxCodecErr::VPX_CODEC_OK ==> 1 <= peeked(d, si).0.w <= 16383 && 1
            <= peeked(d, si).0.h <= 16383,
{
}

/// Gives what is known of the stream.
pub fn vp8_get_si(ctx: &Vp8AlgPriv, si: &mut VpxCodecStreamInfo) -> (code: VpxCodecErr)
    ensures
        code == VpxCodecErr::VPX_CODEC_OK,
        *final(si) == (VpxCodecStreamInfo { sz: 16, ..ctx.si }),
{
    *si = ctx.si;
    si.sz = STREAM_INFO_SIZE;
    VpxCodecErr::VPX_CODEC_OK
}

/// The blocks of a macroblock lie where they should in planes with rows of the given lengths.
pub open spec fn offsets_ok(mb: Macroblockd, y_stride: int, uv_stride: int) -> bool {
    forall|k: int|
        0 <= k < 24 ==> (#[trigger] mb.block[k]).offset == block_offset(k, y_stride, uv_stride)
}

/// `q` is `p` with new frame buffers for frames of its size, one of which is free.
pub open spec fn reallocated(p: Vp8dComp, q: Vp8dComp) -> bool {
    let full = Vp8Common {
        fb_idx_ref_cnt: spec_array_fill_for_copy_type::<i32, 4>(1),
        ..q.common
    };
    &&& allocated(full, mbs_for(p.common.height as int), mbs_for(p.common.width as int))
    &&& q.common.fb_idx_ref_cnt == spec_array_update(
        spec_array_fill_for_copy_type::<i32, 4>(1),
        0,
        0i32,
    )
    &&& offsets_ok(
        q.mb,
        q.common.yv12_fb[0].y_stride as int,
        q.common.yv12_fb[0].uv_stride as int,
    )
    &&& q.mb.block[24] == p.mb.block[24]
    &&& q == (Vp8dComp {
        mb: Macroblockd { block: q.mb.block, ..p.mb },
        common: Vp8Common {
            yv12_fb: q.common.yv12_fb,
            temp_scale_frame: q.common.temp_scale_frame,
            fb_idx_ref_cnt: q.common.fb_idx_ref_cnt,
            mip: q.common.mip,
            above_context: q.common.above_context,
            frame_to_show_idx: (-1) as i32,
            new_fb_idx: 0,
            lst_fb_idx: 1,
            gld_fb_idx: 2,
            alt_fb_idx: 3,
            mb_rows: q.common.mb_rows,
            mb_cols: q.common.mb_cols,
            mbs: q.common.mbs,
            mode_info_stride: q.common.mode_info_stride,
            ..p.common
        },
        ..p
    })
}

/// Gets frame buffers for frames of the size that the decoder was told.
fn vp8_decode_resolution_change(pbi: &mut Vp8dComp)
    requires
        setup_ok(*old(pbi)),
        1 <= old(pbi).common.width <= 16383,
        1 <= old(pbi).common.height <= 16383,
    ensures
        reallocated(*old(pbi), *final(pbi)),
        playing(*final(pbi)),
{
    let w: i32 = pbi.common.width;
    let h: i32 = pbi.common.height;
    let _ = vp8_alloc_frame_buffers(&mut pbi.common, w, h);
    let ghost rows = mbs_for(h as int);
    let ghost cols = mbs_for(w as int);
    assert(pbi.common.yv12_fb[0].holds(rows, cols));
    let dst: PlaneRef = PlaneRef::of(&pbi.common.yv12_fb[0]);
    vp8_build_block_doffsets(&mut pbi.mb, &dst);
    let ghost c0 = pbi.common;
    pbi.common.fb_idx_ref_cnt[0] = 0;
    proof {
        assert(c0 == (Vp8Common {
            fb_idx_ref_cnt: spec_array_fill_for_copy_type::<i32, 4>(1),
            ..pbi.common
        }));
        assert(decoder_ok(*pbi)) by {
            reveal(decoder_ok);
        }
        assert forall|i: int| 0 <= i < 4 implies -1 <= #[trigger] pbi.common.fb_idx_ref_cnt[i]
            <= uses(pbi.common, i) by {
            assert(c0.fb_idx_ref_cnt[i] == 1);
        }
    }
}

/// `q` is `p` without frame buffers, since there was no memory for new ones. Where there was only
/// none for the strip, the reference frames already have their places.
pub open spec fn unsupplied(p: Vp8dComp, strip: bool, q: Vp8dComp) -> bool {
    let error = VpxInternalErrorInfo { error_code: VpxCodecErr::VPX_CODEC_MEM_ERROR };
    let c = if strip {
        Vp8Common {
            error,
            new_fb_idx: 0,
            lst_fb_idx: 1,
            gld_fb_idx: 2,
            alt_fb_idx: 3,
            ..p.common
        }
    } else {
        Vp8Common { error, ..p.common }
    };
    removed(c, q.common) && q == (Vp8dComp { common: q.common, ..p })
}

/// A decoder whose frame buffers were given up has none.
pub proof fn lemma_unsupplied(p: Vp8dComp, strip: bool, q: Vp8dComp)
    requires
        setup_ok(p),
        refs_placed(p.common),
        unsupplied(p, strip, q),
    ensures
        bare(q),
{
    assert forall|i: int| 0 <= i < 4 implies no_pixels(#[trigger] q.common.yv12_fb[i]) by {
        assert(no_buffer(q.common.yv12_fb[i]));
    }
}

/// Gives up the frame buffers, since there is no memory for new ones.
fn give_up_buffers(pbi: &mut Vp8dComp, strip: bool)
    requires
        setup_ok(*old(pbi)),
        refs_placed(old(pbi).common),
    ensures
        unsupplied(*old(pbi), strip, *final(pbi)),
        bare(*final(pbi)),
{
    if strip {
        pbi.common.new_fb_idx = 0;
        pbi.common.lst_fb_idx = 1;
        pbi.common.gld_fb_idx = 2;
        pbi.common.alt_fb_idx = 3;
    }
    let _ = vpx_internal_error::<()>(&mut pbi.common.error, VpxCodecErr::VPX_CODEC_MEM_ERROR);
    vp8_de_alloc_frame_buffers(&mut pbi.common);
    proof {
        lemma_unsupplied(*old(pbi), strip, *pbi);
    }
}

/// The frame buffers of a decoder are made for frames of its size.
pub open spec fn sized(cm: Vp8Common) -> bool {
    &&& 1 <= cm.width <= 16383
    &&& 1 <= cm.height <= 16383
    &&& cm.mb_rows == mbs_for(cm.height as int)
    &&& cm.mb_cols == mbs_for(cm.width as int)
}

/// The size that was found out, where it was, is that of the decoder's frames.
pub open spec fn size_known(si: VpxCodecStreamInfo, cm: Vp8Common) -> bool {
    si.w != 0 || si.h != 0 ==> si.w == cm.width && si.h == cm.height
}

/// What holds of the state of a stream: it has a decoder once a size is known.
pub open spec fn stream_ok(ctx: Vp8AlgPriv) -> bool {
    &&& fragments_ok(ctx.fragments)
    &&& ctx.si.w <= 16383
    &&& ctx.si.h <= 16383
    &&& ctx.decoder_init == 0 ==> ctx.yv12_frame_buffers.pbi is None && ctx.si.w == 0 && ctx.si.h
        == 0
    &&& ctx.decoder_init != 0 ==> {
        &&& ctx.yv12_frame_buffers.pbi is Some
        &&& at_rest(*(ctx.yv12_frame_buffers.pbi->0))
        &&& playing(*(ctx.yv12_frame_buffers.pbi->0)) ==> sized(
            ctx.yv12_frame_buffers.pbi->0.common,
        )
        &&& ctx.yv12_frame_buffers.pbi->0.ec_active == 0
        &&& size_known(ctx.si, ctx.yv12_frame_buffers.pbi->0.common)
    }
}

/// The frame `d` is a key frame with a start code.
pub open spec fn gives_size(d: Seq<u8>) -> bool {
    &&& d.len() >= 10
    &&& d[0] % 2 == 0
    &&& start_code(d)
}

/// Whether a frame can be decoded, after it was looked at with the given result: a frame that
/// is no key frame needs a decoder that was set up before.
pub open spec fn verdict(code: VpxCodecErr, is_kf: u32, decoder_init: i32) -> VpxCodecErr {
    if decoder_init == 0 && is_kf == 0 {
        VpxCodecErr::VPX_CODEC_UNSUP_BITSTREAM
    } else if code == VpxCodecErr::VPX_CODEC_UNSUP_BITSTREAM && is_kf == 0 {
        VpxCodecErr::VPX_CODEC_OK
    } else {
        code
    }
}

/// The decoder with a size for its frames.
pub open spec fn told_size(p: Vp8dComp, si: VpxCodecStreamInfo) -> Vp8dComp {
    Vp8dComp {
        common: Vp8Common { width: si.w as i32, height: si.h as i32, ..p.common },
        ..p
    }
}

/// `q` is `p` ready for frames of the size in `si`; where the size has not changed nothing is
/// done.
pub open spec fn made_ready(
    p: Vp8dComp,
    si: VpxCodecStreamInfo,
    change: bool,
    q: Vp8dComp,
) -> bool {
    if change {
        reallocated(told_size(p, si), q)
    } else {
        q == p
    }
}

/// The decoder after a frame: after an error the last frame counts as wrong, and the buffer of
/// the new frame is used once less.
pub open spec fn after_result(p: Vp8dComp, r: VpxResult<()>) -> Vp8dComp {
    match r {
        Ok(_) => p,
        Err(_) => {
            let last = p.common.lst_fb_idx as int;
            Vp8dComp {
                common: Vp8Common {
                    yv12_fb: spec_array_update(
                        p.common.yv12_fb,
                        last,
                        Yv12BufferConfig { corrupted: 1, ..p.common.yv12_fb[last] },
                    ),
                    fb_idx_ref_cnt: released(
                        p.common.fb_idx_ref_cnt,
                        p.common.new_fb_idx as int,
                    ),
                    ..p.common
                },
                ..p
            }
        },
    }
}

/// The code of a result: after an error the one that the decoder recorded.
pub open spec fn result_code(p: Vp8dComp, r: VpxResult<()>) -> VpxCodecErr {
    match r {
        Ok(_) => VpxCodecErr::VPX_CODEC_OK,
        Err(_) => p.common.error.error_code,
    }
}

/// The decoder's states before and after a frame, and the code. Where the frame needs frame
/// buffers and there is no memory for them, the decoder is left without any; a frame that then
/// needs them and has the same size finds none.
pub open spec fn frame_taken(
    p: Vp8dComp,
    si: VpxCodecStreamInfo,
    change: bool,
    f: FragmentData,
    m: Memory,
    q: Vp8dComp,
    code: VpxCodecErr,
) -> bool {
    let no_memory = VpxCodecErr::VPX_CODEC_MEM_ERROR;
    if change && m != Memory::Granted {
        unsupplied(told_size(p, si), m is NoStrip, q) && code == no_memory
    } else if !change && bare(p) && body_reached(p, f.data[0]@) {
        q == failed(p, no_memory) && code == no_memory
    } else {
        exists|p1: Vp8dComp, q1: Vp8dComp, r: VpxResult<()>|
            made_ready(p, si, change, p1) && #[trigger] received(p1, f, q1, r) && q
                == after_result(q1, r) && code == result_code(q1, r)
    }
}

/// Decodes a complete frame.
fn take_frame(
    pbi: &mut Vp8dComp,
    si: &VpxCodecStreamInfo,
    change: bool,
    fragments: &FragmentData,
    memory: &Memory,
) -> (code: VpxCodecErr)
    requires
        setup_ok(*old(pbi)),
        refs_placed(old(pbi).common),
        old(pbi).ec_active == 0,
        !change ==> at_rest(*old(pbi)) && size_known(*si, old(pbi).common),
        !change && playing(*old(pbi)) ==> sized(old(pbi).common),
        change ==> 1 <= si.w <= 16383 && 1 <= si.h <= 16383,
        gives_size(fragments.data[0]@) ==> ({
            let d = fragments.data[0]@;
            &&& si.w == (d[6] + 0x100 * d[7]) % 0x4000
            &&& si.h == (d[8] + 0x100 * d[9]) % 0x4000
            &&& si.w != 0
        }),
        fragments.data[0]@.len() > 0,
        fragments_ok(*fragments),
    ensures
        frame_taken(*old(pbi), *si, change, *fragments, *memory, *final(pbi), code),
        at_rest(*final(pbi)),
        playing(*final(pbi)) ==> sized(final(pbi).common),
        size_known(*si, final(pbi).common),
        final(pbi).ec_active == 0,
{
    let ghost p = *pbi;
    let mut buffers: bool = true;
    if change {
        pbi.common.width = si.w as i32;
        pbi.common.height = si.h as i32;
        let (refused, strip): (bool, bool) = match memory {
            Memory::Granted => (false, false),
            Memory::NoFrame(_) => (true, false),
            Memory::NoStrip(_) => (true, true),
        };
        if refused {
            give_up_buffers(pbi, strip);
            proof {
                lemma_not_both(*pbi);
            }
            return VpxCodecErr::VPX_CODEC_MEM_ERROR;
        }
        vp8_decode_resolution_change(pbi);
    } else {
        buffers = has_buffers(pbi);
        if !buffers && reaches_body(pbi, fragments.data[0].as_slice()) {
            let _ = vpx_internal_error::<()>(
                &mut pbi.common.error,
                VpxCodecErr::VPX_CODEC_MEM_ERROR,
            );
            proof {
                lemma_failed_bare(p, *pbi);
                lemma_not_both(*pbi);
            }
            return VpxCodecErr::VPX_CODEC_MEM_ERROR;
        }
    }
    let ghost p1 = *pbi;
    let r: VpxResult<()> = if buffers {
        vp8dx_receive_compressed_data(pbi, fragments)
    } else {
        receive_without_buffers(pbi, fragments)
    };
    let ghost q1 = *pbi;
    proof {
        assert(received(p1, *fragments, q1, r));
    }
    match r {
        Ok(_) => VpxCodecErr::VPX_CODEC_OK,
        Err(_) => {
            let last: usize = pbi.common.lst_fb_idx as usize;
            let new: usize = pbi.common.new_fb_idx as usize;
            pbi.common.yv12_fb[last].corrupted = 1;
            release_fb(&mut pbi.common.fb_idx_ref_cnt, new);
            proof {
                lemma_after_error(q1, *pbi);
                if bare(*pbi) {
                    lemma_not_both(*pbi);
                }
            }
            pbi.common.error.error_code
        },
    }
}

/// A decoder without frame buffers has none.
proof fn lemma_not_both(p: Vp8dComp)
    requires
        bare(p),
    ensures
        !playing(p),
{
    reveal(decoder_ok);
}

/// An error does not give a decoder frame buffers.
proof fn lemma_failed_bare(p: Vp8dComp, q: Vp8dComp)
    requires
        bare(p),
        q == failed(p, q.common.error.error_code),
    ensures
        bare(q),
{
    assert forall|i: int| 0 <= i < 4 implies -1 <= #[trigger] q.common.fb_idx_ref_cnt[i] <= uses(
        q.common,
        i,
    ) by {
        assert(-1 <= p.common.fb_idx_ref_cnt[i] <= uses(p.common, i));
    }
}

/// What follows an error keeps what holds of a decoder.
proof fn lemma_after_error(p: Vp8dComp, q: Vp8dComp)
    requires
        at_rest(p),
        q == after_result(p, Err(VpxCodecErr::VPX_CODEC_ERROR)),
    ensures
        playing(p) ==> playing(q),
        bare(p) ==> bare(q),
{
    if playing(p) {
        assert(decoder_ok(q)) by {
            reveal(decoder_ok);
            let rows = p.common.mb_rows as int;
            let cols = p.common.mb_cols as int;
            assert forall|i: int| 0 <= i < 4 implies (#[trigger] q.common.yv12_fb[i]).holds(
                rows,
                cols,
            ) by {
                assert(p.common.yv12_fb[i].holds(rows, cols));
            }
        }
    } else {
        assert forall|i: int| 0 <= i < 4 implies no_pixels(#[trigger] q.common.yv12_fb[i]) by {
            assert(no_pixels(p.common.yv12_fb[i]));
        }
    }
    assert forall|i: int| 0 <= i < 4 implies -1 <= #[trigger] q.common.fb_idx_ref_cnt[i] <= uses(
        q.common,
        i,
    ) by {
        assert(-1 <= p.common.fb_idx_ref_cnt[i] <= uses(p.common, i));
    }
}

/// A decoder between two frames was set up.
pub proof fn lemma_setup(p: Vp8dComp)
    requires
        at_rest(p),
    ensures
        setup_ok(p),
{
    reveal(decoder_ok);
}

/// The size of frames is another one.
pub open spec fn size_changed(before: VpxCodecStreamInfo, now: VpxCodecStreamInfo) -> bool {
    now.h != before.h || now.w != before.w
}

/// How pictures are postprocessed by default, where the user asked for it and did not say how.
pub open spec fn postproc_default(ctx: Vp8AlgPriv) -> Vp8PostprocCfg {
    if ctx.postproc_cfg_set == 0 && (ctx.init_flags & VPX_CODEC_USE_POSTPROC) != 0 {
        Vp8PostprocCfg { post_proc_flag: 0x13, deblocking_level: 4, noise_level: 0 }
    } else {
        ctx.postproc_cfg
    }
}

/// The states of a stream before and after a packet, and the code. The frame that the packet
/// completes is looked at first; a stream that has no decoder yet gets one with its first key
/// frame.
#[verifier::opaque]
pub open spec fn packet_taken(
    ctx: Vp8AlgPriv,
    data: Option<Seq<u8>>,
    m: Memory,
    q: Vp8AlgPriv,
    code: VpxCodecErr,
) -> bool {
    let (fs, status, fcode) = with_fragment(collected(ctx.fragments), data);
    let (si, pcode) = peeked(fs.data[0], ctx.si);
    let res = verdict(pcode, si.is_kf, ctx.decoder_init);
    let corrupt = VpxCodecErr::VPX_CODEC_CORRUPT_FRAME;
    let kept = Vp8AlgPriv { fragments: q.fragments, ..ctx };
    let seen = Vp8AlgPriv { si, ..kept };
    if ctx.fragments.enabled == 0 && data is None {
        q == ctx && code == VpxCodecErr::VPX_CODEC_OK
    } else if status <= 0 {
        q == kept && code == fcode && collected(q.fragments) == fs
    } else if res != VpxCodecErr::VPX_CODEC_OK {
        q == seen && code == res && collected(q.fragments) == fs
    } else if ctx.decoder_init != 0 && ctx.si.w == 0 && ctx.si.h == 0 && si.w == 0 && si.h == 0 {
        &&& code == corrupt
        &&& collected(q.fragments) == fs
        &&& q == (Vp8AlgPriv {
            yv12_frame_buffers: FrameBuffers {
                pbi: Some(Box::new(failed(*(ctx.yv12_frame_buffers.pbi->0), corrupt))),
            },
            ..seen
        })
    } else {
        let f = FragmentData { count: fs.count as u32, ..q.fragments };
        let change = size_changed(ctx.si, si);
        &&& collected(f) == fs
        &&& q.fragments.count == 0
        &&& q.yv12_frame_buffers.pbi is Some
        &&& q == (Vp8AlgPriv {
            decoder_init: if ctx.decoder_init == 0 {
                1
            } else {
                ctx.decoder_init
            },
            postproc_cfg: if ctx.decoder_init == 0 {
                postproc_default(ctx)
            } else {
                ctx.postproc_cfg
            },
            yv12_frame_buffers: q.yv12_frame_buffers,
            ..seen
        })
        &&& exists|p: Vp8dComp|
            (if ctx.decoder_init == 0 {
                is_new(p)
            } else {
                p == *(ctx.yv12_frame_buffers.pbi->0)
            }) && #[trigger] frame_taken(
                p,
                si,
                change,
                f,
                m,
                *(q.yv12_frame_buffers.pbi->0),
                code,
            )
    }
}

/// Makes the decoder of a stream.
fn open_decoder(ctx: &mut Vp8AlgPriv) -> (p: Box<Vp8dComp>)
    requires
        old(ctx).decoder_init == 0,
    ensures
        is_new(*p),
        setup_ok(*p),
        refs_placed(p.common),
        p.ec_active == 0,
        *final(ctx) == (Vp8AlgPriv {
            decoder_init: 1,
            postproc_cfg: postproc_default(*old(ctx)),
            yv12_frame_buffers: FrameBuffers { pbi: None },
            ..*old(ctx)
        }),
{
    let oxcf = Vp8dConfig {
        width: ctx.si.w as i32,
        height: ctx.si.h as i32,
        version: 9,
        postprocess: 0,
        max_threads: ctx.cfg.threads as i32,
        error_concealment: if (ctx.init_flags & VPX_CODEC_USE_ERROR_CONCEALMENT) != 0 {
            1
        } else {
            0
        },
    };
    if ctx.postproc_cfg_set == 0 && (ctx.init_flags & VPX_CODEC_USE_POSTPROC) != 0 {
        ctx.postproc_cfg.post_proc_flag = VP8_DEBLOCK + VP8_DEMACROBLOCK + VP8_MFQE;
        ctx.postproc_cfg.deblocking_level = 4;
        ctx.postproc_cfg.noise_level = 0;
    }
    let _ = vp8_create_decoder_instances(&mut ctx.yv12_frame_buffers, &oxcf);
    ctx.decoder_init = 1;
    let p: Box<Vp8dComp> = ctx.yv12_frame_buffers.pbi.take().unwrap();
    proof {
        lemma_new(*p);
    }
    p
}

/// Takes a packet of the stream: decodes the frame that it completes. Nothing at all is taken
/// as the end of a frame where frames are handed over in fragments.
/// `memory` tells what became of the request for the frame buffers that the frame needs.
pub fn vp8_decode(ctx: &mut Vp8AlgPriv, data: Option<&[u8]>, memory: &Memory) -> (code:
    VpxCodecErr)
    requires
        stream_ok(*old(ctx)),
        data is Some ==> data->0@.len() <= u32::MAX,
    ensures
        packet_taken(*old(ctx), bytes_of(data), *memory, *final(ctx), code),
        stream_ok(*final(ctx)),
{
    proof {
        reveal(packet_taken);
    }
    if ctx.fragments.enabled == 0 && data.is_none() {
        return VpxCodecErr::VPX_CODEC_OK;
    }
    let ghost c0 = *ctx;
    let mut fcode: VpxCodecErr = VpxCodecErr::VPX_CODEC_OK;
    if update_fragments(&mut ctx.fragments, data, &mut fcode) <= 0 {
        return fcode;
    }
    let w: u32 = ctx.si.w;
    let h: u32 = ctx.si.h;
    assert(ctx.fragments.data[0]@ == collected(ctx.fragments).data[0]);
    let mut res: VpxCodecErr = vp8_peek_si(ctx.fragments.data[0].as_slice(), &mut ctx.si);
    let ghost si = ctx.si;
    if res == VpxCodecErr::VPX_CODEC_UNSUP_BITSTREAM && ctx.si.is_kf == 0 {
        res = VpxCodecErr::VPX_CODEC_OK;
    }
    if ctx.decoder_init == 0 && ctx.si.is_kf == 0 {
        res = VpxCodecErr::VPX_CODEC_UNSUP_BITSTREAM;
    }
    if res != VpxCodecErr::VPX_CODEC_OK {
        return res;
    }
    if ctx.decoder_init != 0 && w == 0 && h == 0 && ctx.si.h == 0 && ctx.si.w == 0 {
        let mut b: Box<Vp8dComp> = ctx.yv12_frame_buffers.pbi.take().unwrap();
        let _ = vpx_internal_error::<()>(
            &mut b.common.error,
            VpxCodecErr::VPX_CODEC_CORRUPT_FRAME,
        );
        proof {
            lemma_failed_keeps(*(c0.yv12_frame_buffers.pbi->0), *b);
        }
        ctx.yv12_frame_buffers.pbi = Some(b);
        return VpxCodecErr::VPX_CODEC_CORRUPT_FRAME;
    }
    let change: bool = ctx.si.h != h || ctx.si.w != w;
    let mut b: Box<Vp8dComp> = if ctx.decoder_init == 0 {
        open_decoder(ctx)
    } else {
        proof {
            lemma_setup(*(ctx.yv12_frame_buffers.pbi->0));
        }
        ctx.yv12_frame_buffers.pbi.take().unwrap()
    };
    let ghost p = *b;
    let code: VpxCodecErr = take_frame(&mut b, &ctx.si, change, &ctx.fragments, memory);
    proof {
        assert(change == size_changed(c0.si, si));
        assert(frame_taken(p, si, change, ctx.fragments, *memory, *b, code));
    }
    let ghost f = ctx.fragments;
    ctx.yv12_frame_buffers.pbi = Some(b);
    ctx.fragments.count = 0;
    proof {
        let q = *ctx;
        let (fs, _, _) = with_fragment(collected(c0.fragments), bytes_of(data));
        let ff = FragmentData { count: fs.count as u32, ..q.fragments };
        assert(ff == f);
        assert(peeked(fs.data[0], c0.si).0 == si);
        assert(frame_taken(
            p,
            si,
            size_changed(c0.si, si),
            ff,
            *memory,
            *(q.yv12_frame_buffers.pbi->0),
            code,
        ));
    }
    code
}

/// An error does not change what holds of a decoder.
proof fn lemma_failed_keeps(p: Vp8dComp, q: Vp8dComp)
    requires
        at_rest(p),
        q == failed(p, VpxCodecErr::VPX_CODEC_CORRUPT_FRAME),
    ensures
        playing(p) ==> playing(q),
        bare(p) ==> bare(q) && !playing(q),
{
    if bare(p) {
        lemma_failed_bare(p, q);
        lemma_not_both(q);
    }
    if playing(p) {
        assert(decoder_ok(q)) by {
            reveal(decoder_ok);
        }
        assert forall|i: int| 0 <= i < 4 implies -1 <= #[trigger] q.common.fb_idx_ref_cnt[i]
            <= uses(q.common, i) by {
            assert(-1 <= p.common.fb_idx_ref_cnt[i] <= uses(p.common, i));
        }
    }
}

/// What a decoder is called and what it can do.
#[derive(Clone, Copy, Debug)]
pub struct VpxCodecIface {
    pub name: &'static str,
    pub caps: u32,
}

/// Frames can be handed over in fragments.
pub const VPX_CODEC_CAP_INPUT_FRAGMENTS: u32 = 0x10_0000;

/// There is a decoder.
pub const VPX_CODEC_CAP_DECODER: u32 = 0x1;

/// What the decoder is called and what it can do.
pub fn vpx_codec_vp8_dx() -> (i: VpxCodecIface)
    ensures
        i.name@ == "WebM Project VP8 Decoder"@,
        i.caps == VPX_CODEC_CAP_DECODER + VPX_CODEC_CAP_INPUT_FRAGMENTS,
{
    VpxCodecIface {
        name: "WebM Project VP8 Decoder",
        caps: VPX_CODEC_CAP_DECODER + VPX_CODEC_CAP_INPUT_FRAGMENTS,
    }
}

/// A key frame is intact, whatever state a decoder is in: its size is not zero, its first partition
/// is there, and so are its token partitions, and no reader goes past the end of its data.
pub open spec fn intact_key_frame(fs: Fragments) -> bool {
    let d = fs.data[0];
    &&& key_frame_starts(d)
    &&& (d[6] + 0x100 * d[7]) % 0x4000 != 0
    &&& (d[8] + 0x100 * d[9]) % 0x4000 != 0
    &&& forall|x: Vp8dComp, f: FragmentData| collected(f) == fs ==> #[trigger] parts_there(x, f)
    &&& forall|f: FragmentData| collected(f) == fs ==> #[trigger] read_whole(f)
}

/// A decoder that was given frame buffers has them.
proof fn lemma_reallocated(p: Vp8dComp, q: Vp8dComp)
    requires
        setup_ok(p),
        1 <= p.common.width <= 16383,
        1 <= p.common.height <= 16383,
        reallocated(p, q),
    ensures
        playing(q),
        q.common.mb_rows == mbs_for(p.common.height as int),
        q.common.mb_cols == mbs_for(p.common.width as int),
{
    let rows = mbs_for(p.common.height as int);
    let cols = mbs_for(p.common.width as int);
    let full = Vp8Common {
        fb_idx_ref_cnt: spec_array_fill_for_copy_type::<i32, 4>(1),
        ..q.common
    };
    lemma_allocated(full, rows, cols);
    assert(decoder_ok(q)) by {
        reveal(decoder_ok);
        assert forall|i: int| 0 <= i < 4 implies (#[trigger] q.common.yv12_fb[i]).holds(
            rows,
            cols,
        ) by {
            assert(full.yv12_fb[i].holds(rows, cols));
        }
    }
}

/// A packet with an intact key frame is taken without an error, where there is memory; where the
/// frame is meant to be shown there is a picture.
pub proof fn law_intact_key_frame_taken(
    ctx: Vp8AlgPriv,
    data: Seq<u8>,
    q: Vp8AlgPriv,
    code: VpxCodecErr,
)
    requires
        stream_ok(ctx),
        ctx.fragments.enabled == 0,
        ctx.decoder_init != 0 && bare(*(ctx.yv12_frame_buffers.pbi->0)) ==> size_changed(
            ctx.si,
            peeked(data, ctx.si).0,
        ),
        ctx.decoder_init != 0 && free_fb(ctx.yv12_frame_buffers.pbi->0.common.fb_idx_ref_cnt) >= 4
            ==> size_changed(ctx.si, peeked(data, ctx.si).0),
        packet_taken(ctx, Some(data), Memory::Granted, q, code),
        intact_key_frame(with_fragment(collected(ctx.fragments), Some(data)).0),
    ensures
        code == VpxCodecErr::VPX_CODEC_OK,
        q.yv12_frame_buffers.pbi is Some,
        (tag_number(data) / 16) % 2 == 1 ==> picture(*(q.yv12_frame_buffers.pbi->0)) is Some,
{
    reveal(packet_taken);
    let (fs, status, fcode) = with_fragment(collected(ctx.fragments), Some(data));
    law_packet_is_frame(collected(ctx.fragments), data);
    let (si, pcode) = peeked(fs.data[0], ctx.si);
    let f = FragmentData { count: fs.count as u32, ..q.fragments };
    let change = size_changed(ctx.si, si);
    let q0 = *(q.yv12_frame_buffers.pbi->0);
    let p = choose|p: Vp8dComp|
        (if ctx.decoder_init == 0 {
            is_new(p)
        } else {
            p == *(ctx.yv12_frame_buffers.pbi->0)
        }) && #[trigger] frame_taken(p, si, change, f, Memory::Granted, q0, code);
    let (p1, q1, r) = choose|p1: Vp8dComp, q1: Vp8dComp, r: VpxResult<()>|
        made_ready(p, si, change, p1) && #[trigger] received(p1, f, q1, r) && q0 == after_result(
            q1,
            r,
        ) && code == result_code(q1, r);
    assert(f.data[0]@ == collected(f).data[0]);
    if ctx.decoder_init == 0 {
        lemma_new(p);
    } else {
        lemma_setup(p);
    }
    if change {
        lemma_reallocated(told_size(p, si), p1);
    }
    assert forall|x: Vp8dComp| #[trigger] parts_there(x, f) by {
        assert(collected(f) == fs);
    }
    assert(read_whole(f));
    law_intact_key_frame_received(p1, f, q1, r);
}

/// What a look at the bytes of a frame tells, written out in them: the lowest bit of the first byte
/// tells key frames from others, and a key frame in order has its width and height in fourteen bits
/// each. Other frames leave the size that was known alone.
pub proof fn law_peek_bytes(d: Seq<u8>, si: VpxCodecStreamInfo)
    ensures
        ({
            let (s, code) = peeked(d, si);
            &&& code == VpxCodecErr::VPX_CODEC_OK ==> {
                &&& s.w == d[6] + 256 * (d[7] % 64)
                &&& s.h == d[8] + 256 * (d[9] % 64)
                &&& s.is_kf == 1
                &&& s.sz == si.sz
            }
            &&& d.len() > 0 ==> (s.is_kf == 1 <==> d.len() >= 10 && d[0] % 2 == 0)
            &&& d.len() > 0 && s.is_kf != 1 ==> {
                &&& s.is_kf == 0
                &&& s.w == si.w
                &&& s.h == si.h
                &&& code == VpxCodecErr::VPX_CODEC_UNSUP_BITSTREAM
            }
            &&& d.len() == 0 ==> s == si && code == VpxCodecErr::VPX_CODEC_INVALID_PARAM
        }),
{
    if d.len() >= 10 {
        lemma_low_bits(d[6] as int, d[7] as int);
        lemma_low_bits(d[8] as int, d[9] as int);
    }
}

proof fn lemma_low_bits(x: int, y: int)
    requires
        0 <= x < 256,
        0 <= y < 256,
    ensures
        (x + 0x100 * y) % 0x4000 == x + 256 * (y % 64),
{
    assert(x + 0x100 * y == 0x4000 * (y / 64) + (x + 256 * (y % 64)));
}

/// A frame other than a key frame is decoded whenever there is a decoder, and never before; a key
/// frame goes by what the look at it said.
pub proof fn law_verdict(d: Seq<u8>, si: VpxCodecStreamInfo, decoder_init: i32)
    requires
        d.len() > 0,
    ensures
        ({
            let (s, code) = peeked(d, si);
            let v = verdict(code, s.is_kf, decoder_init);
            &&& s.is_kf == 0 && decoder_init == 0 ==> v == VpxCodecErr::VPX_CODEC_UNSUP_BITSTREAM
            &&& s.is_kf == 0 && decoder_init != 0 ==> v == VpxCodecErr::VPX_CODEC_OK
            &&& s.is_kf == 1 ==> v == code
        }),
{
}

/// An error marks the last frame as wrong and gives up the new frame's buffer, and leaves
/// everything else as it was, the pixels of all buffers among it. Without an error nothing changes.
pub proof fn law_error_marks_last(p: Vp8dComp, e: VpxCodecErr, i: int)
    requires
        refs_placed(p.common),
        0 <= i < 4,
    ensures
        after_result(p, Ok(())) == p,
        ({
            let q = after_result(p, Err(e));
            &&& i == p.common.lst_fb_idx ==> q.common.yv12_fb[i].corrupted == 1
            &&& i != p.common.lst_fb_idx ==> q.common.yv12_fb[i] == p.common.yv12_fb[i]
            &&& q.common.yv12_fb[i].planes == p.common.yv12_fb[i].planes
            &&& i != p.common.new_fb_idx ==> q.common.fb_idx_ref_cnt[i]
                == p.common.fb_idx_ref_cnt[i]
            &&& i == p.common.new_fb_idx ==> q.common.fb_idx_ref_cnt[i] == (
            if p.common.fb_idx_ref_cnt[i] > 0 {
                p.common.fb_idx_ref_cnt[i] - 1
            } else {
                p.common.fb_idx_ref_cnt[i] as int
            })
            &&& q == (Vp8dComp {
                common: Vp8Common {
                    yv12_fb: q.common.yv12_fb,
                    fb_idx_ref_cnt: q.common.fb_idx_ref_cnt,
                    ..p.common
                },
                ..p
            })
        }),
{
}

/// `ctx` with the settings of `m` that decoding has nothing to do with: the configuration, the
/// picture that was given last, and what is to be done to pictures afterwards.
pub open spec fn with_settings(ctx: Vp8AlgPriv, m: Vp8AlgPriv) -> Vp8AlgPriv {
    Vp8AlgPriv {
        cfg: m.cfg,
        postproc_cfg_set: m.postproc_cfg_set,
        postproc_cfg: m.postproc_cfg,
        img: m.img,
        img_setup: m.img_setup,
        ..ctx
    }
}

/// What becomes of a packet does not depend on settings, nor on whether the picture before was
/// asked for: the code, what is known of the stream and the decoder afterwards are the same.
pub proof fn law_packet_whatever_settings(
    ctx: Vp8AlgPriv,
    m: Vp8AlgPriv,
    data: Option<Seq<u8>>,
    memory: Memory,
    q: Vp8AlgPriv,
    code: VpxCodecErr,
)
    requires
        packet_taken(ctx, data, memory, q, code),
        ctx.decoder_init != 0,
    ensures
        packet_taken(with_settings(ctx, m), data, memory, with_settings(q, m), code),
{
    reveal(packet_taken);
    let c = with_settings(ctx, m);
    let r = with_settings(q, m);
    let (fs, status, fcode) = with_fragment(collected(ctx.fragments), data);
    let (si, pcode) = peeked(fs.data[0], ctx.si);
    let res = verdict(pcode, si.is_kf, ctx.decoder_init);
    if !(ctx.fragments.enabled == 0 && data is None) && status > 0 && res
        == VpxCodecErr::VPX_CODEC_OK && !(ctx.si.w == 0 && ctx.si.h == 0 && si.w == 0 && si.h
        == 0) {
        let f = FragmentData { count: fs.count as u32, ..q.fragments };
        let change = size_changed(ctx.si, si);
        let p = choose|p: Vp8dComp|
            p == *(ctx.yv12_frame_buffers.pbi->0) && #[trigger] frame_taken(
                p,
                si,
                change,
                f,
                memory,
                *(q.yv12_frame_buffers.pbi->0),
                code,
            );
        assert(frame_taken(p, si, change, f, memory, *(r.yv12_frame_buffers.pbi->0), code));
    }
}

/// A change of size gives the decoder frame buffers that cover the new size and hold nothing, one
/// for each reference frame and a free one, and no picture to show. What it knows of probabilities,
/// segments and filters stays, and whether it decoded a key frame. Without a change nothing
/// happens.
pub proof fn law_size_change(p: Vp8dComp, si: VpxCodecStreamInfo, q: Vp8dComp, i: int)
    requires
        1 <= si.w <= 16383,
        1 <= si.h <= 16383,
        0 <= i < 4,
    ensures
        made_ready(p, si, false, q) ==> q == p,
        made_ready(p, si, true, q) ==> {
            let c = q.common;
            &&& c.width == si.w && c.height == si.h
            &&& si.w <= 16 * c.mb_cols < si.w + 16
            &&& si.h <= 16 * c.mb_rows < si.h + 16
            &&& c.yv12_fb[i].y_width == 16 * c.mb_cols
            &&& c.yv12_fb[i].y_height == 16 * c.mb_rows
            &&& all_zero(c.yv12_fb[i].planes.y@)
            &&& all_zero(c.yv12_fb[i].planes.u@)
            &&& all_zero(c.yv12_fb[i].planes.v@)
            &&& c.lst_fb_idx != c.gld_fb_idx && c.lst_fb_idx != c.alt_fb_idx && c.gld_fb_idx
                != c.alt_fb_idx
            &&& counts_exact(c)
            &&& picture(q) is None
            &&& c.fc == p.common.fc && c.lfc == p.common.lfc
            &&& c.lf_info == p.common.lf_info
            &&& c.base_qindex == p.common.base_qindex
            &&& q.mb.segment_feature_data == p.mb.segment_feature_data
            &&& q.mb.ref_lf_deltas == p.mb.ref_lf_deltas
            &&& q.mb.mode_lf_deltas == p.mb.mode_lf_deltas
            &&& q.decoded_key_frame == p.decoded_key_frame
            &&& q.ready_for_new_data == p.ready_for_new_data
        },
{
    if made_ready(p, si, true, q) {
        let full = Vp8Common {
            fb_idx_ref_cnt: spec_array_fill_for_copy_type::<i32, 4>(1),
            ..q.common
        };
        let b = full.yv12_fb[i];
        assert(b == q.common.yv12_fb[i]);
        assert(b.holds(mbs_for(si.h as int), mbs_for(si.w as int)));
        assert(all_zero(b.planes.y@));
    }
}

/// A packet of nothing, where frames are not handed over in pieces, changes nothing and is no
/// error.
pub proof fn law_empty_packet(ctx: Vp8AlgPriv, m: Memory, q: Vp8AlgPriv, code: VpxCodecErr)
    requires
        packet_taken(ctx, None, m, q, code),
        ctx.fragments.enabled == 0,
    ensures
        q == ctx,
        code == VpxCodecErr::VPX_CODEC_OK,
{
    reveal(packet_taken);
}

/// A piece of a frame, as long as it is not the last, is only kept: neither the decoder nor what is
/// known of the stream changes.
pub proof fn law_piece_kept(
    ctx: Vp8AlgPriv,
    d: Seq<u8>,
    m: Memory,
    q: Vp8AlgPriv,
    code: VpxCodecErr,
)
    requires
        packet_taken(ctx, Some(d), m, q, code),
        ctx.fragments.enabled != 0,
        fragments_ok(ctx.fragments),
    ensures
        q == (Vp8AlgPriv { fragments: q.fragments, ..ctx }),
        ctx.fragments.count < 9 ==> {
            &&& code == VpxCodecErr::VPX_CODEC_OK
            &&& q.fragments.count == ctx.fragments.count + 1
            &&& fragments_of(q.fragments)[ctx.fragments.count as int] == d
        },
        ctx.fragments.count >= 9 ==> code == VpxCodecErr::VPX_CODEC_INVALID_PARAM,
{
    reveal(packet_taken);
}

/// The error of a frame is the code of its packet.
pub proof fn law_code_is_error(p: Vp8dComp, f: FragmentData, q: Vp8dComp, r: VpxResult<()>)
    requires
        received(p, f, q, r),
    ensures
        r is Ok ==> result_code(q, r) == VpxCodecErr::VPX_CODEC_OK,
        r matches Err(e) ==> result_code(q, r) == e,
{
    if let Err(e) = r {
        law_error_recorded(p, f, q, e);
    }
}

} // verus!
