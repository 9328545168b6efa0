//! The tag that every frame starts with, and what is set up at the start of a frame.

use crate::alloccommon::{vp8_setup_version, with_version};
use crate::decodemv::modes_fit;
use crate::entropy::vp8_default_coef_probs;
use crate::entropymode::{default_mode_probs, vp8_init_mbmode_probs};
use crate::grid::put;
use crate::intramode::cell_ok;
use crate::reconinter::mask_ok;
use crate::tables::{
    DEFAULT_COEF_PROBS, SUB_MV_REF_PROB, VP8_DEFAULT_MV_CONTEXT, VP8_UV_MODE_PROB,
    VP8_YMODE_PROB,
};
use crate::types::{
    FrameContext, FrameType, Macroblockd, MbModeInfo, MbPredictionMode, ModeInfo, SubpixFn,
    Vp8Common, Vp8dComp, VpxCodecErr, VpxInternalErrorInfo, VpxResult, Yv12BufferConfig,
};
use vstd::array::{spec_array_fill_for_copy_type, spec_array_update};
use vstd::prelude::*;

verus! {

/// `p` after an error.
pub open spec fn failed(p: Vp8dComp, e: VpxCodecErr) -> Vp8dComp {
    Vp8dComp {
        common: Vp8Common { error: VpxInternalErrorInfo { error_code: e }, ..p.common },
        ..p
    }
}

/// Records an error and returns it.
pub fn vpx_internal_error<T>(
    info: &mut VpxInternalErrorInfo,
    error: VpxCodecErr,
) -> (r: VpxResult<T>)
    ensures
        r == Err::<T, VpxCodecErr>(error),
        *final(info) == (VpxInternalErrorInfo { error_code: error }),
{
    info.error_code = error;
    Err(error)
}

/// The frame buffer is marked as holding right pixels.
pub open spec fn uncorrupted(p: Vp8dComp, k: int) -> Vp8dComp {
    Vp8dComp {
        mb: Macroblockd { corrupted: 0, ..p.mb },
        common: Vp8Common {
            yv12_fb: spec_array_update(
                p.common.yv12_fb,
                k,
                Yv12BufferConfig { corrupted: 0, ..p.common.yv12_fb[k] },
            ),
            ..p.common
        },
        ..p
    }
}

/// The three bytes of the tag as a number.
pub open spec fn tag_number(d: Seq<u8>) -> int {
    d[0] + 0x100 * d[1] + 0x1_0000 * d[2]
}

/// What the tag says of the frame.
pub open spec fn tagged(p: Vp8dComp, d: Seq<u8>) -> Vp8dComp {
    let n = tag_number(d);
    Vp8dComp {
        common: Vp8Common {
            frame_type: if n % 2 == 0 {
                FrameType::Key
            } else {
                FrameType::Inter
            },
            version: ((n / 2) % 8) as i32,
            show_frame: ((n / 16) % 2) as i32,
            ..p.common
        },
        ..p
    }
}

/// The start code of a key frame.
pub open spec fn start_code(d: Seq<u8>) -> bool {
    d[3] == 0x9d && d[4] == 0x01 && d[5] == 0x2a
}

/// The size of a key frame, and how it is to be scaled.
pub open spec fn resized(p: Vp8dComp, d: Seq<u8>) -> Vp8dComp {
    Vp8dComp {
        common: Vp8Common {
            width: ((d[6] + 0x100 * d[7]) % 0x4000) as i32,
            horiz_scale: (d[7] / 64) as i32,
            height: ((d[8] + 0x100 * d[9]) % 0x4000) as i32,
            vert_scale: (d[9] / 64) as i32,
            ..p.common
        },
        ..p
    }
}

/// The size of frames stays as it is, or is the one that the key frame `d` gives. Either way the
/// number of macroblocks stays.
pub open spec fn size_follows(p: Vp8Common, d: Seq<u8>, q: Vp8Common) -> bool {
    &&& q.mb_rows == p.mb_rows
    &&& q.mb_cols == p.mb_cols
    &&& {
        ||| q.width == p.width && q.height == p.height
        ||| {
            &&& d.len() >= 10
            &&& d[0] % 2 == 0
            &&& start_code(d)
            &&& q.width == (d[6] + 0x100 * d[7]) % 0x4000
            &&& q.height == (d[8] + 0x100 * d[9]) % 0x4000
        }
    }
}

/// The state after the tag of the frame `d` was read, and either the length of the first
/// partition and where it starts, or an error.
#[verifier::opaque]
pub open spec fn frame_tag(p: Vp8dComp, d: Seq<u8>) -> (Vp8dComp, Result<(int, int), VpxCodecErr>) {
    let p0 = uncorrupted(p, p.dec_fb_ref_idx[0] as int);
    let ec = p.ec_active != 0;
    let corrupt = VpxCodecErr::VPX_CODEC_CORRUPT_FRAME;
    let unsupported = VpxCodecErr::VPX_CODEC_UNSUP_BITSTREAM;
    if d.len() < 3 {
        if ec {
            (
                Vp8dComp {
                    common: Vp8Common {
                        frame_type: FrameType::Inter,
                        version: 0,
                        show_frame: 1,
                        ..p0.common
                    },
                    ..p0
                },
                Ok((0, 0)),
            )
        } else {
            (failed(p0, corrupt), Err(corrupt))
        }
    } else {
        let p1 = tagged(p0, d);
        let len = tag_number(d) / 32;
        if !ec && len == 0 {
            (failed(p1, corrupt), Err(corrupt))
        } else {
            let p2 = Vp8dComp { common: with_version(p1.common), ..p1 };
            if p2.common.frame_type == FrameType::Key {
                if d.len() >= 10 {
                    if start_code(d) {
                        (resized(p2, d), Ok((len, 10)))
                    } else {
                        (failed(p2, unsupported), Err(unsupported))
                    }
                } else if ec {
                    (p2, Ok((len, d.len() as int)))
                } else {
                    (failed(p2, corrupt), Err(corrupt))
                }
            } else {
                (p2, Ok((len, 3)))
            }
        }
    }
}

/// A frame's numbers fit its buffers.
pub open spec fn indices_ok(p: Vp8dComp) -> bool {
    forall|i: int| 0 <= i < 4 ==> 0 <= #[trigger] p.dec_fb_ref_idx[i] < 4
}

/// Reads the tag of a frame. Gives the length of the first partition and where it starts.
pub fn read_frame_tag(pbi: &mut Vp8dComp, data: &[u8]) -> (r: VpxResult<(usize, usize)>)
    requires
        indices_ok(*old(pbi)),
    ensures
        ({
            let (p, s) = frame_tag(*old(pbi), data@);
            &&& *final(pbi) == p
            &&& match s {
                Ok((len, at)) => r is Ok && r->Ok_0.0 == len && r->Ok_0.1 == at,
                Err(e) => r == Err::<(usize, usize), VpxCodecErr>(e),
            }
        }),
        r is Ok ==> r->Ok_0.0 <= 0x7_ffff && r->Ok_0.1 <= data@.len(),
        r is Ok && data@.len() >= 3 ==> r->Ok_0.0 == data@[0] / 32 + 8 * data@[1] + 2048
            * data@[2],
{
    proof {
        reveal(frame_tag);
        assert(0 <= pbi.dec_fb_ref_idx[0] < 4);
    }
    pbi.mb.corrupted = 0;
    let new_idx: usize = pbi.dec_fb_ref_idx[0] as usize;
    pbi.common.yv12_fb[new_idx].corrupted = 0;
    assert(*pbi == uncorrupted(*old(pbi), old(pbi).dec_fb_ref_idx[0] as int));
    let n: usize = data.len();
    if n < 3 {
        if pbi.ec_active == 0 {
            return vpx_internal_error(
                &mut pbi.common.error,
                VpxCodecErr::VPX_CODEC_CORRUPT_FRAME,
            );
        }
        pbi.common.frame_type = FrameType::Inter;
        pbi.common.version = 0;
        pbi.common.show_frame = 1;
        return Ok((0, 0));
    }
    let tag: u32 = data[0] as u32 + 0x100 * (data[1] as u32) + 0x1_0000 * (data[2] as u32);
    pbi.common.frame_type = if tag % 2 == 0 {
        FrameType::Key
    } else {
        FrameType::Inter
    };
    pbi.common.version = ((tag / 2) % 8) as i32;
    pbi.common.show_frame = ((tag / 16) % 2) as i32;
    let len: usize = (tag / 32) as usize;
    if pbi.ec_active == 0 && len == 0 {
        return vpx_internal_error(&mut pbi.common.error, VpxCodecErr::VPX_CODEC_CORRUPT_FRAME);
    }
    vp8_setup_version(&mut pbi.common);
    if pbi.common.frame_type != FrameType::Key {
        return Ok((len, 3));
    }
    if n >= 10 {
        if data[3] != 0x9d || data[4] != 0x01 || data[5] != 0x2a {
            return vpx_internal_error(
                &mut pbi.common.error,
                VpxCodecErr::VPX_CODEC_UNSUP_BITSTREAM,
            );
        }
        pbi.common.width = ((data[6] as u32 + 0x100 * (data[7] as u32)) % 0x4000) as i32;
        pbi.common.horiz_scale = (data[7] / 64) as i32;
        pbi.common.height = ((data[8] as u32 + 0x100 * (data[9] as u32)) % 0x4000) as i32;
        pbi.common.vert_scale = (data[9] / 64) as i32;
        Ok((len, 10))
    } else if pbi.ec_active == 0 {
        vpx_internal_error(&mut pbi.common.error, VpxCodecErr::VPX_CODEC_CORRUPT_FRAME)
    } else {
        Ok((len, n))
    }
}

/// What a key frame resets in the state that frames share.
pub open spec fn key_common(cm: Vp8Common) -> Vp8Common {
    Vp8Common {
        fc: FrameContext {
            mvc: VP8_DEFAULT_MV_CONTEXT,
            coef_probs: DEFAULT_COEF_PROBS,
            ..default_mode_probs(cm.fc)
        },
        refresh_golden_frame: 1,
        refresh_alt_ref_frame: 1,
        copy_buffer_to_gf: 0,
        copy_buffer_to_arf: 0,
        ref_frame_sign_bias: spec_array_update(
            spec_array_update(cm.ref_frame_sign_bias, 2, 0),
            3,
            0,
        ),
        ..cm
    }
}

/// What a key frame resets in the working area.
pub open spec fn key_mb(mb: Macroblockd) -> Macroblockd {
    Macroblockd {
        segment_feature_data: spec_array_fill_for_copy_type::<[i8; 4], 2>(
            spec_array_fill_for_copy_type::<i8, 4>(0),
        ),
        mb_segment_abs_delta: 0,
        ref_lf_deltas: spec_array_fill_for_copy_type::<i8, 4>(0),
        mode_lf_deltas: spec_array_fill_for_copy_type::<i8, 4>(0),
        ..mb
    }
}

/// The state at the start of a frame, but for the modes of its macroblocks.
#[verifier::opaque]
pub open spec fn frame_started(p: Vp8dComp) -> Vp8dComp {
    let key = p.common.frame_type == FrameType::Key;
    let mb = if key {
        key_mb(p.mb)
    } else {
        Macroblockd {
            subpixel_predict: if p.common.use_bilinear_mc_filter == 0 {
                SubpixFn::Sixtap
            } else {
                SubpixFn::Bilinear
            },
            ..p.mb
        }
    };
    Vp8dComp {
        mb: Macroblockd {
            frame_type: p.common.frame_type,
            mode_info_stride: p.common.mode_info_stride,
            corrupted: 0,
            fullpixel_mask: if p.common.full_pixel != 0 {
                (-8) as i32
            } else {
                (-1) as i32
            },
            ..mb
        },
        common: if key {
            key_common(p.common)
        } else {
            p.common
        },
        ..p
    }
}

/// The modes with the first macroblock's luma mode reset.
pub open spec fn first_mode_reset(g: Seq<Seq<ModeInfo>>) -> Seq<Seq<ModeInfo>> {
    put(
        g,
        1,
        1,
        ModeInfo {
            mbmi: MbModeInfo { mode: MbPredictionMode::DcPred, ..g[1][1].mbmi },
            ..g[1][1]
        },
    )
}

/// `p` with the modes of `q`.
pub open spec fn with_modes(p: Vp8dComp, q: Vp8dComp) -> Vp8dComp {
    Vp8dComp { common: Vp8Common { mip: q.common.mip, ..p.common }, ..p }
}

fn reset_for_key(pbi: &mut Vp8dComp)
    ensures
        *final(pbi) == (Vp8dComp {
            mb: key_mb(old(pbi).mb),
            common: key_common(old(pbi).common),
            ..*old(pbi)
        }),
{
    pbi.common.fc.mvc = VP8_DEFAULT_MV_CONTEXT;
    vp8_init_mbmode_probs(&mut pbi.common);
    vp8_default_coef_probs(&mut pbi.common);
    pbi.mb.segment_feature_data = [[0i8; 4]; 2];
    pbi.mb.mb_segment_abs_delta = 0;
    pbi.mb.ref_lf_deltas = [0i8; 4];
    pbi.mb.mode_lf_deltas = [0i8; 4];
    pbi.common.refresh_golden_frame = 1;
    pbi.common.refresh_alt_ref_frame = 1;
    pbi.common.copy_buffer_to_gf = 0;
    pbi.common.copy_buffer_to_arf = 0;
    pbi.common.ref_frame_sign_bias[2] = 0;
    pbi.common.ref_frame_sign_bias[3] = 0;
}

/// Sets up what a frame starts with.
pub fn init_frame(pbi: &mut Vp8dComp)
    requires
        modes_fit(old(pbi).common),
    ensures
        *final(pbi) == with_modes(frame_started(*old(pbi)), *final(pbi)),
        final(pbi).common.mip@ == first_mode_reset(old(pbi).common.mip@),
        modes_fit(final(pbi).common),
        mask_ok(final(pbi).mb.fullpixel_mask),
{
    proof {
        reveal(frame_started);
        pbi.common.mip.lemma_rect();
    }
    if pbi.common.frame_type == FrameType::Key {
        reset_for_key(pbi);
    } else if pbi.common.use_bilinear_mc_filter == 0 {
        pbi.mb.subpixel_predict = SubpixFn::Sixtap;
    } else {
        pbi.mb.subpixel_predict = SubpixFn::Bilinear;
    }
    pbi.mb.frame_type = pbi.common.frame_type;
    let ghost g0 = pbi.common.mip@;
    let mut first: ModeInfo = pbi.common.mip.get(1, 1);
    assert(cell_ok(g0[1][1]));
    first.mbmi.mode = MbPredictionMode::DcPred;
    pbi.common.mip.set(1, 1, first);
    proof {
        let g = pbi.common.mip@;
        assert forall|r: int, c: int|
            0 <= r < g.len() && 0 <= c < g[r].len() implies cell_ok(
            #[trigger] g[r][c],
        ) by {
            if !(r == 1 && c == 1) {
                assert(g[r][c] == g0[r][c]);
                assert(g[r].len() == g0[r].len());
            }
        }
    }
    pbi.mb.mode_info_stride = pbi.common.mode_info_stride;
    pbi.mb.corrupted = 0;
    pbi.mb.fullpixel_mask = -1;
    if pbi.common.full_pixel != 0 {
        pbi.mb.fullpixel_mask = -8;
    }
}

/// The parts of a number of three bytes.
proof fn lemma_tag_bits(x: int, y: int, z: int)
    requires
        0 <= x < 256,
        0 <= y,
        0 <= z,
    ensures
        ({
            let n = x + 0x100 * y + 0x1_0000 * z;
            &&& n / 32 == x / 32 + 8 * y + 2048 * z
            &&& n % 2 == x % 2
            &&& (n / 2) % 8 == (x % 16) / 2
            &&& (n / 16) % 2 == (x % 32) / 16
        }),
{
    let m = 8 * y + 2048 * z;
    let n = x + 0x100 * y + 0x1_0000 * z;
    assert(n == x + 32 * m);
    assert(n / 32 == x / 32 + m);
    assert(n / 2 == x / 2 + 16 * m);
    assert(n / 16 == x / 16 + 2 * m);
}

/// The lowest fourteen bits of a number of two bytes.
proof fn lemma_size_bits(x: int, y: int)
    requires
        0 <= x < 256,
        0 <= y < 256,
    ensures
        (x + 0x100 * y) % 0x4000 == x + 256 * (y % 64),
{
    assert(x + 0x100 * y == 0x4000 * (y / 64) + (x + 256 * (y % 64)));
}

/// What a tag says, written out in the bytes of the frame: the length of the first partition
/// takes up all bits of the three bytes but the lowest five, of which the lowest tells key frames
/// from others, three give the version and the last tells whether the frame is shown. A key frame
/// has its size in the bytes after its start code; any other frame leaves the size alone.
pub proof fn law_tag_bytes(p: Vp8dComp, d: Seq<u8>)
    requires
        d.len() >= 3,
        frame_tag(p, d).1 is Ok,
    ensures
        ({
            let (q, s) = frame_tag(p, d);
            let (len, at) = s->Ok_0;
            let c = q.common;
            &&& len == d[0] / 32 + 8 * d[1] + 2048 * d[2]
            &&& (c.frame_type == FrameType::Key <==> d[0] % 2 == 0)
            &&& c.version == (d[0] % 16) / 2
            &&& c.show_frame == (d[0] % 32) / 16
            &&& (c.use_bilinear_mc_filter != 0 <==> 1 <= (d[0] % 16) / 2 <= 3)
            &&& (c.full_pixel != 0 <==> (d[0] % 16) / 2 == 3)
            &&& (d[0] % 2 == 0 && d.len() >= 10 ==> {
                &&& at == 10
                &&& d[3] == 0x9d && d[4] == 0x01 && d[5] == 0x2a
                &&& c.width == d[6] + 256 * (d[7] % 64)
                &&& c.height == d[8] + 256 * (d[9] % 64)
                &&& c.horiz_scale == d[7] / 64
                &&& c.vert_scale == d[9] / 64
            })
            &&& (d[0] % 2 == 1 ==> {
                &&& at == 3
                &&& c.width == p.common.width
                &&& c.height == p.common.height
                &&& c.horiz_scale == p.common.horiz_scale
                &&& c.vert_scale == p.common.vert_scale
            })
        }),
{
    reveal(frame_tag);
    lemma_tag_bits(d[0] as int, d[1] as int, d[2] as int);
    if d.len() >= 10 {
        lemma_size_bits(d[6] as int, d[7] as int);
        lemma_size_bits(d[8] as int, d[9] as int);
    }
}

/// Two frames whose tags are in order have first partitions whose lengths lie as far apart as
/// their bytes say: the second byte counts eight, and the third byte 2048.
pub proof fn law_tag_lengths_apart(p: Vp8dComp, q: Vp8dComp, d: Seq<u8>, e: Seq<u8>)
    requires
        d.len() >= 3,
        e.len() >= 3,
        d[0] / 32 == e[0] / 32,
        frame_tag(p, d).1 is Ok,
        frame_tag(q, e).1 is Ok,
    ensures
        frame_tag(q, e).1->Ok_0.0 - frame_tag(p, d).1->Ok_0.0 == 8 * (e[1] - d[1]) + 2048 * (e[2]
            - d[2]),
{
    law_tag_bytes(p, d);
    law_tag_bytes(q, e);
}

/// Where no errors are concealed, the tag of a frame is in order if and only if it is there, its
/// first partition is not empty, and a key frame has all of its ten bytes and the start code.
/// Nothing else counts, whatever the decoder has seen before.
pub proof fn law_tag_accepted(p: Vp8dComp, d: Seq<u8>)
    requires
        p.ec_active == 0,
    ensures
        frame_tag(p, d).1 is Ok <==> {
            &&& d.len() >= 3
            &&& d[0] >= 32 || d[1] > 0 || d[2] > 0
            &&& d[0] % 2 == 1 || (d.len() >= 10 && d[3] == 0x9d && d[4] == 0x01 && d[5] == 0x2a)
        },
        frame_tag(p, d).1 == Err::<(int, int), VpxCodecErr>(
            VpxCodecErr::VPX_CODEC_UNSUP_BITSTREAM,
        ) <==> {
            &&& d.len() >= 10
            &&& d[0] % 2 == 0
            &&& d[0] >= 32 || d[1] > 0 || d[2] > 0
            &&& !(d[3] == 0x9d && d[4] == 0x01 && d[5] == 0x2a)
        },
        frame_tag(p, d).1 is Err && frame_tag(p, d).1->Err_0
            != VpxCodecErr::VPX_CODEC_UNSUP_BITSTREAM ==> frame_tag(p, d).1->Err_0
            == VpxCodecErr::VPX_CODEC_CORRUPT_FRAME,
{
    reveal(frame_tag);
    if d.len() >= 3 {
        lemma_tag_bits(d[0] as int, d[1] as int, d[2] as int);
    }
}

/// Reading a tag touches nothing but what the tag speaks of: everything else of the decoder is as
/// it was, and what the tag says does not depend on it.
pub proof fn law_tag_touches_little(p: Vp8dComp, q: Vp8dComp, d: Seq<u8>)
    requires
        p.ec_active == q.ec_active,
    ensures
        frame_tag(p, d).1 == frame_tag(q, d).1,
        ({
            let (x, y) = (frame_tag(p, d).0, frame_tag(q, d).0);
            &&& d.len() >= 3 ==> {
                &&& x.common.frame_type == y.common.frame_type
                &&& x.common.version == y.common.version
                &&& x.common.show_frame == y.common.show_frame
            }
            &&& frame_tag(p, d).1 is Ok && d.len() >= 3 ==> {
                &&& x.common.no_lpf == y.common.no_lpf
                &&& x.common.filter_type == y.common.filter_type
                &&& x.common.use_bilinear_mc_filter == y.common.use_bilinear_mc_filter
                &&& x.common.full_pixel == y.common.full_pixel
            }
            &&& x == (Vp8dComp {
                mb: Macroblockd { corrupted: 0, ..p.mb },
                common: Vp8Common {
                    error: x.common.error,
                    yv12_fb: x.common.yv12_fb,
                    frame_type: x.common.frame_type,
                    version: x.common.version,
                    show_frame: x.common.show_frame,
                    width: x.common.width,
                    height: x.common.height,
                    horiz_scale: x.common.horiz_scale,
                    vert_scale: x.common.vert_scale,
                    no_lpf: x.common.no_lpf,
                    filter_type: x.common.filter_type,
                    use_bilinear_mc_filter: x.common.use_bilinear_mc_filter,
                    full_pixel: x.common.full_pixel,
                    ..p.common
                },
                ..p
            })
        }),
{
    reveal(frame_tag);
}

/// A key frame starts with the default probabilities of motion vectors, coefficients and modes,
/// whatever the decoder held before. Segments and loop filter adjustments say nothing yet, the
/// golden and alternate reference frames are replaced by the frame itself and lie on the same
/// side as the last one.
pub proof fn law_key_frame_defaults(p: Vp8dComp)
    requires
        p.common.frame_type == FrameType::Key,
    ensures
        ({
            let q = frame_started(p);
            &&& q.common.fc.mvc == VP8_DEFAULT_MV_CONTEXT
            &&& q.common.fc.coef_probs == DEFAULT_COEF_PROBS
            &&& q.common.fc.ymode_prob == VP8_YMODE_PROB
            &&& q.common.fc.uv_mode_prob == VP8_UV_MODE_PROB
            &&& q.common.fc.sub_mv_ref_prob == SUB_MV_REF_PROB
            &&& q.common.fc.bmode_prob == p.common.fc.bmode_prob
            &&& q.common.refresh_golden_frame == 1
            &&& q.common.refresh_alt_ref_frame == 1
            &&& q.common.copy_buffer_to_gf == 0
            &&& q.common.copy_buffer_to_arf == 0
            &&& q.common.ref_frame_sign_bias[2] == 0
            &&& q.common.ref_frame_sign_bias[3] == 0
            &&& q.mb.mb_segment_abs_delta == 0
            &&& forall|i: int, j: int|
                0 <= i < 2 && 0 <= j < 4 ==> #[trigger] q.mb.segment_feature_data[i][j] == 0
            &&& forall|i: int| 0 <= i < 4 ==> #[trigger] q.mb.ref_lf_deltas[i] == 0
            &&& forall|i: int| 0 <= i < 4 ==> #[trigger] q.mb.mode_lf_deltas[i] == 0
        }),
{
    reveal(frame_started);
}

/// Two decoders with different histories that start the same key frame hold the same
/// probabilities, segment values and loop filter adjustments afterwards.
pub proof fn law_key_frame_forgets(p: Vp8dComp, q: Vp8dComp)
    requires
        p.common.frame_type == FrameType::Key,
        q.common.frame_type == FrameType::Key,
        p.common.fc.bmode_prob == q.common.fc.bmode_prob,
    ensures
        frame_started(p).common.fc == frame_started(q).common.fc,
        frame_started(p).mb.segment_feature_data == frame_started(q).mb.segment_feature_data,
        frame_started(p).mb.mb_segment_abs_delta == frame_started(q).mb.mb_segment_abs_delta,
        frame_started(p).mb.ref_lf_deltas == frame_started(q).mb.ref_lf_deltas,
        frame_started(p).mb.mode_lf_deltas == frame_started(q).mb.mode_lf_deltas,
{
    reveal(frame_started);
}

/// The start of a frame that is no key frame changes nothing of what frames share, and of the
/// working area only the filter that interpolates between pixels, which the version has chosen.
pub proof fn law_inter_frame_keeps(p: Vp8dComp)
    requires
        p.common.frame_type == FrameType::Inter,
    ensures
        frame_started(p).common == p.common,
        frame_started(p).mb.subpixel_predict == SubpixFn::Bilinear
            <==> p.common.use_bilinear_mc_filter != 0,
        frame_started(p).mb.fullpixel_mask == (if p.common.full_pixel != 0 {
            -8int
        } else {
            -1
        }),
        frame_started(p) == (Vp8dComp {
            mb: Macroblockd {
                subpixel_predict: frame_started(p).mb.subpixel_predict,
                frame_type: FrameType::Inter,
                mode_info_stride: p.common.mode_info_stride,
                corrupted: 0,
                fullpixel_mask: frame_started(p).mb.fullpixel_mask,
                ..p.mb
            },
            ..p
        }),
{
    reveal(frame_started);
}

} // verus!
