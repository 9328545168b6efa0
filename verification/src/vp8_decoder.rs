//! The decoder as a user sees it: packets go in, pictures come out, and there are requests
//! besides.

use crate::codec::{ControlCmd, Decoder};
use crate::decodeframe::{body_reached, decoder_ok, frame_decoded, lemma_body_not_reached};
use crate::fragments::{clear_fragments, collected, no_fragments, with_fragment, Fragments};
use crate::framebufs::{counts_fit, free_fb, uses};
use crate::frametag::{failed, frame_tag, indices_ok, vpx_internal_error};
use crate::macroblock::ref_pic;
use crate::onyxd_if::{
    at_rest, bare, clear_pictures, frame_claimed, frame_settled, has_buffers, no_room, received,
    law_set_then_get_reference, picture, picture_asked, pictures_cleared, playing, ref_of_size,
    reference_set, references, vp8dx_get_quantizer, vp8dx_get_raw_frame, vp8dx_get_reference,
    vp8dx_references_buffer, vp8dx_set_reference,
};
use crate::references::{
    flag_of, law_copy_is_prediction_source, law_set_is_prediction_source, next_refs,
};
use crate::types::{
    FragmentData, FrameBuffers, FramePlanes, FrameView, MvReferenceFrame, Vp8PpFlags, Vp8dComp,
    VpxCodecErr, VpxResult, Yuv, Yv12BufferConfig,
};
use crate::vp8_dx_iface::{
    after_result, frame_taken, made_ready, packet_taken, peeked, result_code, stream_ok,
    verdict, vp8_decode, vp8_get_si, vp8_peek_si, Memory, Vp8AlgPriv, Vp8PostprocCfg,
    VpxRefFrame,
};
use crate::vp8_loopfilter::ref_number;
use crate::vpx_api::{
    no_image, STREAM_INFO_SIZE, VPX_CODEC_USE_INPUT_FRAGMENTS, VPX_CODEC_USE_POSTPROC,
    VPX_IMG_FMT_I420, VpxCodecDecCfg, VpxCodecFlags, VpxCodecStreamInfo, VpxImage,
};
use crate::yv12config::{all_zero, blanked, copied_frame, framed, law_copied_plane};
use vstd::prelude::*;

verus! {

/// The picture that `view` shows of a decoder.
pub open spec fn image_of(img: VpxImage, view: FrameView, planes: Yuv) -> bool {
    &&& img.fmt == VPX_IMG_FMT_I420
    &&& img.w == view.y_stride
    &&& img.h == ((view.display_height + 79) / 16) * 16
    &&& img.d_w == view.display_width
    &&& img.r_w == view.display_width
    &&& img.d_h == view.display_height
    &&& img.r_h == view.display_height
    &&& img.x_chroma_shift == 1
    &&& img.y_chroma_shift == 1
    &&& img.planes@ == planes
    &&& img.origin@ == seq![view.y_buffer, view.u_buffer, view.v_buffer, 0usize]
    &&& img.stride@ == seq![view.y_stride, view.uv_stride, view.uv_stride, view.y_stride]
    &&& img.bit_depth == 8
    &&& img.bps == 12
}

/// Makes a picture of a frame buffer.
fn yuvconfig2image(img: &mut VpxImage, view: &FrameView, planes: &FramePlanes)
    requires
        0 <= view.y_stride,
        0 <= view.display_width <= 16383,
        0 <= view.display_height <= 16383,
    ensures
        image_of(*final(img), *view, planes@),
{
    img.fmt = VPX_IMG_FMT_I420;
    img.w = view.y_stride as u32;
    img.h = (((view.display_height + 79) / 16) * 16) as u32;
    img.d_w = view.display_width as u32;
    img.r_w = view.display_width as u32;
    img.d_h = view.display_height as u32;
    img.r_h = view.display_height as u32;
    img.x_chroma_shift = 1;
    img.y_chroma_shift = 1;
    img.planes = planes.copy();
    img.origin = [view.y_buffer, view.u_buffer, view.v_buffer, 0];
    img.stride = [view.y_stride, view.uv_stride, view.uv_stride, view.y_stride];
    img.bit_depth = 8;
    img.bps = 12;
    assert(img.origin@ =~= seq![view.y_buffer, view.u_buffer, view.v_buffer, 0usize]);
    assert(img.stride@ =~= seq![view.y_stride, view.uv_stride, view.uv_stride, view.y_stride]);
}

/// A decoder without frame buffers has none.
proof fn lemma_bare_only(p: Vp8dComp)
    requires
        p.common.mip@.len() == 0,
    ensures
        !playing(p),
{
    reveal(decoder_ok);
    p.common.mip.lemma_rect();
}

/// The picture that a stream has to show.
pub open spec fn next_picture(ctx: Vp8AlgPriv, given: bool) -> Option<FrameView> {
    if !given && ctx.yv12_frame_buffers.pbi is Some {
        picture(*(ctx.yv12_frame_buffers.pbi->0))
    } else {
        None
    }
}

/// The state of a stream before and after its picture was asked for. A picture to show is asked
/// for once; the decoder is then ready for the next frame.
pub open spec fn picture_taken(ctx: Vp8AlgPriv, given: bool, q: Vp8AlgPriv) -> bool {
    let p = *(ctx.yv12_frame_buffers.pbi->0);
    &&& q == (Vp8AlgPriv { img: q.img, yv12_frame_buffers: q.yv12_frame_buffers, ..ctx })
    &&& next_picture(ctx, given) is None ==> q.img == ctx.img
    &&& if ctx.yv12_frame_buffers.pbi is None || given {
        q.yv12_frame_buffers == ctx.yv12_frame_buffers
    } else {
        &&& q.yv12_frame_buffers.pbi is Some
        &&& *(q.yv12_frame_buffers.pbi->0) == picture_asked(p)
    }
}

/// Gives the picture that the last packet completed, once. `iter` tells whether it was given.
pub fn vp8_get_frame<'a>(ctx: &'a mut Vp8AlgPriv, iter: &mut bool) -> (img: Option<&'a VpxImage>)
    requires
        stream_ok(*old(ctx)),
    ensures
        stream_ok(*final(ctx)),
        img is Some <==> next_picture(*old(ctx), *old(iter)) is Some,
        *final(iter) == (*old(iter) || img is Some),
        img is Some ==> *(img->0) == final(ctx).img && image_of(
            *(img->0),
            next_picture(*old(ctx), *old(iter))->0,
            old(ctx).yv12_frame_buffers.pbi->0.common.yv12_fb[next_picture(
                *old(ctx),
                *old(iter),
            )->0.fb_idx as int].planes@,
        ),
        picture_taken(*old(ctx), *old(iter), *final(ctx)),
{
    if *iter || ctx.yv12_frame_buffers.pbi.is_none() {
        return None;
    }
    let mut flags = Vp8PpFlags {
        post_proc_flag: 0,
        deblocking_level: 0,
        noise_level: 0,
        display_ref_frame_flag: 0,
        display_mb_modes_flag: 0,
        display_b_modes_flag: 0,
        display_mv_flag: 0,
    };
    if (ctx.init_flags & VPX_CODEC_USE_POSTPROC) != 0 {
        flags.post_proc_flag = ctx.postproc_cfg.post_proc_flag;
        flags.deblocking_level = ctx.postproc_cfg.deblocking_level;
        flags.noise_level = ctx.postproc_cfg.noise_level;
    }
    let mut b: Box<Vp8dComp> = ctx.yv12_frame_buffers.pbi.take().unwrap();
    let ghost p = *b;
    proof {
        if bare(p) {
            lemma_bare_only(picture_asked(p));
        }
    }
    let view: Option<FrameView> = vp8dx_get_raw_frame(&mut b, &flags);
    let some: bool = match view {
        Some(v) => {
            proof {
                reveal(decoder_ok);
                assert(p.common.yv12_fb[v.fb_idx as int].holds(
                    p.common.mb_rows as int,
                    p.common.mb_cols as int,
                ));
            }
            yuvconfig2image(&mut ctx.img, &v, &b.common.yv12_fb[v.fb_idx as usize].planes);
            *iter = true;
            true
        },
        None => false,
    };
    ctx.yv12_frame_buffers.pbi = Some(b);
    if some {
        Some(&ctx.img)
    } else {
        None
    }
}

/// The border of a picture. There is none to speak of where its lines do not fit their stride.
pub open spec fn image_border(img: VpxImage) -> int {
    if img.d_w <= img.stride[0] {
        (img.stride[0] - img.d_w) / 2
    } else {
        -((img.d_w - img.stride[0]) / 2)
    }
}

/// The planes of a picture fit what it says of its size.
pub open spec fn planes_fit(img: VpxImage) -> bool {
    let b = image_border(img);
    &&& img.d_w <= img.stride[0]
    &&& img.planes.y.spec_rows() == img.d_h + 2 * b
    &&& img.planes.y.spec_stride() == img.stride[0]
    &&& img.planes.u.spec_rows() == (img.d_h + 1) / 2 + 2 * (b / 2)
    &&& img.planes.u.spec_stride() >= (img.d_w + 1) / 2 + 2 * (b / 2)
    &&& img.planes.v.spec_rows() == img.planes.u.spec_rows()
    &&& img.planes.v.spec_stride() >= (img.d_w + 1) / 2 + 2 * (b / 2)
}

/// A picture is of a size that frames can have.
pub open spec fn of_frame_size(img: VpxImage) -> bool {
    &&& 1 <= img.d_w <= 16384
    &&& 1 <= img.d_h <= 16384
}

/// The sizes of a picture can be calculated with, and where frames can have its size, its planes
/// fit it. The planes of other pictures are never looked at.
pub open spec fn image_ok(img: VpxImage) -> bool {
    &&& img.d_w < i32::MAX
    &&& img.d_h < i32::MAX
    &&& img.stride[0] - img.d_w >= i32::MIN
    &&& of_frame_size(img) ==> planes_fit(img)
}

/// Tells whether the sizes of a picture can be calculated with, and whether its planes fit them.
pub fn image_fits(img: &VpxImage) -> (fits: bool)
    ensures
        fits == image_ok(*img),
{
    let stride: i64 = img.stride[0] as i64;
    let w: i64 = img.d_w as i64;
    let h: i64 = img.d_h as i64;
    if !(w < 0x7fff_ffff && h < 0x7fff_ffff && stride - w >= -0x8000_0000) {
        return false;
    }
    if !(1 <= w && w <= 16384 && 1 <= h && h <= 16384) {
        return true;
    }
    if w > stride {
        return false;
    }
    let b: i64 = (stride - w) / 2;
    let uv_w: i64 = (w + 1) / 2 + 2 * (b / 2);
    let uv_h: i64 = (h + 1) / 2 + 2 * (b / 2);
    let p: &FramePlanes = &img.planes;
    p.y.rows() as u64 == (h + 2 * b) as u64 && p.y.stride() as u64 == stride as u64
        && p.u.rows() as u64 == uv_h as u64 && p.u.stride() as u64 >= uv_w as u64 && p.v.rows()
        as u64 == uv_h as u64 && p.v.stride() as u64 >= uv_w as u64
}

/// A picture as a frame buffer.
pub open spec fn buffer_of(img: VpxImage, b: Yv12BufferConfig) -> bool {
    &&& b.y_width == img.d_w
    &&& b.y_height == img.d_h
    &&& b.uv_width == (img.d_w + 1) / 2
    &&& b.uv_height == (img.d_h + 1) / 2
    &&& b.y_stride == img.stride[0]
    &&& b.uv_stride == img.stride[1]
    &&& b.border == image_border(img)
    &&& b.planes@ == img.planes@
    &&& b.frame_size == 0
    &&& b.corrupted == 0
    &&& b.flags == 0
}

/// Makes a frame buffer of a picture, with the given planes.
fn image2yuvconfig(img: &VpxImage, planes: FramePlanes) -> (b: Yv12BufferConfig)
    requires
        image_ok(*img),
        planes@ == img.planes@,
        planes.sized_as(&img.planes),
    ensures
        buffer_of(*img, b),
        of_frame_size(*img) ==> framed(b),
        b.planes == planes,
{
    let w: i32 = img.d_w as i32;
    let h: i32 = img.d_h as i32;
    let border: i32 = if w <= img.stride[0] {
        (img.stride[0] - w) / 2
    } else {
        let over: i64 = (w as i64 - img.stride[0] as i64) / 2;
        -(over as i32)
    };
    Yv12BufferConfig {
        y_width: w,
        y_height: h,
        y_stride: img.stride[0],
        uv_width: (w + 1) / 2,
        uv_height: (h + 1) / 2,
        uv_stride: img.stride[1],
        planes,
        border,
        frame_size: 0,
        corrupted: 0,
        flags: 0,
    }
}

/// The decoder is made for frames of the same size as before.
pub open spec fn kept_size(p: Vp8dComp, q: Vp8dComp) -> bool {
    &&& q.common.width == p.common.width
    &&& q.common.height == p.common.height
    &&& q.common.mb_rows == p.common.mb_rows
    &&& q.common.mb_cols == p.common.mb_cols
    &&& q.ec_active == p.ec_active
}

/// The states of a decoder before and after a reference frame was replaced by a picture, and
/// the result. A decoder without frame buffers has no reference frames.
pub open spec fn picture_set(p: Vp8dComp, f: VpxRefFrame, q: Vp8dComp, r: VpxResult<()>) -> bool {
    let e = VpxCodecErr::VPX_CODEC_ERROR;
    if bare(p) {
        r == Err::<(), VpxCodecErr>(e) && q == failed(p, e)
    } else {
        exists|sd: Yv12BufferConfig| #[trigger]
            buffer_of(f.img, sd) && match ref_of_size(p.common, f.frame_type as int, sd) {
                None => r == Err::<(), VpxCodecErr>(e) && q == failed(p, e),
                Some(_) => if free_fb(p.common.fb_idx_ref_cnt) >= 4 {
                    &&& r == Err::<(), VpxCodecErr>(VpxCodecErr::VPX_CODEC_MEM_ERROR)
                    &&& q == failed(p, VpxCodecErr::VPX_CODEC_MEM_ERROR)
                } else {
                    &&& r == Ok::<(), VpxCodecErr>(())
                    &&& reference_set(p, f.frame_type as int, sd, q)
                },
            }
    }
}

/// A picture of the size of a reference frame is of a size that frames can have.
proof fn lemma_ref_size(p: Vp8dComp, flag: int, img: VpxImage, sd: Yv12BufferConfig)
    requires
        playing(p),
        buffer_of(img, sd),
        ref_of_size(p.common, flag, sd) is Some,
    ensures
        of_frame_size(img),
{
    reveal(decoder_ok);
    let b = p.common.yv12_fb[ref_of_size(p.common, flag, sd)->0];
    assert(b.holds(p.common.mb_rows as int, p.common.mb_cols as int));
}

/// A decoder without frame buffers stays one after an error.
proof fn lemma_error_bare(p: Vp8dComp, q: Vp8dComp)
    requires
        bare(p),
        q == failed(p, VpxCodecErr::VPX_CODEC_ERROR),
    ensures
        bare(q),
        !playing(q),
{
    reveal(decoder_ok);
    assert forall|i: int| 0 <= i < 4 implies -1 <= #[trigger] q.common.fb_idx_ref_cnt[i] <= uses(
        q.common,
        i,
    ) by {
        assert(-1 <= p.common.fb_idx_ref_cnt[i] <= uses(p.common, i));
    }
}

fn set_picture(pbi: &mut Vp8dComp, f: &VpxRefFrame) -> (r: VpxResult<()>)
    requires
        at_rest(*old(pbi)),
        image_ok(f.img),
    ensures
        playing(*old(pbi)) ==> playing(*final(pbi)),
        bare(*old(pbi)) ==> bare(*final(pbi)) && !playing(*final(pbi)),
        picture_set(*old(pbi), *f, *final(pbi), r),
        kept_size(*old(pbi), *final(pbi)),
{
    if !has_buffers(pbi) {
        let r: VpxResult<()> = vpx_internal_error(
            &mut pbi.common.error,
            VpxCodecErr::VPX_CODEC_ERROR,
        );
        proof {
            lemma_error_bare(*old(pbi), *pbi);
        }
        return r;
    }
    let sd: Yv12BufferConfig = image2yuvconfig(&f.img, f.img.planes.copy());
    proof {
        assert(buffer_of(f.img, sd));
        if ref_of_size(pbi.common, f.frame_type as int, sd) is Some {
            lemma_ref_size(*pbi, f.frame_type as int, f.img, sd);
        }
    }
    vp8dx_set_reference(pbi, f.frame_type, &sd)
}

/// The states of a decoder before and after a reference frame was copied to a picture, the
/// picture before and after, and the result.
pub open spec fn picture_copied(
    p: Vp8dComp,
    f: VpxRefFrame,
    q: Vp8dComp,
    g: VpxRefFrame,
    r: VpxResult<()>,
) -> bool {
    let e = VpxCodecErr::VPX_CODEC_ERROR;
    if bare(p) {
        r == Err::<(), VpxCodecErr>(e) && q == failed(p, e) && g == f
    } else {
        exists|sd: Yv12BufferConfig| #[trigger]
            buffer_of(f.img, sd) && match ref_of_size(p.common, f.frame_type as int, sd) {
                None => {
                    &&& r == Err::<(), VpxCodecErr>(e)
                    &&& q == failed(p, e)
                    &&& g == f
                },
                Some(k) => {
                    &&& r == Ok::<(), VpxCodecErr>(())
                    &&& q == p
                    &&& g.img.planes@ == copied_frame(p.common.yv12_fb[k], sd)
                    &&& g == (VpxRefFrame {
                        img: VpxImage { planes: g.img.planes, ..f.img },
                        ..f
                    })
                    &&& image_ok(g.img)
                },
            }
    }
}

fn copy_picture(pbi: &mut Vp8dComp, f: &mut VpxRefFrame) -> (r: VpxResult<()>)
    requires
        at_rest(*old(pbi)),
        image_ok(old(f).img),
    ensures
        playing(*old(pbi)) ==> playing(*final(pbi)),
        bare(*old(pbi)) ==> bare(*final(pbi)) && !playing(*final(pbi)),
        picture_copied(*old(pbi), *old(f), *final(pbi), *final(f), r),
        kept_size(*old(pbi), *final(pbi)),
{
    if !has_buffers(pbi) {
        let r: VpxResult<()> = vpx_internal_error(
            &mut pbi.common.error,
            VpxCodecErr::VPX_CODEC_ERROR,
        );
        proof {
            lemma_error_bare(*old(pbi), *pbi);
        }
        return r;
    }
    let mut sd: Yv12BufferConfig = image2yuvconfig(&f.img, f.img.planes.copy());
    proof {
        assert(buffer_of(old(f).img, sd));
        if ref_of_size(pbi.common, f.frame_type as int, sd) is Some {
            lemma_ref_size(*pbi, f.frame_type as int, f.img, sd);
        }
    }
    let r: VpxResult<()> = vp8dx_get_reference(pbi, f.frame_type, &mut sd);
    if r.is_ok() {
        f.img.planes = sd.planes;
    }
    r
}

/// Which reference frames the last frame replaced, as flags.
pub open spec fn ref_updates(p: Vp8dComp) -> int {
    4 * p.common.refresh_alt_ref_frame + 2 * p.common.refresh_golden_frame
        + p.common.refresh_last_frame
}

/// Which reference frames the last frame was predicted from, as flags.
pub open spec fn refs_used(p: Vp8dComp) -> int {
    (if references(p.common, 3) {
        4int
    } else {
        0
    }) + (if references(p.common, 2) {
        2int
    } else {
        0
    }) + (if references(p.common, 1) {
        1int
    } else {
        0
    })
}

fn last_ref_updates(pbi: &Vp8dComp) -> (n: i32)
    requires
        at_rest(*pbi),
    ensures
        n == ref_updates(*pbi),
{
    proof {
        reveal(decoder_ok);
    }
    pbi.common.refresh_alt_ref_frame * 4 + pbi.common.refresh_golden_frame * 2
        + pbi.common.refresh_last_frame
}

fn last_refs_used(pbi: &Vp8dComp) -> (n: i32)
    requires
        at_rest(*pbi),
    ensures
        n == refs_used(*pbi),
{
    if !has_buffers(pbi) {
        return 0;
    }
    proof {
        reveal(decoder_ok);
    }
    let alt: i32 = vp8dx_references_buffer(&pbi.common, 3);
    let gold: i32 = vp8dx_references_buffer(&pbi.common, 2);
    let last: i32 = vp8dx_references_buffer(&pbi.common, 1);
    alt * 4 + gold * 2 + last
}

/// A decoder.
pub struct Vp8Decoder {
    pub priv_: Box<Vp8AlgPriv>,
    /// Whether the picture of the last packet was given.
    pub iter: bool,
}

/// What is known of a stream that nothing was decoded of.
pub open spec fn blank_info() -> VpxCodecStreamInfo {
    VpxCodecStreamInfo { sz: 16, w: 0, h: 0, is_kf: 0 }
}

/// The states of a stream before and after all that was decoded or handed over was cleared. What
/// is known of the stream stays.
pub open spec fn cleared(ctx: Vp8AlgPriv, q: Vp8AlgPriv) -> bool {
    &&& q == (Vp8AlgPriv {
        img: q.img,
        yv12_frame_buffers: q.yv12_frame_buffers,
        fragments: q.fragments,
        ..ctx
    })
    &&& q.img == (VpxImage { planes: q.img.planes, ..ctx.img })
    &&& q.img.planes@ == (Yuv { y: Seq::empty(), u: Seq::empty(), v: Seq::empty() })
    &&& collected(q.fragments) == (Fragments {
        enabled: ctx.fragments.enabled != 0,
        count: 0,
        data: no_fragments(),
    })
    &&& q.yv12_frame_buffers.pbi is Some <==> ctx.yv12_frame_buffers.pbi is Some
    &&& ctx.yv12_frame_buffers.pbi is Some ==> pictures_cleared(
        *(ctx.yv12_frame_buffers.pbi->0),
        *(q.yv12_frame_buffers.pbi->0),
    )
}

/// A decoder that has nothing of what was decoded: its frame buffers hold zeros only, no picture
/// waits to be shown, and it waits for a key frame.
pub open spec fn blank(p: Vp8dComp) -> bool {
    &&& p.decoded_key_frame == 0
    &&& p.ready_for_new_data == 1
    &&& forall|i: int|
        0 <= i < 4 ==> all_zero((#[trigger] p.common.yv12_fb[i]).planes.y@) && all_zero(
            p.common.yv12_fb[i].planes.u@,
        ) && all_zero(p.common.yv12_fb[i].planes.v@)
}

/// The stream holds nothing that was decoded.
pub open spec fn holds_nothing(ctx: Vp8AlgPriv) -> bool {
    ctx.yv12_frame_buffers.pbi is Some ==> blank(*(ctx.yv12_frame_buffers.pbi->0))
}

/// A decoder that was cleared has nothing of what was decoded.
pub proof fn lemma_cleared_blank(p: Vp8dComp, q: Vp8dComp)
    requires
        pictures_cleared(p, q),
    ensures
        blank(q),
{
    assert forall|i: int| 0 <= i < 4 implies all_zero((#[trigger] q.common.yv12_fb[i]).planes.y@)
        && all_zero(q.common.yv12_fb[i].planes.u@) && all_zero(q.common.yv12_fb[i].planes.v@) by {
        assert(blanked(p.common.yv12_fb[i], q.common.yv12_fb[i]));
    }
}

/// What is copied from a decoder that has nothing are zeros.
pub proof fn lemma_blank_copy(
    p: Vp8dComp,
    f: VpxRefFrame,
    q: Vp8dComp,
    g: VpxRefFrame,
    i: int,
    j: int,
)
    requires
        at_rest(p),
        blank(p),
        image_ok(f.img),
        picture_copied(p, f, q, g, Ok(())),
        0 <= i,
        0 <= j,
    ensures
        ({
            let b = image_border(f.img);
            &&& i < f.img.d_h && j < f.img.d_w ==> g.img.planes.y@[b + i][b + j] == 0
            &&& i < (f.img.d_h + 1) / 2 && j < (f.img.d_w + 1) / 2 ==> {
                &&& g.img.planes.u@[b / 2 + i][b / 2 + j] == 0
                &&& g.img.planes.v@[b / 2 + i][b / 2 + j] == 0
            }
        }),
{
    let flag = f.frame_type as int;
    let sd = choose|sd: Yv12BufferConfig| #[trigger]
        buffer_of(f.img, sd) && match ref_of_size(p.common, flag, sd) {
            None => false,
            Some(k) => g.img.planes@ == copied_frame(p.common.yv12_fb[k], sd),
        };
    let s = p.common.yv12_fb[ref_of_size(p.common, flag, sd)->0];
    lemma_ref_size(p, flag, f.img, sd);
    lemma_buffer_framed(f.img, sd);
    reveal(decoder_ok);
    assert(s.holds(p.common.mb_rows as int, p.common.mb_cols as int));
    assert(all_zero(s.planes.y@) && all_zero(s.planes.u@) && all_zero(s.planes.v@));
    s.planes.y.lemma_rect();
    s.planes.u.lemma_rect();
    s.planes.v.lemma_rect();
    sd.planes.y.lemma_rect();
    sd.planes.u.lemma_rect();
    sd.planes.v.lemma_rect();
    let b = sd.border as int;
    let (h, w) = (s.y_height as int, s.y_width as int);
    let (uh, uw) = (s.uv_height as int, s.uv_width as int);
    if i < h && j < w {
        law_copied_plane(s.planes.y@, 32, sd.planes.y@, b, h, w, b + i, b + j);
        assert(s.planes.y@[32 + i][32 + j] == 0);
    }
    if i < uh && j < uw {
        law_copied_plane(s.planes.u@, 16, sd.planes.u@, b / 2, uh, uw, b / 2 + i, b / 2 + j);
        law_copied_plane(s.planes.v@, 16, sd.planes.v@, b / 2, uh, uw, b / 2 + i, b / 2 + j);
        assert(s.planes.u@[16 + i][16 + j] == 0);
        assert(s.planes.v@[16 + i][16 + j] == 0);
    }
    assert(g.img.planes.y@ == g.img.planes@.y);
    assert(g.img.planes.u@ == g.img.planes@.u);
    assert(g.img.planes.v@ == g.img.planes@.v);
}

/// A decoder that has nothing refuses a frame that is no key frame, and then has nothing still.
proof fn lemma_blank_received(p: Vp8dComp, f: FragmentData, q: Vp8dComp, r: VpxResult<()>)
    requires
        blank(p),
        counts_fit(p.common),
        p.ec_active == 0,
        f.data[0]@.len() > 0,
        !body_reached(p, f.data[0]@),
        received(p, f, q, r),
    ensures
        r is Err,
        blank(after_result(q, r)),
        result_code(q, r) != VpxCodecErr::VPX_CODEC_OK,
{
    if no_room(p, f) {
        assert(r->Err_0 == VpxCodecErr::VPX_CODEC_MEM_ERROR);
    } else {
        lemma_blank_refused(p, f, q, r);
    }
}

proof fn lemma_blank_refused(p: Vp8dComp, f: FragmentData, q: Vp8dComp, r: VpxResult<()>)
    requires
        blank(p),
        counts_fit(p.common),
        p.ec_active == 0,
        f.data[0]@.len() > 0,
        !body_reached(p, f.data[0]@),
        !no_room(p, f),
        received(p, f, q, r),
    ensures
        r is Err,
        blank(after_result(q, r)),
        result_code(q, r) != VpxCodecErr::VPX_CODEC_OK,
{
    let c = frame_claimed(failed(p, VpxCodecErr::VPX_CODEC_OK));
    let (q1, r1) = choose|q1: Vp8dComp, r1: VpxResult<()>| #[trigger]
        frame_decoded(c, f, q1, r1) && (q, r) == frame_settled(q1, r1);
    assert(!body_reached(c, f.data[0]@)) by {
        reveal(frame_tag);
    }
    assert(indices_ok(c));
    lemma_body_not_reached(c, f, q1, r1);
    assert(r1->Err_0 != VpxCodecErr::VPX_CODEC_OK) by {
        reveal(frame_decoded);
        reveal(frame_tag);
    }
    reveal(frame_settled);
    let q2 = after_result(q, r);
    assert forall|i: int| 0 <= i < 4 implies all_zero((#[trigger] q2.common.yv12_fb[i]).planes.y@)
        && all_zero(q2.common.yv12_fb[i].planes.u@) && all_zero(
        q2.common.yv12_fb[i].planes.v@,
    ) by {
        assert(all_zero(p.common.yv12_fb[i].planes.y@));
        assert(q1.common.yv12_fb[i].planes == c.common.yv12_fb[i].planes);
    }
}

/// A stream that holds nothing holds nothing after a packet that completes no key frame; a frame
/// that the packet completes is refused.
pub proof fn lemma_nothing_taken(
    ctx: Vp8AlgPriv,
    data: Option<Seq<u8>>,
    m: Memory,
    q: Vp8AlgPriv,
    code: VpxCodecErr,
)
    requires
        stream_ok(ctx),
        holds_nothing(ctx),
        packet_taken(ctx, data, m, q, code),
        ({
            let (fs, status, _) = with_fragment(collected(ctx.fragments), data);
            status <= 0 || peeked(fs.data[0], ctx.si).1 != VpxCodecErr::VPX_CODEC_OK
        }),
    ensures
        holds_nothing(q),
        next_picture(q, false) is None,
        !(ctx.fragments.enabled == 0 && data is None) && with_fragment(
            collected(ctx.fragments),
            data,
        ).1 > 0 ==> code != VpxCodecErr::VPX_CODEC_OK,
{
    reveal(packet_taken);
    let (fs, status, fcode) = with_fragment(collected(ctx.fragments), data);
    let (si, pcode) = peeked(fs.data[0], ctx.si);
    let res = verdict(pcode, si.is_kf, ctx.decoder_init);
    let none = ctx.decoder_init != 0 && ctx.si.w == 0 && ctx.si.h == 0 && si.w == 0 && si.h == 0;
    if !(ctx.fragments.enabled == 0 && data is None) && status > 0 && res
        == VpxCodecErr::VPX_CODEC_OK && !none {
        let f = FragmentData { count: fs.count as u32, ..q.fragments };
        let p = *(ctx.yv12_frame_buffers.pbi->0);
        let q0 = *(q.yv12_frame_buffers.pbi->0);
        assert(frame_taken(p, si, false, f, m, q0, code));
        assert(f.data[0]@ == collected(f).data[0]);
        assert(!body_reached(p, f.data[0]@)) by {
            reveal(frame_tag);
        }
        let (p1, q1, r) = choose|p1: Vp8dComp, q1: Vp8dComp, r: VpxResult<()>|
            made_ready(p, si, false, p1) && #[trigger] received(p1, f, q1, r) && q0
                == after_result(q1, r) && code == result_code(q1, r);
        lemma_blank_received(p, f, q1, r);
    }
}

impl Vp8Decoder {
    /// What holds of a decoder at all times.
    pub open spec fn wf(&self) -> bool {
        stream_ok(*self.priv_)
    }

    /// The decoder, where there is one yet.
    pub open spec fn engine(&self) -> Option<Box<Vp8dComp>> {
        self.priv_.yv12_frame_buffers.pbi
    }

    /// A decoder for a new stream.
    pub fn new(init_flags: VpxCodecFlags) -> (r: Result<Vp8Decoder, VpxCodecErr>)
        ensures
            r is Ok,
            r->Ok_0.wf(),
            r->Ok_0.engine() is None,
            !r->Ok_0.iter,
            r->Ok_0.priv_.init_flags == init_flags,
            r->Ok_0.priv_.si == blank_info(),
            r->Ok_0.priv_.decoder_init == 0,
            r->Ok_0.priv_.cfg == (VpxCodecDecCfg { threads: 0, w: 0, h: 0 }),
            r->Ok_0.priv_.postproc_cfg_set == 0,
            r->Ok_0.priv_.postproc_cfg == (Vp8PostprocCfg {
                post_proc_flag: 0,
                deblocking_level: 0,
                noise_level: 0,
            }),
            no_image(r->Ok_0.priv_.img),
            r->Ok_0.priv_.img_setup == 0,
            r->Ok_0.priv_.fragments.count == 0,
            (r->Ok_0.priv_.fragments.enabled != 0) == ((init_flags
                & VPX_CODEC_USE_INPUT_FRAGMENTS) != 0),
    {
        let fragments = FragmentData {
            enabled: if (init_flags & VPX_CODEC_USE_INPUT_FRAGMENTS) != 0 {
                1
            } else {
                0
            },
            count: 0,
            data: [
                Vec::new(),
                Vec::new(),
                Vec::new(),
                Vec::new(),
                Vec::new(),
                Vec::new(),
                Vec::new(),
                Vec::new(),
                Vec::new(),
            ],
        };
        Ok(
            Vp8Decoder {
                priv_: Box::new(
                    Vp8AlgPriv {
                        init_flags,
                        cfg: VpxCodecDecCfg { threads: 0, w: 0, h: 0 },
                        si: VpxCodecStreamInfo {
                            sz: STREAM_INFO_SIZE,
                            w: 0,
                            h: 0,
                            is_kf: 0,
                        },
                        decoder_init: 0,
                        postproc_cfg_set: 0,
                        postproc_cfg: Vp8PostprocCfg::default(),
                        img: VpxImage::empty(),
                        img_setup: 0,
                        yv12_frame_buffers: FrameBuffers { pbi: None },
                        fragments,
                    },
                ),
                iter: false,
            },
        )
    }

    /// Clears all that was decoded or handed over. The next frame has to be a key frame.
    pub fn clear(&mut self)
        requires
            old(self).wf(),
        ensures
            final(self).wf(),
            cleared(*(old(self).priv_), *(final(self).priv_)),
            final(self).iter == old(self).iter,
    {
        self.priv_.img.planes = FramePlanes::empty();
        clear_fragments(&mut self.priv_.fragments);
        self.priv_.fragments.count = 0;
        match self.priv_.yv12_frame_buffers.pbi.take() {
            None => {},
            Some(b) => {
                let mut b: Box<Vp8dComp> = b;
                clear_pictures(&mut b);
                proof {
                    if bare(*b) {
                        lemma_bare_only(*b);
                    }
                }
                self.priv_.yv12_frame_buffers.pbi = Some(b);
            },
        }
    }

    /// Takes a packet. `memory` tells what became of the request for the frame buffers that it
    /// needs.
    pub fn decode_with(&mut self, data: &[u8], memory: &Memory) -> (r: Result<(), VpxCodecErr>)
        requires
            old(self).wf(),
            data@.len() <= u32::MAX,
        ensures
            final(self).wf(),
            !final(self).iter,
            ({
                let bytes = if data@.len() == 0 {
                    None
                } else {
                    Some(data@)
                };
                match r {
                    Ok(_) => packet_taken(
                        *(old(self).priv_),
                        bytes,
                        *memory,
                        *(final(self).priv_),
                        VpxCodecErr::VPX_CODEC_OK,
                    ),
                    Err(e) => e != VpxCodecErr::VPX_CODEC_OK && packet_taken(
                        *(old(self).priv_),
                        bytes,
                        *memory,
                        *(final(self).priv_),
                        e,
                    ),
                }
            }),
    {
        self.iter = false;
        let code: VpxCodecErr = if data.len() == 0 {
            vp8_decode(&mut self.priv_, None, memory)
        } else {
            vp8_decode(&mut self.priv_, Some(data), memory)
        };
        if code == VpxCodecErr::VPX_CODEC_OK {
            Ok(())
        } else {
            Err(code)
        }
    }

    /// Configures the decoder.
    pub fn set_cfg(&mut self, cfg: VpxCodecDecCfg)
        requires
            old(self).wf(),
        ensures
            final(self).wf(),
            *(final(self).priv_) == (Vp8AlgPriv { cfg, ..*(old(self).priv_) }),
            final(self).iter == old(self).iter,
    {
        self.priv_.cfg = cfg;
    }
}

impl Decoder for Vp8Decoder {
    open spec fn ready(&self) -> bool {
        self.wf()
    }

    /// Takes a packet. An empty one is the end of a frame that was handed over in fragments.
    fn decode(&mut self, data: &[u8]) -> (r: Result<(), VpxCodecErr>)
        ensures
            !final(self).iter,
            ({
                let bytes = if data@.len() == 0 {
                    None
                } else {
                    Some(data@)
                };
                match r {
                    Ok(_) => packet_taken(
                        *(old(self).priv_),
                        bytes,
                        Memory::Granted,
                        *(final(self).priv_),
                        VpxCodecErr::VPX_CODEC_OK,
                    ),
                    Err(e) => e != VpxCodecErr::VPX_CODEC_OK && packet_taken(
                        *(old(self).priv_),
                        bytes,
                        Memory::Granted,
                        *(final(self).priv_),
                        e,
                    ),
                }
            }),
    {
        self.decode_with(data, &Memory::Granted)
    }

    /// Ends a frame that was handed over in fragments.
    fn flush(&mut self) -> (r: Result<(), VpxCodecErr>)
        ensures
            !final(self).iter,
            match r {
                Ok(_) => packet_taken(
                    *(old(self).priv_),
                    None,
                    Memory::Granted,
                    *(final(self).priv_),
                    VpxCodecErr::VPX_CODEC_OK,
                ),
                Err(e) => e != VpxCodecErr::VPX_CODEC_OK && packet_taken(
                    *(old(self).priv_),
                    None,
                    Memory::Granted,
                    *(final(self).priv_),
                    e,
                ),
            },
    {
        self.iter = false;
        let code: VpxCodecErr = vp8_decode(&mut self.priv_, None, &Memory::Granted);
        if code == VpxCodecErr::VPX_CODEC_OK {
            Ok(())
        } else {
            Err(code)
        }
    }

    /// Gives the picture that the last packet completed, once.
    fn get_frame(&mut self) -> (img: Option<&VpxImage>)
        ensures
            img is Some <==> next_picture(*(old(self).priv_), old(self).iter) is Some,
            img is Some ==> image_of(
                *(img->0),
                next_picture(*(old(self).priv_), old(self).iter)->0,
                old(self).engine()->0.common.yv12_fb[next_picture(
                    *(old(self).priv_),
                    old(self).iter,
                )->0.fb_idx as int].planes@,
            ),
            final(self).iter == (old(self).iter || img is Some),
            picture_taken(*(old(self).priv_), old(self).iter, *(final(self).priv_)),
    {
        vp8_get_frame(&mut self.priv_, &mut self.iter)
    }

    /// Finds out the size of a stream's frames from a key frame.
    fn peek_stream_info(data: &[u8]) -> (r: Result<VpxCodecStreamInfo, VpxCodecErr>)
        ensures
            match r {
                Ok(si) => (si, VpxCodecErr::VPX_CODEC_OK) == peeked(data@, blank_info()),
                Err(e) => e != VpxCodecErr::VPX_CODEC_OK && e == peeked(data@, blank_info()).1,
            },
    {
        let mut si = VpxCodecStreamInfo {
            sz: STREAM_INFO_SIZE,
            w: 0,
            h: 0,
            is_kf: 0,
        };
        let code: VpxCodecErr = vp8_peek_si(data, &mut si);
        if code == VpxCodecErr::VPX_CODEC_OK {
            Ok(si)
        } else {
            Err(code)
        }
    }

    /// What is known of the stream.
    fn stream_info(&self) -> (r: Result<VpxCodecStreamInfo, VpxCodecErr>)
        ensures
            r == Ok::<VpxCodecStreamInfo, VpxCodecErr>(
                VpxCodecStreamInfo { sz: 16, ..self.priv_.si },
            ),
    {
        let mut si = VpxCodecStreamInfo {
            sz: STREAM_INFO_SIZE,
            w: 0,
            h: 0,
            is_kf: 0,
        };
        let _ = vp8_get_si(&self.priv_, &mut si);
        Ok(si)
    }

    /// Answers a request. Without a decoder most of them are errors; postprocessing and
    /// decryption are not supported.
    fn control(&mut self, cmd: ControlCmd<'_>) -> (r: Result<(), VpxCodecErr>)
        ensures
            *(final(self).priv_) == (Vp8AlgPriv {
                yv12_frame_buffers: final(self).priv_.yv12_frame_buffers,
                ..*(old(self).priv_)
            }),
            final(self).iter == old(self).iter,
            final(self).engine() is Some <==> old(self).engine() is Some,
            ({
                let no_decoder = old(self).engine() is None;
                let p = *(old(self).engine()->0);
                let q = *(final(self).engine()->0);
                let ok = Ok::<(), VpxCodecErr>(());
                let corrupt = Err::<(), VpxCodecErr>(VpxCodecErr::VPX_CODEC_CORRUPT_FRAME);
                let invalid = Err::<(), VpxCodecErr>(VpxCodecErr::VPX_CODEC_INVALID_PARAM);
                let incapable = Err::<(), VpxCodecErr>(VpxCodecErr::VPX_CODEC_INCAPABLE);
                let error = Err::<(), VpxCodecErr>(VpxCodecErr::VPX_CODEC_ERROR);
                match cmd {
                    ControlCmd::SetReference(f) => if no_decoder {
                        r == corrupt
                    } else {
                        picture_set(p, *f, q, r)
                    },
                    ControlCmd::CopyReference(f) => if no_decoder {
                        r == corrupt && *final(f) == *f
                    } else {
                        picture_copied(p, *f, q, *final(f), r)
                    },
                    ControlCmd::SetPostproc(_) => r == incapable && p == q,
                    ControlCmd::GetLastRefUpdates(out) => if no_decoder {
                        r == corrupt && *final(out) == *out
                    } else {
                        r == ok && *final(out) == ref_updates(p) && p == q
                    },
                    ControlCmd::GetFrameCorrupted(out) => if no_decoder {
                        r == invalid && *final(out) == *out
                    } else if p.common.frame_to_show_idx < 0 {
                        r == error && *final(out) == *out && p == q
                    } else {
                        &&& r == ok
                        &&& *final(out)
                            == p.common.yv12_fb[p.common.frame_to_show_idx as int].corrupted
                        &&& p == q
                    },
                    ControlCmd::GetLastRefUsed(out) => if no_decoder {
                        r == corrupt && *final(out) == *out
                    } else {
                        r == ok && *final(out) == refs_used(p) && p == q
                    },
                    ControlCmd::GetLastQuantizer(out) => if no_decoder {
                        r == corrupt && *final(out) == *out
                    } else {
                        r == ok && *final(out) == p.common.base_qindex && p == q
                    },
                    ControlCmd::SetDecryptor => r == incapable && p == q,
                }
            }),
    {
        match cmd {
            ControlCmd::SetReference(f) => match self.priv_.yv12_frame_buffers.pbi.take() {
                None => Err(VpxCodecErr::VPX_CODEC_CORRUPT_FRAME),
                Some(b) => {
                    let mut b: Box<Vp8dComp> = b;
                    let r: VpxResult<()> = set_picture(&mut b, f);
                    self.priv_.yv12_frame_buffers.pbi = Some(b);
                    r
                },
            },
            ControlCmd::CopyReference(f) => match self.priv_.yv12_frame_buffers.pbi.take() {
                None => Err(VpxCodecErr::VPX_CODEC_CORRUPT_FRAME),
                Some(b) => {
                    let mut b: Box<Vp8dComp> = b;
                    let r: VpxResult<()> = copy_picture(&mut b, f);
                    self.priv_.yv12_frame_buffers.pbi = Some(b);
                    r
                },
            },
            ControlCmd::SetPostproc(_) => Err(VpxCodecErr::VPX_CODEC_INCAPABLE),
            ControlCmd::GetLastRefUpdates(out) => match &self.priv_.yv12_frame_buffers.pbi {
                None => Err(VpxCodecErr::VPX_CODEC_CORRUPT_FRAME),
                Some(b) => {
                    *out = last_ref_updates(b);
                    Ok(())
                },
            },
            ControlCmd::GetFrameCorrupted(out) => match &self.priv_.yv12_frame_buffers.pbi {
                None => Err(VpxCodecErr::VPX_CODEC_INVALID_PARAM),
                Some(b) => {
                    let k: i32 = b.common.frame_to_show_idx;
                    if k < 0 {
                        Err(VpxCodecErr::VPX_CODEC_ERROR)
                    } else {
                        *out = b.common.yv12_fb[k as usize].corrupted;
                        Ok(())
                    }
                },
            },
            ControlCmd::GetLastRefUsed(out) => match &self.priv_.yv12_frame_buffers.pbi {
                None => Err(VpxCodecErr::VPX_CODEC_CORRUPT_FRAME),
                Some(b) => {
                    *out = last_refs_used(b);
                    Ok(())
                },
            },
            ControlCmd::GetLastQuantizer(out) => match &self.priv_.yv12_frame_buffers.pbi {
                None => Err(VpxCodecErr::VPX_CODEC_CORRUPT_FRAME),
                Some(b) => {
                    *out = vp8dx_get_quantizer(b);
                    Ok(())
                },
            },
            ControlCmd::SetDecryptor => Err(VpxCodecErr::VPX_CODEC_INCAPABLE),
        }
    }
}

/// A frame buffer that a picture is made into has its size.
proof fn lemma_buffer_framed(img: VpxImage, b: Yv12BufferConfig)
    requires
        image_ok(img),
        of_frame_size(img),
        buffer_of(img, b),
    ensures
        framed(b),
{
    img.planes.y.lemma_rect();
    img.planes.u.lemma_rect();
    img.planes.v.lemma_rect();
    b.planes.y.lemma_rect();
    b.planes.u.lemma_rect();
    b.planes.v.lemma_rect();
    assert(img.planes@.y == b.planes@.y);
    assert(img.planes@.u == b.planes@.u);
    assert(img.planes@.v == b.planes@.v);
    assert(img.planes.y@[0].len() == b.planes.y@[0].len());
    assert(img.planes.u@[0].len() == b.planes.u@[0].len());
    assert(img.planes.v@[0].len() == b.planes.v@[0].len());
}

/// A picture that was made a reference frame is what is copied back: the pixel in row `i` and
/// column `j` of each plane is the one that was set.
pub proof fn law_set_then_copy_picture(
    p: Vp8dComp,
    f: VpxRefFrame,
    q: Vp8dComp,
    before: VpxRefFrame,
    q2: Vp8dComp,
    after: VpxRefFrame,
    r: VpxResult<()>,
    i: int,
    j: int,
)
    requires
        playing(p),
        image_ok(f.img),
        image_ok(before.img),
        before.frame_type == f.frame_type,
        before.img.d_w == f.img.d_w,
        before.img.d_h == f.img.d_h,
        picture_set(p, f, q, Ok(())),
        picture_copied(q, before, q2, after, r),
        0 <= i,
        0 <= j,
    ensures
        r is Ok,
        ({
            let (fb, ab) = (image_border(f.img), image_border(before.img));
            let (s, d) = (f.img.planes, after.img.planes);
            &&& i < f.img.d_h && j < f.img.d_w ==> d.y@[ab + i][ab + j] == s.y@[fb + i][fb + j]
            &&& i < (f.img.d_h + 1) / 2 && j < (f.img.d_w + 1) / 2 ==> {
                &&& d.u@[ab / 2 + i][ab / 2 + j] == s.u@[fb / 2 + i][fb / 2 + j]
                &&& d.v@[ab / 2 + i][ab / 2 + j] == s.v@[fb / 2 + i][fb / 2 + j]
            }
        }),
{
    if p.common.mip@.len() == 0 {
        lemma_bare_only(p);
    }
    let flag = f.frame_type as int;
    let sd = choose|sd: Yv12BufferConfig| #[trigger]
        buffer_of(f.img, sd) && match ref_of_size(p.common, flag, sd) {
            None => false,
            Some(_) => free_fb(p.common.fb_idx_ref_cnt) < 4 && reference_set(p, flag, sd, q),
        };
    let e = VpxCodecErr::VPX_CODEC_ERROR;
    let out = choose|out: Yv12BufferConfig| #[trigger]
        buffer_of(before.img, out) && match ref_of_size(q.common, flag, out) {
            None => r == Err::<(), VpxCodecErr>(e),
            Some(k) => r == Ok::<(), VpxCodecErr>(()) && after.img.planes@ == copied_frame(
                q.common.yv12_fb[k],
                out,
            ),
        };
    lemma_ref_size(p, flag, f.img, sd);
    lemma_buffer_framed(f.img, sd);
    lemma_buffer_framed(before.img, out);
    law_set_then_get_reference(p, flag, sd, q, out, i, j);
    assert(after.img.planes.y@ == after.img.planes@.y);
    assert(after.img.planes.u@ == after.img.planes@.u);
    assert(after.img.planes.v@ == after.img.planes@.v);
    assert(sd.planes@.y == f.img.planes@.y);
    assert(sd.planes@.u == f.img.planes@.u);
    assert(sd.planes@.v == f.img.planes@.v);
}

/// A picture that the reference frame with flag 1, 2 or 4 was copied to shows what macroblocks with
/// the last, golden or alternate reference frame are predicted from in the next frame.
pub proof fn law_copied_picture_is_prediction_source(
    p: Vp8dComp,
    before: VpxRefFrame,
    q: Vp8dComp,
    after: VpxRefFrame,
    f: MvReferenceFrame,
    i: int,
    j: int,
)
    requires
        playing(p),
        f != MvReferenceFrame::Intra,
        image_ok(before.img),
        before.frame_type == flag_of(f),
        picture_copied(p, before, q, after, Ok(())),
        0 <= i,
        0 <= j,
    ensures
        ({
            let b = image_border(before.img);
            let (s, d) = (ref_pic(next_refs(p), f), after.img.planes@);
            &&& i < before.img.d_h && j < before.img.d_w ==> d.y[b + i][b + j] == s.y[32 + i][32
                + j]
            &&& i < (before.img.d_h + 1) / 2 && j < (before.img.d_w + 1) / 2 ==> {
                &&& d.u[b / 2 + i][b / 2 + j] == s.u[16 + i][16 + j]
                &&& d.v[b / 2 + i][b / 2 + j] == s.v[16 + i][16 + j]
            }
        }),
{
    if p.common.mip@.len() == 0 {
        lemma_bare_only(p);
    }
    let flag = before.frame_type as int;
    let out = choose|out: Yv12BufferConfig| #[trigger]
        buffer_of(before.img, out) && match ref_of_size(p.common, flag, out) {
            None => false,
            Some(k) => after.img.planes@ == copied_frame(p.common.yv12_fb[k], out),
        };
    lemma_ref_size(p, flag, before.img, out);
    lemma_buffer_framed(before.img, out);
    law_copy_is_prediction_source(p, f, out, i, j);
}

/// After a picture was set with flag 1, 2 or 4, macroblocks of the next frame with the last, golden
/// or alternate reference frame are predicted from what the picture shows, and those with another
/// reference frame from the same as without it.
pub proof fn law_set_picture_is_prediction_source(
    p: Vp8dComp,
    x: VpxRefFrame,
    q: Vp8dComp,
    f: MvReferenceFrame,
    g: MvReferenceFrame,
    i: int,
    j: int,
)
    requires
        playing(p),
        f != MvReferenceFrame::Intra,
        image_ok(x.img),
        x.frame_type == flag_of(f),
        p.common.fb_idx_ref_cnt[p.common.lst_fb_idx as int] != 0,
        p.common.fb_idx_ref_cnt[p.common.gld_fb_idx as int] != 0,
        p.common.fb_idx_ref_cnt[p.common.alt_fb_idx as int] != 0,
        picture_set(p, x, q, Ok(())),
        0 <= i,
        0 <= j,
    ensures
        ({
            let b = image_border(x.img);
            let (s, d) = (x.img.planes@, ref_pic(next_refs(q), f));
            &&& i < x.img.d_h && j < x.img.d_w ==> d.y[32 + i][32 + j] == s.y[b + i][b + j]
            &&& i < (x.img.d_h + 1) / 2 && j < (x.img.d_w + 1) / 2 ==> {
                &&& d.u[16 + i][16 + j] == s.u[b / 2 + i][b / 2 + j]
                &&& d.v[16 + i][16 + j] == s.v[b / 2 + i][b / 2 + j]
            }
        }),
        g != MvReferenceFrame::Intra && g != f ==> ref_pic(next_refs(q), g) == ref_pic(
            next_refs(p),
            g,
        ),
{
    if p.common.mip@.len() == 0 {
        lemma_bare_only(p);
    }
    let flag = x.frame_type as int;
    let sd = choose|sd: Yv12BufferConfig| #[trigger]
        buffer_of(x.img, sd) && match ref_of_size(p.common, flag, sd) {
            None => false,
            Some(_) => free_fb(p.common.fb_idx_ref_cnt) < 4 && reference_set(p, flag, sd, q),
        };
    lemma_ref_size(p, flag, x.img, sd);
    lemma_buffer_framed(x.img, sd);
    law_set_is_prediction_source(p, f, sd, q, g, i, j);
}

/// The flag of a reference frame is among those of the last frame if and only if some macroblock
/// of it was predicted from that reference frame.
pub proof fn law_flags_used(p: Vp8dComp, f: MvReferenceFrame)
    requires
        f != MvReferenceFrame::Intra,
        p.common.mip@.len() == p.common.mb_rows + 1,
    ensures
        0 <= refs_used(p) < 8,
        (refs_used(p) / flag_of(f)) % 2 == 1 <==> exists|r: int, c: int|
            1 <= r <= p.common.mb_rows && 1 <= c <= p.common.mb_cols && (
            #[trigger] p.common.mip@[r][c]).mbmi.ref_frame == f,
{
    let g = p.common.mip@;
    assert(references(p.common, ref_number(f)) <==> exists|r: int, c: int|
        1 <= r <= p.common.mb_rows && 1 <= c <= p.common.mb_cols && (
        #[trigger] g[r][c]).mbmi.ref_frame == f);
}

/// The flag of a reference frame is among those that the last frame replaced if and only if its
/// header, or its being a key frame, said so.
pub proof fn law_flags_updated(p: Vp8dComp)
    requires
        0 <= p.common.refresh_last_frame <= 1,
        0 <= p.common.refresh_golden_frame <= 1,
        0 <= p.common.refresh_alt_ref_frame <= 1,
    ensures
        0 <= ref_updates(p) < 8,
        (ref_updates(p) / flag_of(MvReferenceFrame::Last)) % 2 == p.common.refresh_last_frame,
        (ref_updates(p) / flag_of(MvReferenceFrame::Golden)) % 2 == p.common.refresh_golden_frame,
        (ref_updates(p) / flag_of(MvReferenceFrame::Altref)) % 2
            == p.common.refresh_alt_ref_frame,
{
}

} // verus!
