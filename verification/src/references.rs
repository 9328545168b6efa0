//! The reference frames: what a flag names is what macroblocks are predicted from.

use crate::decodeframe::{modes_known, rest_header};
use crate::framebufs::{free_fb, law_swap_places};
use crate::frameheader::first_header;
use crate::framerows::{filter_started, frame_buffer, frame_env};
use crate::frametag::{failed, frame_started, frame_tag, indices_ok};
use crate::coefheader::{keep_header, quant_header, ref_header};
use crate::dboolhuff::BoolState;
use crate::macroblock::{mb_predict, ref_pic, RefPics};
use crate::onyxd_if::{
    frame_claimed, frame_settled, playing, ref_buffer, ref_of_size, reference_set,
};
use crate::types::{
    Macroblockd, ModeInfo, MvReferenceFrame, Vp8Common, Vp8dComp, VpxCodecErr, Yuv,
    Yv12BufferConfig,
};
use crate::decodeframe::decoder_ok;
use crate::yv12config::{copied_frame, framed, law_copied_plane, same_size};
use vstd::prelude::*;

verus! {

/// The flag that names a reference frame.
pub open spec fn flag_of(f: MvReferenceFrame) -> int {
    match f {
        MvReferenceFrame::Intra => 0,
        MvReferenceFrame::Last => 1,
        MvReferenceFrame::Golden => 2,
        MvReferenceFrame::Altref => 4,
    }
}

/// The pictures that the macroblocks of the next frame are predicted from.
pub open spec fn next_refs(p: Vp8dComp) -> RefPics {
    frame_env(filter_started(frame_claimed(failed(p, VpxCodecErr::VPX_CODEC_OK)))).refs
}

/// A macroblock is predicted from the reference frame that it names and from no other: other
/// pictures in the place of the others do not change it.
pub proof fn law_predicted_from_named(
    mb: Macroblockd,
    mi: ModeInfo,
    d: Yuv,
    a: RefPics,
    b: RefPics,
    r: int,
    c: int,
    rows: int,
    cols: int,
)
    requires
        mi.mbmi.ref_frame == MvReferenceFrame::Last ==> a.last == b.last,
        mi.mbmi.ref_frame == MvReferenceFrame::Golden ==> a.golden == b.golden,
        mi.mbmi.ref_frame == MvReferenceFrame::Altref ==> a.altref == b.altref,
    ensures
        mb_predict(mb, mi, d, a, r, c, rows, cols) == mb_predict(mb, mi, d, b, r, c, rows, cols),
{
}

/// The next frame's macroblocks are predicted from the buffers in which the last, golden and
/// alternate reference frames lie.
pub proof fn law_next_references(p: Vp8dComp)
    ensures
        next_refs(p).last == p.common.yv12_fb[p.common.lst_fb_idx as int].planes@,
        next_refs(p).golden == p.common.yv12_fb[p.common.gld_fb_idx as int].planes@,
        next_refs(p).altref == p.common.yv12_fb[p.common.alt_fb_idx as int].planes@,
{
}

/// Nothing that is read before the macroblocks of a frame changes the pictures that they are
/// predicted from.
pub proof fn law_headers_keep_references(
    p: Vp8dComp,
    d: Seq<u8>,
    t: BoolState,
    tables: Vp8Common,
    seg: int,
    i: int,
)
    requires
        indices_ok(p),
        0 <= i < 4,
    ensures
        frame_buffer(frame_tag(p, d).0, i).planes == frame_buffer(p, i).planes,
        frame_buffer(frame_started(p), i) == frame_buffer(p, i),
        frame_buffer(first_header(t, p).0, i) == frame_buffer(p, i),
        frame_buffer(rest_header(t, p, tables, seg).0, i) == frame_buffer(p, i),
        frame_buffer(modes_known(p, t), i) == frame_buffer(p, i),
        frame_buffer(filter_started(p), i) == frame_buffer(p, i),
{
    reveal(frame_tag);
    reveal(frame_started);
    reveal(first_header);
    reveal(rest_header);
    reveal(quant_header);
    reveal(ref_header);
    reveal(keep_header);
    assert(0 <= p.dec_fb_ref_idx[0] < 4);
    assert(0 <= p.dec_fb_ref_idx[i] < 4);
}

/// A flag names a buffer if and only if it is 1, 2 or 4.
pub proof fn law_flags(p: Vp8dComp, flag: int)
    ensures
        ref_buffer(p.common, flag) is Some <==> flag == 1 || flag == 2 || flag == 4,
{
}

/// The flag 1, 2 or 4 names the very buffer that macroblocks with the last, golden or alternate
/// reference frame are predicted from in the next frame.
pub proof fn law_flag_names_prediction_source(p: Vp8dComp, f: MvReferenceFrame)
    requires
        f != MvReferenceFrame::Intra,
    ensures
        ref_buffer(p.common, flag_of(f)) is Some,
        p.common.yv12_fb[ref_buffer(p.common, flag_of(f))->0].planes@ == ref_pic(next_refs(p), f),
{
}

/// The pixel in row `i` and column `j` of each plane is the same in both pictures, whose borders
/// have the widths `a` and `b`.
pub open spec fn pixel_same(
    x: Yuv,
    a: int,
    y: Yuv,
    b: int,
    i: int,
    j: int,
    s: Yv12BufferConfig,
) -> bool {
    &&& 0 <= i < s.y_height && 0 <= j < s.y_width ==> x.y[a + i][a + j] == y.y[b + i][b + j]
    &&& 0 <= i < s.uv_height && 0 <= j < s.uv_width ==> {
        &&& x.u[a / 2 + i][a / 2 + j] == y.u[b / 2 + i][b / 2 + j]
        &&& x.v[a / 2 + i][a / 2 + j] == y.v[b / 2 + i][b / 2 + j]
    }
}

proof fn lemma_pixel_copied(s: Yv12BufferConfig, d: Yv12BufferConfig, i: int, j: int)
    requires
        framed(s),
        framed(d),
        same_size(s, d),
    ensures
        pixel_same(copied_frame(s, d), d.border as int, s.planes@, s.border as int, i, j, s),
{
    s.planes.y.lemma_rect();
    s.planes.u.lemma_rect();
    s.planes.v.lemma_rect();
    d.planes.y.lemma_rect();
    d.planes.u.lemma_rect();
    d.planes.v.lemma_rect();
    let (sb, b) = (s.border as int, d.border as int);
    let (h, w) = (s.y_height as int, s.y_width as int);
    let (uh, uw) = (s.uv_height as int, s.uv_width as int);
    if 0 <= i < h && 0 <= j < w {
        law_copied_plane(s.planes.y@, sb, d.planes.y@, b, h, w, b + i, b + j);
    }
    if 0 <= i < uh && 0 <= j < uw {
        law_copied_plane(s.planes.u@, sb / 2, d.planes.u@, b / 2, uh, uw, b / 2 + i, b / 2 + j);
        law_copied_plane(s.planes.v@, sb / 2, d.planes.v@, b / 2, uh, uw, b / 2 + i, b / 2 + j);
    }
}

/// A copy of the reference frame with flag 1, 2 or 4 has the pixels that macroblocks with the
/// last, golden or alternate reference frame are predicted from in the next frame.
pub proof fn law_copy_is_prediction_source(
    p: Vp8dComp,
    f: MvReferenceFrame,
    out: Yv12BufferConfig,
    i: int,
    j: int,
)
    requires
        playing(p),
        f != MvReferenceFrame::Intra,
        framed(out),
        ref_of_size(p.common, flag_of(f), out) is Some,
    ensures
        pixel_same(
            copied_frame(
                p.common.yv12_fb[ref_of_size(p.common, flag_of(f), out)->0],
                out,
            ),
            out.border as int,
            ref_pic(next_refs(p), f),
            32,
            i,
            j,
            out,
        ),
{
    reveal(decoder_ok);
    let k = ref_of_size(p.common, flag_of(f), out)->0;
    let b = p.common.yv12_fb[k];
    assert(b.holds(p.common.mb_rows as int, p.common.mb_cols as int));
    lemma_pixel_copied(b, out, i, j);
}

/// After a picture was set with flag 1, 2 or 4, macroblocks of the next frame with the last, golden
/// or alternate reference frame are predicted from the pixels that were set, and those with
/// another reference frame from the same pictures as without it.
pub proof fn law_set_is_prediction_source(
    p: Vp8dComp,
    f: MvReferenceFrame,
    sd: Yv12BufferConfig,
    q: Vp8dComp,
    g: MvReferenceFrame,
    i: int,
    j: int,
)
    requires
        playing(p),
        f != MvReferenceFrame::Intra,
        framed(sd),
        ref_of_size(p.common, flag_of(f), sd) is Some,
        free_fb(p.common.fb_idx_ref_cnt) < 4,
        p.common.fb_idx_ref_cnt[p.common.lst_fb_idx as int] != 0,
        p.common.fb_idx_ref_cnt[p.common.gld_fb_idx as int] != 0,
        p.common.fb_idx_ref_cnt[p.common.alt_fb_idx as int] != 0,
        reference_set(p, flag_of(f), sd, q),
    ensures
        pixel_same(ref_pic(next_refs(q), f), 32, sd.planes@, sd.border as int, i, j, sd),
        g != MvReferenceFrame::Intra && g != f ==> ref_pic(next_refs(q), g) == ref_pic(
            next_refs(p),
            g,
        ),
{
    let k = free_fb(p.common.fb_idx_ref_cnt);
    let b = p.common.yv12_fb[k];
    lemma_holds_both(p, f, sd, k);
    lemma_pixel_copied(sd, b, i, j);
    lemma_set_moves(p, f, sd, q);
    law_next_references(p);
    law_next_references(q);
}

proof fn lemma_holds_both(p: Vp8dComp, f: MvReferenceFrame, sd: Yv12BufferConfig, k: int)
    requires
        playing(p),
        0 <= k < 4,
        ref_of_size(p.common, flag_of(f), sd) is Some,
    ensures
        framed(p.common.yv12_fb[k]),
        p.common.yv12_fb[k].border == 32,
        same_size(sd, p.common.yv12_fb[k]),
{
    reveal(decoder_ok);
    let (rows, cols) = (p.common.mb_rows as int, p.common.mb_cols as int);
    assert(p.common.yv12_fb[k].holds(rows, cols));
    let r = ref_of_size(p.common, flag_of(f), sd)->0;
    assert(p.common.yv12_fb[r].holds(rows, cols));
}

/// Where the frames lie after a picture was set.
proof fn lemma_set_moves(p: Vp8dComp, f: MvReferenceFrame, sd: Yv12BufferConfig, q: Vp8dComp)
    requires
        f != MvReferenceFrame::Intra,
        0 <= p.common.lst_fb_idx < 4,
        0 <= p.common.gld_fb_idx < 4,
        0 <= p.common.alt_fb_idx < 4,
        free_fb(p.common.fb_idx_ref_cnt) < 4,
        p.common.fb_idx_ref_cnt[p.common.lst_fb_idx as int] != 0,
        p.common.fb_idx_ref_cnt[p.common.gld_fb_idx as int] != 0,
        p.common.fb_idx_ref_cnt[p.common.alt_fb_idx as int] != 0,
        reference_set(p, flag_of(f), sd, q),
    ensures
        ({
            let k = free_fb(p.common.fb_idx_ref_cnt);
            let (c, d) = (p.common, q.common);
            &&& d.lst_fb_idx == (if f == MvReferenceFrame::Last {
                k
            } else {
                c.lst_fb_idx as int
            })
            &&& d.gld_fb_idx == (if f == MvReferenceFrame::Golden {
                k
            } else {
                c.gld_fb_idx as int
            })
            &&& d.alt_fb_idx == (if f == MvReferenceFrame::Altref {
                k
            } else {
                c.alt_fb_idx as int
            })
            &&& d.yv12_fb[k].planes@ == copied_frame(sd, c.yv12_fb[k])
            &&& d.yv12_fb[c.lst_fb_idx as int] == c.yv12_fb[c.lst_fb_idx as int]
            &&& d.yv12_fb[c.gld_fb_idx as int] == c.yv12_fb[c.gld_fb_idx as int]
            &&& d.yv12_fb[c.alt_fb_idx as int] == c.yv12_fb[c.alt_fb_idx as int]
        }),
{
}

/// After a frame without an error the reference frames are, each by what its header says: the new
/// frame's picture, one of the pictures that were references before, or the same as before. The new
/// picture is the one to show.
pub proof fn law_references_after_frame(p: Vp8dComp, q: Vp8dComp)
    requires
        (q, Ok::<(), VpxCodecErr>(())) == frame_settled(p, Ok(())),
    ensures
        ({
            let c = p.common;
            let new = c.yv12_fb[c.new_fb_idx as int].planes@;
            let (a, b) = (next_refs(p), next_refs(q));
            let alt = if c.copy_buffer_to_arf == 1 {
                a.last
            } else if c.copy_buffer_to_arf == 2 {
                a.golden
            } else {
                a.altref
            };
            &&& c.refresh_last_frame != 0 ==> b.last == new
            &&& c.refresh_last_frame == 0 ==> b.last == a.last
            &&& c.refresh_golden_frame != 0 ==> b.golden == new
            &&& c.refresh_golden_frame == 0 && c.copy_buffer_to_gf == 0 ==> b.golden == a.golden
            &&& c.refresh_golden_frame == 0 && c.copy_buffer_to_gf == 1 ==> b.golden == a.last
            &&& c.refresh_golden_frame == 0 && c.copy_buffer_to_gf == 2 && 0
                <= c.copy_buffer_to_arf <= 2 ==> b.golden == alt
            &&& c.refresh_alt_ref_frame != 0 ==> b.altref == new
            &&& c.refresh_alt_ref_frame == 0 && 0 <= c.copy_buffer_to_arf <= 2 ==> b.altref == alt
            &&& q.common.frame_to_show_idx == c.new_fb_idx
            &&& q.ready_for_new_data == 0
            &&& q.common.current_video_frame == (if c.show_frame != 0 {
                c.current_video_frame.wrapping_add(1)
            } else {
                c.current_video_frame
            })
        }),
{
    reveal(frame_settled);
    law_swap_places(p.common);
    law_next_references(p);
    law_next_references(q);
}

/// A frame with an error changes none of the pictures that the next frame is predicted from, nor
/// the picture to show.
pub proof fn law_references_after_error(p: Vp8dComp, e: VpxCodecErr, q: Vp8dComp)
    requires
        (q, Err::<(), VpxCodecErr>(e)) == frame_settled(p, Err(e)),
    ensures
        next_refs(q) == next_refs(p),
        q.common.frame_to_show_idx == p.common.frame_to_show_idx,
        q.common.yv12_fb == p.common.yv12_fb,
        q.common.error.error_code == e,
        q.common.current_video_frame == p.common.current_video_frame,
        q.ready_for_new_data == p.ready_for_new_data,
        q.common.fc == p.common.fc,
        q.mb == p.mb,
{
    reveal(frame_settled);
    law_next_references(p);
    law_next_references(q);
}

} // verus!
