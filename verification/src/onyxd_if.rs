//! The decoder as a whole: frames go in, pictures come out.

use crate::alloccommon::{buffers_hold, mbs_for, vp8_remove_common};
use crate::decodeframe::{
    body_reached, decoder_ok, frame_decoded, law_whole_key_frame, lemma_body_not_reached,
    lemma_new_kept, parts_there, vp8_decode_frame,
};
use crate::decodemv::modes_fit;
use crate::framebufs::{
    counts_exact, buffers_swapped, counts_fit, counts_fit_decoding, free_fb, get_free_fb,
    has_free_fb, law_free_buffer, moved, ref_cnt_fb, refs_placed, release_fb, released,
    swap_frame_buffers, uses,
};
use crate::frametag::{
    failed, frame_tag, indices_ok, size_follows, start_code, tag_number, vpx_internal_error,
};
use crate::newdecoder::{create_decompressor, is_new, setup_ok};
use crate::partitions::fragments_ok;
use crate::types::{
    FragmentData, FrameBuffers, FrameType, FrameView, ModeInfo, Vp8Common, Vp8PpFlags, Vp8dComp,
    Vp8dConfig, VpxCodecErr, VpxResult, Yv12BufferConfig, VP8_ALTR_FRAME, VP8_GOLD_FRAME,
    VP8_LAST_FRAME,
};
use crate::vp8_loopfilter::{ref_index, ref_number};
use crate::extend::row_length;
use crate::grid::{is_rect, Pic};
use crate::yv12config::{
    blank_frame, blanked, copied_frame, copied_plane, framed, law_copied_plane, no_pixels,
    same_size, vp8_yv12_copy_frame,
};
use vstd::array::spec_array_update;
use vstd::prelude::*;

verus! {

/// A flag that names a reference frame.
pub type VpxRefFrameType = i32;

/// What holds of a decoder that has frame buffers, between two frames.
pub open spec fn playing(p: Vp8dComp) -> bool {
    &&& decoder_ok(p)
    &&& counts_fit(p.common)
    &&& -1 <= p.common.frame_to_show_idx < 4
}

/// What holds of a decoder that has no frame buffers, since there was no memory for them.
pub open spec fn bare(p: Vp8dComp) -> bool {
    &&& setup_ok(p)
    &&& counts_fit(p.common)
    &&& forall|i: int| 0 <= i < 4 ==> 0 <= #[trigger] p.common.fb_idx_ref_cnt[i]
    &&& p.common.frame_to_show_idx == -1
    &&& p.common.mip@.len() == 0
    &&& p.common.above_context@.len() == 0
    &&& forall|i: int| 0 <= i < 4 ==> no_pixels(#[trigger] p.common.yv12_fb[i])
}

/// What holds of a decoder between two frames.
pub open spec fn at_rest(p: Vp8dComp) -> bool {
    playing(p) || bare(p)
}

/// Tells whether a decoder has frame buffers.
pub fn has_buffers(pbi: &Vp8dComp) -> (has: bool)
    requires
        at_rest(*pbi),
    ensures
        has == !bare(*pbi),
        has == playing(*pbi),
{
    proof {
        reveal(decoder_ok);
    }
    pbi.common.mip.rows() > 0
}

/// The state with a buffer taken for the new frame.
pub open spec fn frame_claimed(p: Vp8dComp) -> Vp8dComp {
    let new = free_fb(p.common.fb_idx_ref_cnt);
    Vp8dComp {
        common: Vp8Common {
            fb_idx_ref_cnt: spec_array_update(p.common.fb_idx_ref_cnt, new, 1i32),
            new_fb_idx: new as i32,
            ..p.common
        },
        dec_fb_ref_idx: spec_array_update(
            spec_array_update(
                spec_array_update(
                    spec_array_update(p.dec_fb_ref_idx, 0, new as i32),
                    1,
                    p.common.lst_fb_idx,
                ),
                2,
                p.common.gld_fb_idx,
            ),
            3,
            p.common.alt_fb_idx,
        ),
        ..p
    }
}

/// The state after a frame was decoded with result `r`, and what is returned: after an error
/// the frame's buffer is given up, and otherwise the reference frames are moved.
#[verifier::opaque]
pub open spec fn frame_settled(p: Vp8dComp, r: VpxResult<()>) -> (Vp8dComp, VpxResult<()>) {
    match r {
        Err(e) => (
            failed(
                Vp8dComp {
                    common: Vp8Common {
                        fb_idx_ref_cnt: released(
                            p.common.fb_idx_ref_cnt,
                            p.common.new_fb_idx as int,
                        ),
                        ..p.common
                    },
                    ..p
                },
                e,
            ),
            Err(e),
        ),
        Ok(_) => {
            let (c, wrong) = buffers_swapped(p.common);
            let e = VpxCodecErr::VPX_CODEC_ERROR;
            if wrong {
                (failed(Vp8dComp { common: c, ..p }, e), Err(e))
            } else {
                (
                    Vp8dComp {
                        common: Vp8Common {
                            current_video_frame: if c.show_frame != 0 {
                                c.current_video_frame.wrapping_add(1)
                            } else {
                                c.current_video_frame
                            },
                            ..c
                        },
                        ready_for_new_data: 0,
                        ..p
                    },
                    Ok(()),
                )
            }
        },
    }
}

/// The decoder's states before and after an attempt to decode nothing: the last frame counts as
/// wrong from then on, in a buffer of its own, and there is no picture to show.
#[verifier::opaque]
pub open spec fn nothing_decoded(p: Vp8dComp, q: Vp8dComp) -> bool {
    let c = p.common;
    let last = c.lst_fb_idx as int;
    if c.fb_idx_ref_cnt[last] > 1 {
        let cnt = released(c.fb_idx_ref_cnt, last);
        let f = free_fb(cnt);
        &&& q == (Vp8dComp {
            common: Vp8Common {
                fb_idx_ref_cnt: spec_array_update(cnt, f, 1i32),
                lst_fb_idx: f as i32,
                yv12_fb: q.common.yv12_fb,
                show_frame: 0,
                ..c
            },
            ..p
        })
        &&& q.common.yv12_fb[f].planes@ == copied_frame(c.yv12_fb[last], c.yv12_fb[f])
        &&& q.common.yv12_fb[f] == (Yv12BufferConfig {
            planes: q.common.yv12_fb[f].planes,
            corrupted: 1,
            ..c.yv12_fb[f]
        })
        &&& forall|i: int| 0 <= i < 4 && i != f ==> #[trigger] q.common.yv12_fb[i] == c.yv12_fb[i]
    } else {
        q == (Vp8dComp {
            common: Vp8Common {
                yv12_fb: spec_array_update(
                    c.yv12_fb,
                    last,
                    Yv12BufferConfig { corrupted: 1, ..c.yv12_fb[last] },
                ),
                show_frame: 0,
                ..c
            },
            ..p
        })
    }
}

/// There is something to decode.
pub open spec fn has_data(p: Vp8dComp, f: FragmentData) -> bool {
    p.ec_active != 0 || f.count > 1 || f.data[0]@.len() != 0
}

/// The decoder has no free buffer where it needs one for the frame, since some buffer is counted
/// less often than it is used.
pub open spec fn no_room(p: Vp8dComp, f: FragmentData) -> bool {
    let cnt = p.common.fb_idx_ref_cnt;
    let last = p.common.lst_fb_idx as int;
    if has_data(p, f) {
        free_fb(cnt) >= 4
    } else {
        cnt[last] > 1 && free_fb(released(cnt, last)) >= 4
    }
}

/// The decoder's states before and after a frame was handed to it, and the result.
pub open spec fn received(p: Vp8dComp, f: FragmentData, q: Vp8dComp, r: VpxResult<()>) -> bool {
    let p0 = failed(p, VpxCodecErr::VPX_CODEC_OK);
    let no_memory = VpxCodecErr::VPX_CODEC_MEM_ERROR;
    if no_room(p, f) {
        r == Err::<(), VpxCodecErr>(no_memory) && q == failed(p, no_memory)
    } else if has_data(p, f) {
        exists|q1: Vp8dComp, r1: VpxResult<()>| #[trigger]
            frame_decoded(frame_claimed(p0), f, q1, r1) && (q, r) == frame_settled(q1, r1)
    } else {
        r == Ok::<(), VpxCodecErr>(()) && nothing_decoded(p0, q)
    }
}

/// A buffer of `rows x cols` macroblocks has planes that fit.
proof fn lemma_holds_framed(b: Yv12BufferConfig, rows: int, cols: int)
    requires
        b.holds(rows, cols),
    ensures
        framed(b),
{
}

/// Copies the frame of buffer `from` to buffer `to`.
fn copy_buffer(
    fb: &mut [Yv12BufferConfig; 4],
    from: usize,
    to: usize,
    Ghost(rows): Ghost<int>,
    Ghost(cols): Ghost<int>,
)
    requires
        from < 4,
        to < 4,
        from != to,
        buffers_hold(*old(fb), rows, cols),
    ensures
        buffers_hold(*final(fb), rows, cols),
        final(fb)[to as int].planes@ == copied_frame(old(fb)[from as int], old(fb)[to as int]),
        final(fb)[to as int] == (Yv12BufferConfig {
            planes: final(fb)[to as int].planes,
            ..old(fb)[to as int]
        }),
        forall|i: int| 0 <= i < 4 && i != to ==> #[trigger] final(fb)[i] == old(fb)[i],
{
    let mut b: Yv12BufferConfig = Yv12BufferConfig::empty();
    std::mem::swap(&mut b, &mut fb[to]);
    proof {
        let f0 = *old(fb);
        assert(f0[from as int].holds(rows, cols) && f0[to as int].holds(rows, cols));
        lemma_holds_framed(f0[from as int], rows, cols);
        lemma_holds_framed(f0[to as int], rows, cols);
    }
    vp8_yv12_copy_frame(&fb[from], &mut b);
    fb[to] = b;
    proof {
        assert forall|i: int| 0 <= i < 4 implies (#[trigger] fb[i]).holds(rows, cols) by {
            assert(old(fb)[i].holds(rows, cols));
        }
    }
}

/// The frame buffers of a decoder hold its frames.
proof fn lemma_buffers(p: Vp8dComp)
    requires
        decoder_ok(p),
    ensures
        buffers_hold(p.common.yv12_fb, p.common.mb_rows as int, p.common.mb_cols as int),
{
    reveal(decoder_ok);
}

/// A decoder stays in order where only its buffers and their bookkeeping change.
proof fn lemma_playing(p: Vp8dComp, q: Vp8dComp)
    requires
        decoder_ok(p),
        q == (Vp8dComp {
            common: Vp8Common {
                error: q.common.error,
                yv12_fb: q.common.yv12_fb,
                fb_idx_ref_cnt: q.common.fb_idx_ref_cnt,
                new_fb_idx: q.common.new_fb_idx,
                lst_fb_idx: q.common.lst_fb_idx,
                gld_fb_idx: q.common.gld_fb_idx,
                alt_fb_idx: q.common.alt_fb_idx,
                frame_to_show_idx: q.common.frame_to_show_idx,
                show_frame: q.common.show_frame,
                current_video_frame: q.common.current_video_frame,
                ..p.common
            },
            dec_fb_ref_idx: q.dec_fb_ref_idx,
            ready_for_new_data: q.ready_for_new_data,
            ..p
        }),
        buffers_hold(q.common.yv12_fb, p.common.mb_rows as int, p.common.mb_cols as int),
    ensures
        decoder_ok(q),
{
    reveal(decoder_ok);
}

/// Marks the last frame as wrong where there is nothing to decode. Gives one where there is
/// something.
fn check_fragments_for_errors(pbi: &mut Vp8dComp, fragments: &FragmentData) -> (status: i32)
    requires
        playing(*old(pbi)),
        !no_room(*old(pbi), *fragments),
    ensures
        has_data(*old(pbi), *fragments) ==> status == 1 && *final(pbi) == *old(pbi),
        !has_data(*old(pbi), *fragments) ==> status == 0 && nothing_decoded(
            *old(pbi),
            *final(pbi),
        ),
        playing(*final(pbi)),
{
    if pbi.ec_active != 0 || fragments.count > 1 || fragments.data[0].len() != 0 {
        return 1;
    }
    let ghost p0 = *pbi;
    let ghost rows = p0.common.mb_rows as int;
    let ghost cols = p0.common.mb_cols as int;
    let prev: usize = pbi.common.lst_fb_idx as usize;
    proof {
        reveal(nothing_decoded);
        lemma_buffers(p0);
        assert(-1 <= p0.common.fb_idx_ref_cnt[0] <= uses(p0.common, 0));
        assert(-1 <= p0.common.fb_idx_ref_cnt[1] <= uses(p0.common, 1));
        assert(-1 <= p0.common.fb_idx_ref_cnt[2] <= uses(p0.common, 2));
        assert(-1 <= p0.common.fb_idx_ref_cnt[3] <= uses(p0.common, 3));
    }
    if pbi.common.fb_idx_ref_cnt[prev] > 1 {
        release_fb(&mut pbi.common.fb_idx_ref_cnt, prev);
        pbi.common.lst_fb_idx = get_free_fb(&mut pbi.common);
        let f: usize = pbi.common.lst_fb_idx as usize;
        copy_buffer(&mut pbi.common.yv12_fb, prev, f, Ghost(rows), Ghost(cols));
    }
    let last: usize = pbi.common.lst_fb_idx as usize;
    pbi.common.yv12_fb[last].corrupted = 1;
    pbi.common.show_frame = 0;
    proof {
        assert forall|i: int| 0 <= i < 4 implies (#[trigger] pbi.common.yv12_fb[i]).holds(
            rows,
            cols,
        ) by {
            assert(p0.common.yv12_fb[i].holds(rows, cols));
        }
        lemma_playing(p0, *pbi);
        assert forall|i: int| 0 <= i < 4 implies -1 <= #[trigger] pbi.common.fb_idx_ref_cnt[i]
            <= uses(pbi.common, i) by {
            assert(-1 <= p0.common.fb_idx_ref_cnt[i] <= uses(p0.common, i));
        }
    }
    0
}

/// Tells whether there is no free buffer where one is needed.
fn lacks_room(pbi: &Vp8dComp, fragments: &FragmentData) -> (lacks: bool)
    requires
        refs_placed(pbi.common),
    ensures
        lacks == no_room(*pbi, *fragments),
{
    let mut cnt: [i32; 4] = pbi.common.fb_idx_ref_cnt;
    if pbi.ec_active != 0 || fragments.count > 1 || fragments.data[0].len() != 0 {
        return !has_free_fb(&cnt);
    }
    let last: usize = pbi.common.lst_fb_idx as usize;
    if cnt[last] <= 1 {
        return false;
    }
    release_fb(&mut cnt, last);
    !has_free_fb(&cnt)
}

/// Takes a buffer for the new frame.
fn claim_frame(pbi: &mut Vp8dComp)
    requires
        counts_fit(old(pbi).common),
        free_fb(old(pbi).common.fb_idx_ref_cnt) < 4,
    ensures
        *final(pbi) == frame_claimed(*old(pbi)),
        decoder_ok(*old(pbi)) ==> decoder_ok(*final(pbi)),
        indices_ok(*final(pbi)),
        counts_fit_decoding(final(pbi).common),
{
    let ghost p0 = *pbi;
    pbi.common.new_fb_idx = get_free_fb(&mut pbi.common);
    pbi.dec_fb_ref_idx[0] = pbi.common.new_fb_idx;
    pbi.dec_fb_ref_idx[1] = pbi.common.lst_fb_idx;
    pbi.dec_fb_ref_idx[2] = pbi.common.gld_fb_idx;
    pbi.dec_fb_ref_idx[3] = pbi.common.alt_fb_idx;
    proof {
        if decoder_ok(p0) {
            lemma_buffers(p0);
            lemma_playing(p0, *pbi);
        }
        assert forall|i: int| 0 <= i < 4 implies -1 <= #[trigger] pbi.common.fb_idx_ref_cnt[i]
            <= uses(pbi.common, i) + (if i == pbi.common.new_fb_idx {
            1int
        } else {
            0
        }) by {
            assert(-1 <= p0.common.fb_idx_ref_cnt[i] <= uses(p0.common, i));
        }
    }
}

/// Moves the reference frames, or gives up the new frame after an error.
fn settle_frame(pbi: &mut Vp8dComp, r: VpxResult<()>) -> (res: VpxResult<()>)
    requires
        decoder_ok(*old(pbi)),
        counts_fit_decoding(old(pbi).common),
        -1 <= old(pbi).common.frame_to_show_idx < 4,
    ensures
        (*final(pbi), res) == frame_settled(*old(pbi), r),
        playing(*final(pbi)),
        final(pbi).ec_active == old(pbi).ec_active,
        final(pbi).common.width == old(pbi).common.width,
        final(pbi).common.height == old(pbi).common.height,
        final(pbi).common.mb_rows == old(pbi).common.mb_rows,
        final(pbi).common.mb_cols == old(pbi).common.mb_cols,
{
    let ghost p0 = *pbi;
    proof {
        reveal(frame_settled);
        lemma_buffers(p0);
    }
    match r {
        Err(e) => {
            let new_idx: usize = pbi.common.new_fb_idx as usize;
            release_fb(&mut pbi.common.fb_idx_ref_cnt, new_idx);
            pbi.common.error.error_code = e;
            proof {
                lemma_playing(p0, *pbi);
                assert forall|i: int|
                    0 <= i < 4 implies -1 <= #[trigger] pbi.common.fb_idx_ref_cnt[i] <= uses(
                    pbi.common,
                    i,
                ) by {
                    assert(-1 <= p0.common.fb_idx_ref_cnt[i]);
                    assert(uses(p0.common, i) == uses(pbi.common, i));
                }
            }
            Err(e)
        },
        Ok(_) => {
            let err: i32 = swap_frame_buffers(&mut pbi.common);
            proof {
                lemma_swapped(p0.common);
                lemma_playing(p0, *pbi);
            }
            if err != 0 {
                pbi.common.error.error_code = VpxCodecErr::VPX_CODEC_ERROR;
                proof {
                    lemma_playing(p0, *pbi);
                }
                return Err(VpxCodecErr::VPX_CODEC_ERROR);
            }
            if pbi.common.show_frame != 0 {
                pbi.common.current_video_frame = pbi.common.current_video_frame.wrapping_add(1);
            }
            pbi.ready_for_new_data = 0;
            proof {
                lemma_playing(p0, *pbi);
            }
            Ok(())
        },
    }
}

/// Moving the reference frames changes only the bookkeeping.
proof fn lemma_swapped(cm: Vp8Common)
    ensures
        ({
            let c = buffers_swapped(cm).0;
            &&& c == (Vp8Common {
                fb_idx_ref_cnt: c.fb_idx_ref_cnt,
                lst_fb_idx: c.lst_fb_idx,
                gld_fb_idx: c.gld_fb_idx,
                alt_fb_idx: c.alt_fb_idx,
                frame_to_show_idx: cm.new_fb_idx,
                ..cm
            })
        }),
{
    reveal(buffers_swapped);
}

/// Decodes a frame, and moves the reference frames as it says.
pub fn vp8dx_receive_compressed_data(pbi: &mut Vp8dComp, fragments: &FragmentData) -> (r: VpxResult<
    (),
>)
    requires
        playing(*old(pbi)),
        fragments_ok(*fragments),
    ensures
        received(*old(pbi), *fragments, *final(pbi), r),
        playing(*final(pbi)),
        size_follows(old(pbi).common, fragments.data[0]@, final(pbi).common),
        final(pbi).ec_active == old(pbi).ec_active,
{
    let ghost p = *pbi;
    if lacks_room(pbi, fragments) {
        proof {
            lemma_failed_playing(p, VpxCodecErr::VPX_CODEC_MEM_ERROR);
        }
        return vpx_internal_error(&mut pbi.common.error, VpxCodecErr::VPX_CODEC_MEM_ERROR);
    }
    pbi.common.error.error_code = VpxCodecErr::VPX_CODEC_OK;
    let ghost p0 = *pbi;
    proof {
        lemma_buffers(p);
        lemma_playing(p, p0);
        assert forall|i: int| 0 <= i < 4 implies -1 <= #[trigger] p0.common.fb_idx_ref_cnt[i]
            <= uses(p0.common, i) by {
            assert(-1 <= p.common.fb_idx_ref_cnt[i] <= uses(p.common, i));
        }
    }
    if check_fragments_for_errors(pbi, fragments) <= 0 {
        proof {
            reveal(nothing_decoded);
        }
        return Ok(());
    }
    claim_frame(pbi);
    let ghost p1 = *pbi;
    let r1: VpxResult<()> = vp8_decode_frame(pbi, fragments);
    let ghost q1 = *pbi;
    proof {
        assert forall|i: int| 0 <= i < 4 implies -1 <= #[trigger] q1.common.fb_idx_ref_cnt[i]
            <= uses(q1.common, i) + (if i == q1.common.new_fb_idx {
            1int
        } else {
            0
        }) by {
            assert(-1 <= p1.common.fb_idx_ref_cnt[i]);
            assert(uses(p1.common, i) == uses(q1.common, i));
        }
    }
    let r: VpxResult<()> = settle_frame(pbi, r1);
    proof {
        assert(frame_decoded(frame_claimed(p0), *fragments, q1, r1));
    }
    r
}

/// Hands a frame to a decoder that has no frame buffers, and that does not get as far as to need
/// one: an error.
pub fn receive_without_buffers(pbi: &mut Vp8dComp, fragments: &FragmentData) -> (r: VpxResult<()>)
    requires
        bare(*old(pbi)),
        fragments_ok(*fragments),
        has_data(*old(pbi), *fragments),
        !body_reached(*old(pbi), fragments.data[0]@),
    ensures
        received(*old(pbi), *fragments, *final(pbi), r),
        r is Err,
        bare(*final(pbi)),
        size_follows(old(pbi).common, fragments.data[0]@, final(pbi).common),
        final(pbi).ec_active == old(pbi).ec_active,
{
    let ghost p = *pbi;
    pbi.common.error.error_code = VpxCodecErr::VPX_CODEC_OK;
    let ghost p0 = *pbi;
    proof {
        assert forall|i: int| 0 <= i < 4 implies -1 <= #[trigger] p0.common.fb_idx_ref_cnt[i]
            <= uses(p0.common, i) by {
            assert(-1 <= p.common.fb_idx_ref_cnt[i] <= uses(p.common, i));
        }
    }
    proof {
        law_free_buffer(p0.common);
    }
    claim_frame(pbi);
    let ghost p1 = *pbi;
    assert(!body_reached(p1, fragments.data[0]@)) by {
        reveal(frame_tag);
    }
    let r1: VpxResult<()> = vp8_decode_frame(pbi, fragments);
    let ghost q1 = *pbi;
    proof {
        lemma_body_not_reached(p1, *fragments, q1, r1);
    }
    let e: VpxCodecErr = match r1 {
        Ok(_) => VpxCodecErr::VPX_CODEC_OK,
        Err(e) => e,
    };
    let new_idx: usize = pbi.common.new_fb_idx as usize;
    release_fb(&mut pbi.common.fb_idx_ref_cnt, new_idx);
    pbi.common.error.error_code = e;
    proof {
        reveal(frame_settled);
        assert(frame_decoded(frame_claimed(p0), *fragments, q1, r1));
        assert forall|i: int| 0 <= i < 4 implies -1 <= #[trigger] pbi.common.fb_idx_ref_cnt[i]
            <= uses(pbi.common, i) by {
            assert(-1 <= p1.common.fb_idx_ref_cnt[i]);
            assert(uses(p1.common, i) == uses(pbi.common, i));
        }
        assert forall|i: int| 0 <= i < 4 implies no_pixels(#[trigger] pbi.common.yv12_fb[i]) by {
            assert(no_pixels(p.common.yv12_fb[i]));
            assert(q1.common.yv12_fb[i] == pbi.common.yv12_fb[i]);
        }
    }
    Err(e)
}

/// The decoder before and after all that it decoded was cleared: no pixel is left in its frame
/// buffers, no picture waits to be shown, and it waits for a key frame.
pub open spec fn pictures_cleared(p: Vp8dComp, q: Vp8dComp) -> bool {
    &&& forall|i: int| 0 <= i < 4 ==> blanked(p.common.yv12_fb[i], #[trigger] q.common.yv12_fb[i])
    &&& q == (Vp8dComp {
        common: Vp8Common { yv12_fb: q.common.yv12_fb, ..p.common },
        decoded_key_frame: 0,
        ready_for_new_data: 1,
        ..p
    })
}

/// Clears all that was decoded.
pub fn clear_pictures(pbi: &mut Vp8dComp)
    requires
        at_rest(*old(pbi)),
    ensures
        pictures_cleared(*old(pbi), *final(pbi)),
        playing(*old(pbi)) ==> playing(*final(pbi)),
        bare(*old(pbi)) ==> bare(*final(pbi)),
{
    let ghost p = *pbi;
    let mut k: usize = 0;
    while k < 4
        invariant
            k <= 4,
            p == *old(pbi),
            forall|i: int|
                0 <= i < k ==> blanked(p.common.yv12_fb[i], #[trigger] pbi.common.yv12_fb[i]),
            forall|i: int| k <= i < 4 ==> #[trigger] pbi.common.yv12_fb[i] == p.common.yv12_fb[i],
            *pbi == (Vp8dComp {
                common: Vp8Common { yv12_fb: pbi.common.yv12_fb, ..p.common },
                ..p
            }),
        decreases 4 - k,
    {
        blank_frame(&mut pbi.common.yv12_fb[k]);
        k += 1;
    }
    pbi.decoded_key_frame = 0;
    pbi.ready_for_new_data = 1;
    proof {
        let q = *pbi;
        if playing(p) {
            let rows = p.common.mb_rows as int;
            let cols = p.common.mb_cols as int;
            assert(decoder_ok(q)) by {
                reveal(decoder_ok);
                assert forall|i: int| 0 <= i < 4 implies (#[trigger] q.common.yv12_fb[i]).holds(
                    rows,
                    cols,
                ) by {
                    assert(p.common.yv12_fb[i].holds(rows, cols));
                }
            }
        }
        assert forall|i: int| 0 <= i < 4 && bare(p) implies no_pixels(
            #[trigger] q.common.yv12_fb[i],
        ) by {
            assert(no_pixels(p.common.yv12_fb[i]));
            lemma_blank_empty(p.common.yv12_fb[i], q.common.yv12_fb[i]);
        }
        assert forall|i: int| 0 <= i < 4 implies -1 <= #[trigger] q.common.fb_idx_ref_cnt[i]
            <= uses(q.common, i) by {
            assert(-1 <= p.common.fb_idx_ref_cnt[i] <= uses(p.common, i));
        }
    }
}

/// A frame buffer without pixels has none after they were set to zero.
proof fn lemma_blank_empty(p: Yv12BufferConfig, q: Yv12BufferConfig)
    requires
        no_pixels(p),
        blanked(p, q),
    ensures
        no_pixels(q),
{
    p.planes.y.lemma_rect();
    p.planes.u.lemma_rect();
    p.planes.v.lemma_rect();
    q.planes.y.lemma_rect();
    q.planes.u.lemma_rect();
    q.planes.v.lemma_rect();
    assert(p.planes@.y.len() == 0 && p.planes@.u.len() == 0 && p.planes@.v.len() == 0);
    assert(q.planes@.y =~= Seq::empty());
    assert(q.planes@.u =~= Seq::empty());
    assert(q.planes@.v =~= Seq::empty());
}

/// The buffer of the reference frame that a flag names.
pub open spec fn ref_buffer(cm: Vp8Common, flag: int) -> Option<int> {
    if flag == 1 {
        Some(cm.lst_fb_idx as int)
    } else if flag == 2 {
        Some(cm.gld_fb_idx as int)
    } else if flag == 4 {
        Some(cm.alt_fb_idx as int)
    } else {
        None
    }
}

fn find_ref(cm: &Vp8Common, flag: VpxRefFrameType) -> (k: Option<usize>)
    requires
        refs_placed(*cm),
    ensures
        k is Some <==> ref_buffer(*cm, flag as int) is Some,
        k is Some ==> k->0 == ref_buffer(*cm, flag as int)->0 && k->0 < 4,
{
    if flag == VP8_LAST_FRAME {
        Some(cm.lst_fb_idx as usize)
    } else if flag == VP8_GOLD_FRAME {
        Some(cm.gld_fb_idx as usize)
    } else if flag == VP8_ALTR_FRAME {
        Some(cm.alt_fb_idx as usize)
    } else {
        None
    }
}

fn sizes_match(a: &Yv12BufferConfig, b: &Yv12BufferConfig) -> (same: bool)
    ensures
        same == same_size(*a, *b),
{
    a.y_height == b.y_height && a.y_width == b.y_width && a.uv_height == b.uv_height && a.uv_width
        == b.uv_width
}

/// The reference frame that a flag names, where there is one and it has the size of `sd`.
pub open spec fn ref_of_size(cm: Vp8Common, flag: int, sd: Yv12BufferConfig) -> Option<int> {
    match ref_buffer(cm, flag) {
        Some(k) => if same_size(cm.yv12_fb[k], sd) {
            Some(k)
        } else {
            None
        },
        None => None,
    }
}

/// Copies a reference frame to `sd`, which must have its size.
pub fn vp8dx_get_reference(
    pbi: &mut Vp8dComp,
    ref_frame_flag: VpxRefFrameType,
    sd: &mut Yv12BufferConfig,
) -> (r: VpxResult<()>)
    requires
        playing(*old(pbi)),
        ref_of_size(old(pbi).common, ref_frame_flag as int, *old(sd)) is Some ==> framed(*old(sd)),
    ensures
        playing(*final(pbi)),
        match ref_of_size(old(pbi).common, ref_frame_flag as int, *old(sd)) {
            None => {
                &&& r == Err::<(), VpxCodecErr>(VpxCodecErr::VPX_CODEC_ERROR)
                &&& *final(pbi) == failed(*old(pbi), VpxCodecErr::VPX_CODEC_ERROR)
                &&& *final(sd) == *old(sd)
            },
            Some(k) => {
                &&& r == Ok::<(), VpxCodecErr>(())
                &&& *final(pbi) == *old(pbi)
                &&& *final(sd) == (Yv12BufferConfig { planes: final(sd).planes, ..*old(sd) })
                &&& final(sd).planes@ == copied_frame(old(pbi).common.yv12_fb[k], *old(sd))
                &&& final(sd).planes.sized_as(&old(sd).planes)
            },
        },
{
    let ghost p0 = *pbi;
    proof {
        lemma_buffers(p0);
        lemma_failed_playing(p0, VpxCodecErr::VPX_CODEC_ERROR);
    }
    let k: usize = match find_ref(&pbi.common, ref_frame_flag) {
        Some(k) => k,
        None => {
            return vpx_internal_error(&mut pbi.common.error, VpxCodecErr::VPX_CODEC_ERROR);
        },
    };
    if !sizes_match(&pbi.common.yv12_fb[k], sd) {
        return vpx_internal_error(&mut pbi.common.error, VpxCodecErr::VPX_CODEC_ERROR);
    }
    proof {
        assert(p0.common.yv12_fb[k as int].holds(
            p0.common.mb_rows as int,
            p0.common.mb_cols as int,
        ));
        lemma_holds_framed(
            p0.common.yv12_fb[k as int],
            p0.common.mb_rows as int,
            p0.common.mb_cols as int,
        );
    }
    vp8_yv12_copy_frame(&pbi.common.yv12_fb[k], sd);
    Ok(())
}

/// An error does not change what holds of a decoder.
proof fn lemma_failed_playing(p: Vp8dComp, e: VpxCodecErr)
    requires
        playing(p),
    ensures
        playing(failed(p, e)),
{
    let q = failed(p, e);
    lemma_buffers(p);
    lemma_playing(p, q);
    assert forall|i: int| 0 <= i < 4 implies -1 <= #[trigger] q.common.fb_idx_ref_cnt[i] <= uses(
        q.common,
        i,
    ) by {
        assert(-1 <= p.common.fb_idx_ref_cnt[i] <= uses(p.common, i));
    }
}

/// The state with the reference frame that a flag names moved to buffer `to`.
pub open spec fn ref_moved(cm: Vp8Common, flag: int, to: int) -> Vp8Common {
    if flag == 1 {
        Vp8Common {
            fb_idx_ref_cnt: moved(cm.fb_idx_ref_cnt, cm.lst_fb_idx as int, to),
            lst_fb_idx: to as i32,
            ..cm
        }
    } else if flag == 2 {
        Vp8Common {
            fb_idx_ref_cnt: moved(cm.fb_idx_ref_cnt, cm.gld_fb_idx as int, to),
            gld_fb_idx: to as i32,
            ..cm
        }
    } else {
        Vp8Common {
            fb_idx_ref_cnt: moved(cm.fb_idx_ref_cnt, cm.alt_fb_idx as int, to),
            alt_fb_idx: to as i32,
            ..cm
        }
    }
}

fn move_ref(cm: &mut Vp8Common, flag: VpxRefFrameType, to: i32)
    requires
        counts_fit(*old(cm)),
        0 <= to < 4,
        flag == 1 || flag == 2 || flag == 4,
    ensures
        *final(cm) == ref_moved(*old(cm), flag as int, to as int),
        counts_fit(*final(cm)),
{
    assert(cm.fb_idx_ref_cnt[to as int] <= uses(*cm, to as int));
    if flag == VP8_LAST_FRAME {
        ref_cnt_fb(&mut cm.fb_idx_ref_cnt, &mut cm.lst_fb_idx, to);
    } else if flag == VP8_GOLD_FRAME {
        ref_cnt_fb(&mut cm.fb_idx_ref_cnt, &mut cm.gld_fb_idx, to);
    } else {
        ref_cnt_fb(&mut cm.fb_idx_ref_cnt, &mut cm.alt_fb_idx, to);
    }
    proof {
        let c0 = *old(cm);
        assert forall|i: int| 0 <= i < 4 implies -1 <= #[trigger] cm.fb_idx_ref_cnt[i] <= uses(
            *cm,
            i,
        ) by {
            assert(-1 <= c0.fb_idx_ref_cnt[i] <= uses(c0, i));
            assert(-1 <= c0.fb_idx_ref_cnt[to as int] <= uses(c0, to as int));
        }
    }
}

/// `q` is `p` after the reference frame that a flag names was replaced by `sd`.
pub open spec fn reference_set(p: Vp8dComp, flag: int, sd: Yv12BufferConfig, q: Vp8dComp) -> bool {
    let f = free_fb(p.common.fb_idx_ref_cnt);
    &&& q == (Vp8dComp {
        common: Vp8Common { yv12_fb: q.common.yv12_fb, ..ref_moved(p.common, flag, f) },
        ..p
    })
    &&& q.common.yv12_fb[f].planes@ == copied_frame(sd, p.common.yv12_fb[f])
    &&& q.common.yv12_fb[f] == (Yv12BufferConfig {
        planes: q.common.yv12_fb[f].planes,
        ..p.common.yv12_fb[f]
    })
    &&& forall|i: int|
        0 <= i < 4 && i != f ==> #[trigger] q.common.yv12_fb[i] == p.common.yv12_fb[i]
}

/// Replaces a reference frame by `sd`, which must have its size.
pub fn vp8dx_set_reference(
    pbi: &mut Vp8dComp,
    ref_frame_flag: VpxRefFrameType,
    sd: &Yv12BufferConfig,
) -> (r: VpxResult<()>)
    requires
        playing(*old(pbi)),
        ref_of_size(old(pbi).common, ref_frame_flag as int, *sd) is Some ==> framed(*sd),
    ensures
        playing(*final(pbi)),
        match ref_of_size(old(pbi).common, ref_frame_flag as int, *sd) {
            None => {
                &&& r == Err::<(), VpxCodecErr>(VpxCodecErr::VPX_CODEC_ERROR)
                &&& *final(pbi) == failed(*old(pbi), VpxCodecErr::VPX_CODEC_ERROR)
            },
            Some(_) => if free_fb(old(pbi).common.fb_idx_ref_cnt) >= 4 {
                &&& r == Err::<(), VpxCodecErr>(VpxCodecErr::VPX_CODEC_MEM_ERROR)
                &&& *final(pbi) == failed(*old(pbi), VpxCodecErr::VPX_CODEC_MEM_ERROR)
            } else {
                &&& r == Ok::<(), VpxCodecErr>(())
                &&& reference_set(*old(pbi), ref_frame_flag as int, *sd, *final(pbi))
            },
        },
{
    let ghost p0 = *pbi;
    let ghost rows = p0.common.mb_rows as int;
    let ghost cols = p0.common.mb_cols as int;
    proof {
        lemma_buffers(p0);
        lemma_failed_playing(p0, VpxCodecErr::VPX_CODEC_ERROR);
        lemma_failed_playing(p0, VpxCodecErr::VPX_CODEC_MEM_ERROR);
    }
    let k: usize = match find_ref(&pbi.common, ref_frame_flag) {
        Some(k) => k,
        None => {
            return vpx_internal_error(&mut pbi.common.error, VpxCodecErr::VPX_CODEC_ERROR);
        },
    };
    if !sizes_match(&pbi.common.yv12_fb[k], sd) {
        return vpx_internal_error(&mut pbi.common.error, VpxCodecErr::VPX_CODEC_ERROR);
    }
    if !has_free_fb(&pbi.common.fb_idx_ref_cnt) {
        return vpx_internal_error(&mut pbi.common.error, VpxCodecErr::VPX_CODEC_MEM_ERROR);
    }
    let free: i32 = get_free_fb(&mut pbi.common);
    let f: usize = free as usize;
    pbi.common.fb_idx_ref_cnt[f] = pbi.common.fb_idx_ref_cnt[f] - 1;
    proof {
        assert(pbi.common.fb_idx_ref_cnt@ =~= p0.common.fb_idx_ref_cnt@);
        assert(pbi.common.fb_idx_ref_cnt =~= p0.common.fb_idx_ref_cnt);
        assert(pbi.common == p0.common);
    }
    move_ref(&mut pbi.common, ref_frame_flag, free);
    proof {
        assert(p0.common.yv12_fb[f as int].holds(rows, cols));
        assert(p0.common.yv12_fb[k as int].holds(rows, cols));
        lemma_holds_framed(p0.common.yv12_fb[f as int], rows, cols);
    }
    vp8_yv12_copy_frame(sd, &mut pbi.common.yv12_fb[f]);
    proof {
        assert forall|i: int| 0 <= i < 4 implies (#[trigger] pbi.common.yv12_fb[i]).holds(
            rows,
            cols,
        ) by {
            assert(p0.common.yv12_fb[i].holds(rows, cols));
        }
        lemma_playing(p0, *pbi);
        let c1 = ref_moved(p0.common, ref_frame_flag as int, free as int);
        assert forall|i: int| 0 <= i < 4 implies -1 <= #[trigger] pbi.common.fb_idx_ref_cnt[i]
            <= uses(pbi.common, i) by {
            assert(-1 <= c1.fb_idx_ref_cnt[i] <= uses(c1, i));
        }
    }
    Ok(())
}

/// The picture to show, where the last frame that was decoded has not been shown yet and is
/// meant to be.
pub open spec fn picture(p: Vp8dComp) -> Option<FrameView> {
    let k = p.common.frame_to_show_idx;
    if p.ready_for_new_data == 1 || p.common.show_frame == 0 || k < 0 {
        None
    } else {
        let b = p.common.yv12_fb[k as int];
        let ub = b.border as int / 2;
        Some(
            FrameView {
                fb_idx: k,
                y_buffer: (b.border * b.y_stride + b.border) as usize,
                u_buffer: (ub * b.uv_stride + ub) as usize,
                v_buffer: (ub * b.uv_stride + ub) as usize,
                y_stride: b.y_stride,
                uv_stride: b.uv_stride,
                display_width: p.common.width,
                display_height: p.common.height,
            },
        )
    }
}

/// The decoder after it was asked for its picture.
pub open spec fn picture_asked(p: Vp8dComp) -> Vp8dComp {
    Vp8dComp {
        ready_for_new_data: if p.common.show_frame != 0 {
            1
        } else {
            p.ready_for_new_data
        },
        ..p
    }
}

/// Gives the picture to show, once.
pub fn vp8dx_get_raw_frame(pbi: &mut Vp8dComp, flags: &Vp8PpFlags) -> (view: Option<FrameView>)
    requires
        at_rest(*old(pbi)),
    ensures
        view == picture(*old(pbi)),
        *final(pbi) == picture_asked(*old(pbi)),
        playing(*old(pbi)) ==> playing(*final(pbi)),
        bare(*old(pbi)) ==> bare(*final(pbi)),
{
    if pbi.ready_for_new_data == 1 {
        return None;
    }
    if pbi.common.show_frame == 0 {
        return None;
    }
    let ghost p0 = *pbi;
    pbi.ready_for_new_data = 1;
    proof {
        if playing(p0) {
            lemma_buffers(p0);
            lemma_playing(p0, *pbi);
        }
    }
    if pbi.common.frame_to_show_idx >= 0 {
        let k: usize = pbi.common.frame_to_show_idx as usize;
        let slot: &Yv12BufferConfig = &pbi.common.yv12_fb[k];
        proof {
            assert(slot.holds(p0.common.mb_rows as int, p0.common.mb_cols as int));
            assert(0 <= slot.border * slot.y_stride + slot.border <= 64 * 0x1_0000)
                by (nonlinear_arith)
                requires
                    slot.border == 32,
                    0 <= slot.y_stride <= 0x8000,
            ;
        }
        Some(
            FrameView {
                fb_idx: pbi.common.frame_to_show_idx,
                y_buffer: slot.y_buffer(),
                u_buffer: slot.u_buffer(),
                v_buffer: slot.v_buffer(),
                y_stride: slot.y_stride,
                uv_stride: slot.uv_stride,
                display_width: pbi.common.width,
                display_height: pbi.common.height,
            },
        )
    } else {
        None
    }
}

/// Some macroblock is predicted from reference frame number `ref_frame`.
pub open spec fn references(cm: Vp8Common, ref_frame: int) -> bool {
    exists|r: int, c: int|
        1 <= r <= cm.mb_rows && r < cm.mip@.len() && 1 <= c <= cm.mb_cols && ref_number(
            (#[trigger] cm.mip@[r][c]).mbmi.ref_frame,
        ) == ref_frame
}

/// Tells whether some macroblock is predicted from reference frame number `ref_frame`.
pub fn vp8dx_references_buffer(oci: &Vp8Common, ref_frame: i32) -> (used: i32)
    requires
        modes_fit(*oci),
    ensures
        used == (if references(*oci, ref_frame as int) {
            1int
        } else {
            0
        }),
{
    let rows: usize = oci.mb_rows as usize;
    let cols: usize = oci.mb_cols as usize;
    let mut r: usize = 0;
    while r < rows
        invariant
            r <= rows,
            rows == oci.mb_rows,
            cols == oci.mb_cols,
            modes_fit(*oci),
            forall|i: int, j: int|
                1 <= i <= r && 1 <= j <= cols ==> ref_number(
                    (#[trigger] oci.mip@[i][j]).mbmi.ref_frame,
                ) != ref_frame,
        decreases rows - r,
    {
        let mut c: usize = 0;
        while c < cols
            invariant
                r < rows,
                c <= cols,
                rows == oci.mb_rows,
                cols == oci.mb_cols,
                modes_fit(*oci),
                forall|i: int, j: int|
                    1 <= i <= r && 1 <= j <= cols ==> ref_number(
                        (#[trigger] oci.mip@[i][j]).mbmi.ref_frame,
                    ) != ref_frame,
                forall|j: int|
                    1 <= j <= c ==> ref_number(
                        (#[trigger] oci.mip@[r + 1][j]).mbmi.ref_frame,
                    ) != ref_frame,
            decreases cols - c,
        {
            let mi: &ModeInfo = oci.mip.cell(r + 1, c + 1);
            if ref_index(mi.mbmi.ref_frame) as i32 == ref_frame {
                proof {
                    oci.mip.lemma_rect();
                    assert(ref_number(oci.mip@[r + 1][c + 1].mbmi.ref_frame) == ref_frame);
                }
                return 1;
            }
            c += 1;
        }
        r += 1;
    }
    0
}

/// The number of a result code.
pub open spec fn code_number(e: VpxCodecErr) -> int {
    match e {
        VpxCodecErr::VPX_CODEC_OK => 0,
        VpxCodecErr::VPX_CODEC_ERROR => 1,
        VpxCodecErr::VPX_CODEC_MEM_ERROR => 2,
        VpxCodecErr::VPX_CODEC_ABI_MISMATCH => 3,
        VpxCodecErr::VPX_CODEC_INCAPABLE => 4,
        VpxCodecErr::VPX_CODEC_UNSUP_BITSTREAM => 5,
        VpxCodecErr::VPX_CODEC_UNSUP_FEATURE => 6,
        VpxCodecErr::VPX_CODEC_CORRUPT_FRAME => 7,
        VpxCodecErr::VPX_CODEC_INVALID_PARAM => 8,
        VpxCodecErr::VPX_CODEC_LIST_END => 9,
    }
}

/// Makes a new decoder.
pub fn vp8_create_decoder_instances(fb: &mut FrameBuffers, oxcf: &Vp8dConfig) -> (code: i32)
    ensures
        code == code_number(VpxCodecErr::VPX_CODEC_OK),
        final(fb).pbi is Some,
        is_new(*(final(fb).pbi->0)),
        setup_ok(*(final(fb).pbi->0)),
        indices_ok(*(final(fb).pbi->0)),
{
    fb.pbi = Some(create_decompressor(oxcf));
    0
}

/// Gives up a decoder; without one this is an error.
pub fn vp8_remove_decoder_instances(fb: &mut FrameBuffers) -> (code: i32)
    ensures
        final(fb).pbi is None,
        code == (if old(fb).pbi is Some {
            code_number(VpxCodecErr::VPX_CODEC_OK)
        } else {
            code_number(VpxCodecErr::VPX_CODEC_ERROR)
        }),
{
    match fb.pbi.take() {
        Some(b) => {
            let mut b: Box<Vp8dComp> = b;
            vp8_remove_common(&mut b.common);
            0
        },
        None => 1,
    }
}

/// The quantizer index of the last frame.
pub fn vp8dx_get_quantizer(pbi: &Vp8dComp) -> (q: i32)
    ensures
        q == pbi.common.base_qindex,
{
    pbi.common.base_qindex
}

/// There is a picture exactly where a frame was decoded since the last one was given, is meant to
/// be shown, and is in a buffer. It has the buffer's strides and the size to be shown. It is given
/// only once: after it was given there is none until another frame is decoded.
pub proof fn law_picture_once(p: Vp8dComp)
    ensures
        picture(p) is Some <==> p.ready_for_new_data != 1 && p.common.show_frame != 0
            && p.common.frame_to_show_idx >= 0,
        picture(p) matches Some(v) ==> {
            let b = p.common.yv12_fb[p.common.frame_to_show_idx as int];
            &&& v.fb_idx == p.common.frame_to_show_idx
            &&& v.y_stride == b.y_stride
            &&& v.uv_stride == b.uv_stride
            &&& v.display_width == p.common.width
            &&& v.display_height == p.common.height
            &&& picture_asked(p).ready_for_new_data == 1
        },
        p.common.show_frame != 0 ==> picture(picture_asked(p)) is None,
        picture(p) is None ==> picture(picture_asked(p)) is None,
{
}

/// A reference frame that was set is what is read back: the pixel in row `i` and column `j` of
/// each plane is the one that was set.
pub proof fn law_set_then_get_reference(
    p: Vp8dComp,
    flag: int,
    sd: Yv12BufferConfig,
    q: Vp8dComp,
    out: Yv12BufferConfig,
    i: int,
    j: int,
)
    requires
        playing(p),
        framed(sd),
        framed(out),
        same_size(sd, out),
        ref_of_size(p.common, flag, sd) is Some,
        free_fb(p.common.fb_idx_ref_cnt) < 4,
        reference_set(p, flag, sd, q),
        0 <= i,
        0 <= j,
    ensures
        ref_of_size(q.common, flag, out) is Some,
        ({
            let d = copied_frame(q.common.yv12_fb[ref_of_size(q.common, flag, out)->0], out);
            let (sb, ob) = (sd.border as int, out.border as int);
            &&& i < sd.y_height && j < sd.y_width ==> d.y[ob + i][ob + j]
                == sd.planes.y@[sb + i][sb + j]
            &&& i < sd.uv_height && j < sd.uv_width ==> d.u[ob / 2 + i][ob / 2 + j]
                == sd.planes.u@[sb / 2 + i][sb / 2 + j]
            &&& i < sd.uv_height && j < sd.uv_width ==> d.v[ob / 2 + i][ob / 2 + j]
                == sd.planes.v@[sb / 2 + i][sb / 2 + j]
        }),
{
    lemma_buffers(p);
    let f = free_fb(p.common.fb_idx_ref_cnt);
    let k = ref_of_size(p.common, flag, sd)->0;
    let rows = p.common.mb_rows as int;
    let cols = p.common.mb_cols as int;
    let b = p.common.yv12_fb[f];
    let c = q.common.yv12_fb[f];
    assert(b.holds(rows, cols));
    assert(p.common.yv12_fb[k].holds(rows, cols));
    sd.planes.y.lemma_rect();
    sd.planes.u.lemma_rect();
    sd.planes.v.lemma_rect();
    out.planes.y.lemma_rect();
    out.planes.u.lemma_rect();
    out.planes.v.lemma_rect();
    b.planes.y.lemma_rect();
    b.planes.u.lemma_rect();
    b.planes.v.lemma_rect();
    let (sb, ob) = (sd.border as int, out.border as int);
    let (h, w) = (sd.y_height as int, sd.y_width as int);
    let (uh, uw) = (sd.uv_height as int, sd.uv_width as int);
    if i < h && j < w {
        lemma_plane_twice(sd.planes.y@, sb, b.planes.y@, 32, out.planes.y@, ob, h, w, i, j);
    }
    if i < uh && j < uw {
        lemma_plane_twice(
            sd.planes.u@,
            sb / 2,
            b.planes.u@,
            16,
            out.planes.u@,
            ob / 2,
            uh,
            uw,
            i,
            j,
        );
        lemma_plane_twice(
            sd.planes.v@,
            sb / 2,
            b.planes.v@,
            16,
            out.planes.v@,
            ob / 2,
            uh,
            uw,
            i,
            j,
        );
    }
}

/// A pixel that is copied twice stays the same.
proof fn lemma_plane_twice(
    s: Pic,
    sb: int,
    m: Pic,
    mb: int,
    d: Pic,
    db: int,
    h: int,
    w: int,
    i: int,
    j: int,
)
    requires
        0 <= sb,
        0 <= mb,
        0 <= db,
        1 <= h,
        1 <= w,
        s.len() >= h + 2 * sb,
        is_rect(m, h + 2 * mb, row_length(m)),
        row_length(m) >= w + 2 * mb,
        is_rect(d, h + 2 * db, row_length(d)),
        row_length(d) >= w + 2 * db,
        0 <= i < h,
        0 <= j < w,
    ensures
        copied_plane(copied_plane(s, sb, m, mb, h, w), mb, d, db, h, w)[db + i][db + j] == s[sb
            + i][sb + j],
{
    let n = copied_plane(s, sb, m, mb, h, w);
    law_copied_plane(s, sb, m, mb, h, w, mb + i, mb + j);
    assert(n.len() == h + 2 * mb) by {
        reveal(copied_plane);
    }
    law_copied_plane(n, mb, d, db, h, w, db + i, db + j);
}

/// The first fragment is a key frame whose first partition is there.
pub open spec fn key_frame_starts(d: Seq<u8>) -> bool {
    &&& d.len() >= 10
    &&& d[0] % 2 == 0
    &&& start_code(d)
    &&& 0 < tag_number(d) / 32 <= d.len() - 10
}

/// After a frame without an error that asks for no copies of reference frames, the new frame is the
/// one to show.
proof fn lemma_settled(p: Vp8dComp, q: Vp8dComp, r: VpxResult<()>)
    requires
        (q, r) == frame_settled(p, Ok(())),
        p.common.copy_buffer_to_gf == 0,
        p.common.copy_buffer_to_arf == 0,
        0 <= p.common.new_fb_idx < 4,
    ensures
        r == Ok::<(), VpxCodecErr>(()),
        p.common.show_frame != 0 ==> picture(q) is Some,
{
    reveal(frame_settled);
    reveal(buffers_swapped);
}

/// Settling a frame does not touch the frame buffers.
proof fn lemma_settled_buffers(p: Vp8dComp, s: VpxResult<()>, q: Vp8dComp, r: VpxResult<()>)
    requires
        (q, r) == frame_settled(p, s),
    ensures
        q.common.yv12_fb == p.common.yv12_fb,
        q.common.new_fb_idx == p.common.new_fb_idx,
{
    reveal(frame_settled);
    reveal(buffers_swapped);
}

/// The buffer that is taken for a new frame is the one that it is decoded to.
proof fn lemma_claimed(p: Vp8dComp)
    requires
        refs_placed(p.common),
        free_fb(p.common.fb_idx_ref_cnt) < 4,
    ensures
        indices_ok(frame_claimed(p)),
        frame_claimed(p).dec_fb_ref_idx[0] == frame_claimed(p).common.new_fb_idx,
        0 <= frame_claimed(p).common.new_fb_idx < 4,
{
}

/// The tag of a key frame whose first partition is there.
proof fn lemma_key_tag(p: Vp8dComp, d: Seq<u8>)
    requires
        key_frame_starts(d),
    ensures
        body_reached(p, d),
        frame_tag(p, d).0.common.frame_type == FrameType::Key,
        frame_tag(p, d).0.common.show_frame == (tag_number(d) / 16) % 2,
{
    reveal(frame_tag);
}

/// A key frame that is there as a whole, whose readers did not go past the end of their data, is
/// taken without an error, and where it is meant to be shown there is a picture.
pub proof fn law_whole_key_frame_received(
    p: Vp8dComp,
    f: FragmentData,
    q: Vp8dComp,
    r: VpxResult<()>,
)
    requires
        refs_placed(p.common),
        free_fb(p.common.fb_idx_ref_cnt) < 4,
        received(p, f, q, r),
        key_frame_starts(f.data[0]@),
        forall|x: Vp8dComp| #[trigger] parts_there(x, f),
        q.common.yv12_fb[q.common.new_fb_idx as int].corrupted == 0,
    ensures
        r == Ok::<(), VpxCodecErr>(()),
        (tag_number(f.data[0]@) / 16) % 2 == 1 ==> picture(q) is Some,
{
    let p0 = failed(p, VpxCodecErr::VPX_CODEC_OK);
    let c = frame_claimed(p0);
    let d = f.data[0]@;
    let (q1, r1) = choose|q1: Vp8dComp, r1: VpxResult<()>| #[trigger]
        frame_decoded(c, f, q1, r1) && (q, r) == frame_settled(q1, r1);
    lemma_claimed(p0);
    lemma_new_kept(c, f, q1, r1);
    lemma_settled_buffers(q1, r1, q, r);
    assert(parts_there(c, f));
    lemma_key_tag(c, d);
    law_whole_key_frame(c, f, q1, r1);
    lemma_settled(q1, q, r);
}

/// A decoder with frame buffers for frames of the size that the key frame `d` gives.
pub open spec fn fits_frame(p: Vp8dComp, d: Seq<u8>) -> bool {
    &&& decoder_ok(p)
    &&& indices_ok(p)
    &&& p.common.mb_cols == mbs_for((d[6] + 0x100 * d[7]) % 0x4000)
    &&& p.common.mb_rows == mbs_for((d[8] + 0x100 * d[9]) % 0x4000)
}

/// No reader of the frame goes past the end of its data, whatever was decoded before.
pub open spec fn read_whole(f: FragmentData) -> bool {
    forall|x: Vp8dComp, q: Vp8dComp, r: VpxResult<()>|
        fits_frame(x, f.data[0]@) && #[trigger] frame_decoded(x, f, q, r)
            ==> q.common.yv12_fb[x.dec_fb_ref_idx[0] as int].corrupted == 0
}

/// A key frame that is there as a whole, with all that its readers need, is taken without an error,
/// and where it is meant to be shown there is a picture.
pub proof fn law_intact_key_frame_received(
    p: Vp8dComp,
    f: FragmentData,
    q: Vp8dComp,
    r: VpxResult<()>,
)
    requires
        playing(p),
        free_fb(p.common.fb_idx_ref_cnt) < 4,
        p.common.mb_cols == mbs_for((f.data[0]@[6] + 0x100 * f.data[0]@[7]) % 0x4000),
        p.common.mb_rows == mbs_for((f.data[0]@[8] + 0x100 * f.data[0]@[9]) % 0x4000),
        received(p, f, q, r),
        key_frame_starts(f.data[0]@),
        forall|x: Vp8dComp| #[trigger] parts_there(x, f),
        read_whole(f),
    ensures
        r == Ok::<(), VpxCodecErr>(()),
        (tag_number(f.data[0]@) / 16) % 2 == 1 ==> picture(q) is Some,
{
    let p0 = failed(p, VpxCodecErr::VPX_CODEC_OK);
    let c = frame_claimed(p0);
    let (q1, r1) = choose|q1: Vp8dComp, r1: VpxResult<()>| #[trigger]
        frame_decoded(c, f, q1, r1) && (q, r) == frame_settled(q1, r1);
    lemma_claimed(p0);
    lemma_new_kept(c, f, q1, r1);
    lemma_settled_buffers(q1, r1, q, r);
    lemma_buffers(p);
    lemma_playing(p, c);
    assert(fits_frame(c, f.data[0]@));
    law_whole_key_frame_received(p, f, q, r);
}

/// Different results have different numbers, and only that of success is nought.
pub proof fn law_codes_apart(a: VpxCodecErr, b: VpxCodecErr)
    ensures
        code_number(a) == code_number(b) <==> a == b,
        code_number(a) == 0 <==> a == VpxCodecErr::VPX_CODEC_OK,
{
}

/// Nothing to decode leaves no picture to show, and the last frame wrong. The golden and the
/// alternate frame are what they were, also where they were that same frame; all else stays.
pub proof fn law_nothing_decoded(p: Vp8dComp, q: Vp8dComp)
    requires
        nothing_decoded(p, q),
        counts_exact(p.common),
    ensures
        ({
            let c = p.common;
            let e = q.common;
            &&& e.show_frame == 0
            &&& e.yv12_fb[e.lst_fb_idx as int].corrupted == 1
            &&& e.gld_fb_idx == c.gld_fb_idx
            &&& e.alt_fb_idx == c.alt_fb_idx
            &&& e.yv12_fb[c.gld_fb_idx as int] == c.yv12_fb[c.gld_fb_idx as int]
            &&& e.yv12_fb[c.alt_fb_idx as int] == c.yv12_fb[c.alt_fb_idx as int]
            &&& counts_exact(e)
            &&& e.fc == c.fc
            &&& e.frame_type == c.frame_type
            &&& e.current_video_frame == c.current_video_frame
            &&& q.mb == p.mb
            &&& q.decoded_key_frame == p.decoded_key_frame
            &&& q.ready_for_new_data == p.ready_for_new_data
        }),
{
    reveal(nothing_decoded);
}

/// The first pixels to show of a picture lie behind the border: pixel `(i, j)` counted from them is
/// pixel `(32 + i, 32 + j)` of the luma plane, and half of that in the chroma planes.
pub proof fn law_picture_origin(p: Vp8dComp, i: int, j: int)
    requires
        picture(p) is Some,
        ({
            let b = p.common.yv12_fb[p.common.frame_to_show_idx as int];
            b.border == 32 && 0 <= b.y_stride <= 0x8000 && 0 <= b.uv_stride <= 0x4000
        }),
    ensures
        ({
            let v = picture(p)->0;
            &&& v.y_buffer + i * v.y_stride + j == (32 + i) * v.y_stride + (32 + j)
            &&& v.u_buffer + i * v.uv_stride + j == (16 + i) * v.uv_stride + (16 + j)
            &&& v.v_buffer == v.u_buffer
        }),
{
    let b = p.common.yv12_fb[p.common.frame_to_show_idx as int];
    let (s, u) = (b.y_stride as int, b.uv_stride as int);
    assert((32 + i) * s == 32 * s + i * s) by (nonlinear_arith);
    assert((16 + i) * u == 16 * u + i * u) by (nonlinear_arith);
    assert(b.border * b.y_stride == 32 * s) by (nonlinear_arith)
        requires
            b.border == 32,
            s == b.y_stride,
    ;
    let half = b.border as int / 2;
    assert(half * b.uv_stride == 16 * u) by (nonlinear_arith)
        requires
            half == 16,
            u == b.uv_stride,
    ;
}

/// An error that is returned is also the one that is recorded.
pub proof fn law_error_recorded(p: Vp8dComp, f: FragmentData, q: Vp8dComp, e: VpxCodecErr)
    requires
        received(p, f, q, Err(e)),
    ensures
        q.common.error.error_code == e,
{
    reveal(frame_settled);
}

} // verus!
