//! Which frame buffer holds which reference frame.

use crate::types::Vp8Common;
use vstd::array::spec_array_update;
use vstd::prelude::*;

verus! {

/// How many of the three reference frames are in buffer `i`.
pub open spec fn uses(cm: Vp8Common, i: int) -> int {
    (if cm.lst_fb_idx == i {
        1int
    } else {
        0
    }) + (if cm.gld_fb_idx == i {
        1int
    } else {
        0
    }) + (if cm.alt_fb_idx == i {
        1int
    } else {
        0
    })
}

/// The reference frames have buffers.
pub open spec fn refs_placed(cm: Vp8Common) -> bool {
    &&& 0 <= cm.lst_fb_idx < 4
    &&& 0 <= cm.gld_fb_idx < 4
    &&& 0 <= cm.alt_fb_idx < 4
    &&& 0 <= cm.new_fb_idx < 4
}

/// No buffer is counted as used more often than it is. After a frame that asks for a copy of a
/// reference frame that does not exist, a buffer may be counted less often, down to minus one.
pub open spec fn counts_fit(cm: Vp8Common) -> bool {
    &&& refs_placed(cm)
    &&& forall|i: int| 0 <= i < 4 ==> -1 <= #[trigger] cm.fb_idx_ref_cnt[i] <= uses(cm, i)
}

/// The same while a new frame is being decoded, whose buffer is counted once more.
pub open spec fn counts_fit_decoding(cm: Vp8Common) -> bool {
    &&& refs_placed(cm)
    &&& 0 <= cm.fb_idx_ref_cnt[cm.new_fb_idx as int]
    &&& forall|i: int|
        0 <= i < 4 ==> -1 <= #[trigger] cm.fb_idx_ref_cnt[i] <= uses(cm, i) + (if i == cm.new_fb_idx {
            1int
        } else {
            0
        })
}

/// The first buffer that is not used, or four where there is none.
pub open spec fn free_fb(cnt: [i32; 4]) -> int {
    if cnt[0] == 0 {
        0
    } else if cnt[1] == 0 {
        1
    } else if cnt[2] == 0 {
        2
    } else if cnt[3] == 0 {
        3
    } else {
        4
    }
}

/// Three reference frames do not take up all four buffers, as long as no count is below zero.
pub proof fn law_free_buffer(cm: Vp8Common)
    requires
        counts_fit(cm),
        forall|i: int| 0 <= i < 4 ==> 0 <= #[trigger] cm.fb_idx_ref_cnt[i],
    ensures
        free_fb(cm.fb_idx_ref_cnt) < 4,
{
    assert(0 <= cm.fb_idx_ref_cnt[0] <= uses(cm, 0));
    assert(0 <= cm.fb_idx_ref_cnt[1] <= uses(cm, 1));
    assert(0 <= cm.fb_idx_ref_cnt[2] <= uses(cm, 2));
    assert(0 <= cm.fb_idx_ref_cnt[3] <= uses(cm, 3));
}

/// Tells whether a buffer is free.
pub fn has_free_fb(cnt: &[i32; 4]) -> (free: bool)
    ensures
        free == (free_fb(*cnt) < 4),
{
    cnt[0] == 0 || cnt[1] == 0 || cnt[2] == 0 || cnt[3] == 0
}

/// Takes a buffer that is not used.
pub fn get_free_fb(cm: &mut Vp8Common) -> (i: i32)
    requires
        free_fb(old(cm).fb_idx_ref_cnt) < 4,
    ensures
        i == free_fb(old(cm).fb_idx_ref_cnt),
        0 <= i < 4,
        *final(cm) == (Vp8Common {
            fb_idx_ref_cnt: spec_array_update(old(cm).fb_idx_ref_cnt, i as int, 1i32),
            ..*old(cm)
        }),
{
    let i: usize = if cm.fb_idx_ref_cnt[0] == 0 {
        0
    } else if cm.fb_idx_ref_cnt[1] == 0 {
        1
    } else if cm.fb_idx_ref_cnt[2] == 0 {
        2
    } else {
        3
    };
    cm.fb_idx_ref_cnt[i] = 1;
    i as i32
}

/// The counts after a buffer is used once less.
pub open spec fn released(cnt: [i32; 4], i: int) -> [i32; 4] {
    if cnt[i] > 0 {
        spec_array_update(cnt, i, (cnt[i] - 1) as i32)
    } else {
        cnt
    }
}

/// The counts after a reference frame moves from buffer `from` to buffer `to`.
pub open spec fn moved(cnt: [i32; 4], from: int, to: int) -> [i32; 4] {
    let c = released(cnt, from);
    spec_array_update(c, to, (c[to] + 1) as i32)
}

/// Counts one use of a buffer less.
pub fn release_fb(buf: &mut [i32; 4], i: usize)
    requires
        i < 4,
    ensures
        *final(buf) == released(*old(buf), i as int),
{
    if buf[i] > 0 {
        buf[i] = buf[i] - 1;
    }
}

/// Moves a reference frame to another buffer.
pub fn ref_cnt_fb(buf: &mut [i32; 4], idx: &mut i32, new_idx: i32)
    requires
        0 <= *old(idx) < 4,
        0 <= new_idx < 4,
        old(buf)[new_idx as int] < i32::MAX,
    ensures
        *final(buf) == moved(*old(buf), *old(idx) as int, new_idx as int),
        *final(idx) == new_idx,
{
    release_fb(buf, *idx as usize);
    *idx = new_idx;
    let n: usize = new_idx as usize;
    buf[n] = buf[n] + 1;
}

/// The alternate reference frame replaced as the header asked for, and whether it asked for
/// something that does not exist.
pub open spec fn altref_copied(cm: Vp8Common) -> (Vp8Common, bool) {
    if cm.copy_buffer_to_arf == 0 {
        (cm, false)
    } else {
        let to = if cm.copy_buffer_to_arf == 1 {
            cm.lst_fb_idx
        } else if cm.copy_buffer_to_arf == 2 {
            cm.gld_fb_idx
        } else {
            0
        };
        (
            Vp8Common {
                fb_idx_ref_cnt: moved(cm.fb_idx_ref_cnt, cm.alt_fb_idx as int, to as int),
                alt_fb_idx: to,
                ..cm
            },
            cm.copy_buffer_to_arf != 1 && cm.copy_buffer_to_arf != 2,
        )
    }
}

/// The golden frame replaced as the header asked for, and whether it asked for something that
/// does not exist.
pub open spec fn golden_copied(cm: Vp8Common) -> (Vp8Common, bool) {
    if cm.copy_buffer_to_gf == 0 {
        (cm, false)
    } else {
        let to = if cm.copy_buffer_to_gf == 1 {
            cm.lst_fb_idx
        } else if cm.copy_buffer_to_gf == 2 {
            cm.alt_fb_idx
        } else {
            0
        };
        (
            Vp8Common {
                fb_idx_ref_cnt: moved(cm.fb_idx_ref_cnt, cm.gld_fb_idx as int, to as int),
                gld_fb_idx: to,
                ..cm
            },
            cm.copy_buffer_to_gf != 1 && cm.copy_buffer_to_gf != 2,
        )
    }
}

/// The golden frame replaced by the new frame, where the header says so.
pub open spec fn golden_refreshed(cm: Vp8Common) -> Vp8Common {
    if cm.refresh_golden_frame != 0 {
        Vp8Common {
            fb_idx_ref_cnt: moved(
                cm.fb_idx_ref_cnt,
                cm.gld_fb_idx as int,
                cm.new_fb_idx as int,
            ),
            gld_fb_idx: cm.new_fb_idx,
            ..cm
        }
    } else {
        cm
    }
}

/// The alternate reference frame replaced by the new frame, where the header says so.
pub open spec fn altref_refreshed(cm: Vp8Common) -> Vp8Common {
    if cm.refresh_alt_ref_frame != 0 {
        Vp8Common {
            fb_idx_ref_cnt: moved(
                cm.fb_idx_ref_cnt,
                cm.alt_fb_idx as int,
                cm.new_fb_idx as int,
            ),
            alt_fb_idx: cm.new_fb_idx,
            ..cm
        }
    } else {
        cm
    }
}

/// The last frame replaced by the new frame, where the header says so.
pub open spec fn last_refreshed(cm: Vp8Common) -> Vp8Common {
    if cm.refresh_last_frame != 0 {
        Vp8Common {
            fb_idx_ref_cnt: moved(
                cm.fb_idx_ref_cnt,
                cm.lst_fb_idx as int,
                cm.new_fb_idx as int,
            ),
            lst_fb_idx: cm.new_fb_idx,
            ..cm
        }
    } else {
        cm
    }
}

/// The new frame is the one to show, and its buffer is no longer held for decoding.
pub open spec fn settled(cm: Vp8Common) -> Vp8Common {
    Vp8Common {
        frame_to_show_idx: cm.new_fb_idx,
        fb_idx_ref_cnt: spec_array_update(
            cm.fb_idx_ref_cnt,
            cm.new_fb_idx as int,
            (cm.fb_idx_ref_cnt[cm.new_fb_idx as int] - 1) as i32,
        ),
        ..cm
    }
}

/// The reference frames after a new frame was decoded, and whether the header asked for
/// something that does not exist.
#[verifier::opaque]
pub open spec fn buffers_swapped(cm: Vp8Common) -> (Vp8Common, bool) {
    let (c1, e1) = altref_copied(cm);
    let (c2, e2) = golden_copied(c1);
    (settled(last_refreshed(altref_refreshed(golden_refreshed(c2)))), e1 || e2)
}

fn copy_altref(cm: &mut Vp8Common) -> (wrong: bool)
    requires
        counts_fit_decoding(*old(cm)),
    ensures
        (*final(cm), wrong) == altref_copied(*old(cm)),
        counts_fit_decoding(*final(cm)),
{
    if cm.copy_buffer_to_arf == 0 {
        return false;
    }
    let mut wrong: bool = false;
    let mut new_fb: i32 = 0;
    if cm.copy_buffer_to_arf == 1 {
        new_fb = cm.lst_fb_idx;
    } else if cm.copy_buffer_to_arf == 2 {
        new_fb = cm.gld_fb_idx;
    } else {
        wrong = true;
    }
    assert(cm.fb_idx_ref_cnt[new_fb as int] <= uses(*cm, new_fb as int) + 1);
    ref_cnt_fb(&mut cm.fb_idx_ref_cnt, &mut cm.alt_fb_idx, new_fb);
    proof {
        lemma_moved(*old(cm), *cm, old(cm).alt_fb_idx as int, new_fb as int);
    }
    wrong
}

fn copy_golden(cm: &mut Vp8Common) -> (wrong: bool)
    requires
        counts_fit_decoding(*old(cm)),
    ensures
        (*final(cm), wrong) == golden_copied(*old(cm)),
        counts_fit_decoding(*final(cm)),
{
    if cm.copy_buffer_to_gf == 0 {
        return false;
    }
    let mut wrong: bool = false;
    let mut new_fb: i32 = 0;
    if cm.copy_buffer_to_gf == 1 {
        new_fb = cm.lst_fb_idx;
    } else if cm.copy_buffer_to_gf == 2 {
        new_fb = cm.alt_fb_idx;
    } else {
        wrong = true;
    }
    assert(cm.fb_idx_ref_cnt[new_fb as int] <= uses(*cm, new_fb as int) + 1);
    ref_cnt_fb(&mut cm.fb_idx_ref_cnt, &mut cm.gld_fb_idx, new_fb);
    proof {
        lemma_moved(*old(cm), *cm, old(cm).gld_fb_idx as int, new_fb as int);
    }
    wrong
}

/// Moving one reference frame keeps the counts in order.
proof fn lemma_moved(a: Vp8Common, b: Vp8Common, from: int, to: int)
    requires
        counts_fit_decoding(a),
        refs_placed(b),
        0 <= from < 4,
        0 <= to < 4,
        b.new_fb_idx == a.new_fb_idx,
        b.fb_idx_ref_cnt == moved(a.fb_idx_ref_cnt, from, to),
        uses(a, from) >= 1,
        forall|i: int|
            0 <= i < 4 ==> #[trigger] uses(b, i) == uses(a, i) - (if i == from {
                1int
            } else {
                0
            }) + (if i == to {
                1int
            } else {
                0
            }),
    ensures
        counts_fit_decoding(b),
{
    assert forall|i: int| 0 <= i < 4 implies -1 <= #[trigger] b.fb_idx_ref_cnt[i] <= uses(b, i) + (
    if i == b.new_fb_idx {
        1int
    } else {
        0
    }) by {
        assert(-1 <= a.fb_idx_ref_cnt[i] <= uses(a, i) + 1);
        assert(-1 <= a.fb_idx_ref_cnt[to] <= uses(a, to) + 1);
        assert(-1 <= a.fb_idx_ref_cnt[from] <= uses(a, from) + 1);
    }
}

fn refresh_golden(cm: &mut Vp8Common)
    requires
        counts_fit_decoding(*old(cm)),
    ensures
        *final(cm) == golden_refreshed(*old(cm)),
        counts_fit_decoding(*final(cm)),
{
    if cm.refresh_golden_frame != 0 {
        let new: i32 = cm.new_fb_idx;
        assert(cm.fb_idx_ref_cnt[new as int] <= uses(*cm, new as int) + 1);
        ref_cnt_fb(&mut cm.fb_idx_ref_cnt, &mut cm.gld_fb_idx, new);
        proof {
            lemma_moved(*old(cm), *cm, old(cm).gld_fb_idx as int, new as int);
        }
    }
}

fn refresh_altref(cm: &mut Vp8Common)
    requires
        counts_fit_decoding(*old(cm)),
    ensures
        *final(cm) == altref_refreshed(*old(cm)),
        counts_fit_decoding(*final(cm)),
{
    if cm.refresh_alt_ref_frame != 0 {
        let new: i32 = cm.new_fb_idx;
        assert(cm.fb_idx_ref_cnt[new as int] <= uses(*cm, new as int) + 1);
        ref_cnt_fb(&mut cm.fb_idx_ref_cnt, &mut cm.alt_fb_idx, new);
        proof {
            lemma_moved(*old(cm), *cm, old(cm).alt_fb_idx as int, new as int);
        }
    }
}

fn refresh_last(cm: &mut Vp8Common)
    requires
        counts_fit_decoding(*old(cm)),
    ensures
        *final(cm) == last_refreshed(*old(cm)),
        counts_fit_decoding(*final(cm)),
{
    if cm.refresh_last_frame != 0 {
        let new: i32 = cm.new_fb_idx;
        assert(cm.fb_idx_ref_cnt[new as int] <= uses(*cm, new as int) + 1);
        ref_cnt_fb(&mut cm.fb_idx_ref_cnt, &mut cm.lst_fb_idx, new);
        proof {
            lemma_moved(*old(cm), *cm, old(cm).lst_fb_idx as int, new as int);
        }
    }
}

fn settle(cm: &mut Vp8Common)
    requires
        counts_fit_decoding(*old(cm)),
    ensures
        *final(cm) == settled(*old(cm)),
        counts_fit(*final(cm)),
{
    cm.frame_to_show_idx = cm.new_fb_idx;
    let new: usize = cm.new_fb_idx as usize;
    cm.fb_idx_ref_cnt[new] = cm.fb_idx_ref_cnt[new] - 1;
    proof {
        let b = *old(cm);
        assert forall|i: int| 0 <= i < 4 implies -1 <= #[trigger] cm.fb_idx_ref_cnt[i] <= uses(
            *cm,
            i,
        ) by {
            assert(-1 <= b.fb_idx_ref_cnt[i]);
            assert(uses(b, i) == uses(*cm, i));
        }
    }
}

/// Moves the reference frames after a new frame was decoded. Gives minus one where the header asked
/// for something that does not exist.
pub fn swap_frame_buffers(cm: &mut Vp8Common) -> (err: i32)
    requires
        counts_fit_decoding(*old(cm)),
    ensures
        *final(cm) == buffers_swapped(*old(cm)).0,
        err == (if buffers_swapped(*old(cm)).1 {
            -1int
        } else {
            0
        }),
        counts_fit(*final(cm)),
{
    proof {
        reveal(buffers_swapped);
    }
    let e1: bool = copy_altref(cm);
    let e2: bool = copy_golden(cm);
    refresh_golden(cm);
    refresh_altref(cm);
    refresh_last(cm);
    settle(cm);
    if e1 || e2 {
        -1
    } else {
        0
    }
}

/// Every buffer is counted exactly as often as it is used.
pub open spec fn counts_exact(cm: Vp8Common) -> bool {
    &&& refs_placed(cm)
    &&& forall|i: int| 0 <= i < 4 ==> #[trigger] cm.fb_idx_ref_cnt[i] == uses(cm, i)
}

/// Where every buffer is counted exactly as often as it is used, and the new frame's once more,
/// moving the reference frames leaves every buffer counted exactly as often as it is used. The new
/// frame is the one to show, and it stays the new one. An error is told exactly where the header
/// asked for a copy that does not exist.
pub proof fn law_swap_keeps_counts_exact(cm: Vp8Common)
    requires
        refs_placed(cm),
        forall|i: int|
            0 <= i < 4 ==> #[trigger] cm.fb_idx_ref_cnt[i] == uses(cm, i) + (if i
                == cm.new_fb_idx {
                1int
            } else {
                0
            }),
    ensures
        counts_exact(buffers_swapped(cm).0),
        buffers_swapped(cm).0.frame_to_show_idx == cm.new_fb_idx,
        buffers_swapped(cm).0.new_fb_idx == cm.new_fb_idx,
        buffers_swapped(cm).1 <==> !(0 <= cm.copy_buffer_to_arf <= 2 && 0 <= cm.copy_buffer_to_gf
            <= 2),
{
    reveal(buffers_swapped);
    let (c1, e1) = altref_copied(cm);
    lemma_step_exact(cm, c1);
    let (c2, e2) = golden_copied(c1);
    lemma_step_exact(c1, c2);
    let c3 = golden_refreshed(c2);
    lemma_refreshed_exact(c2, c3);
    let c4 = altref_refreshed(c3);
    lemma_refreshed_exact(c3, c4);
    let c5 = last_refreshed(c4);
    lemma_refreshed_exact(c4, c5);
    lemma_settled_exact(c5);
}

spec fn decoding_exact(cm: Vp8Common) -> bool {
    &&& refs_placed(cm)
    &&& forall|i: int|
        0 <= i < 4 ==> #[trigger] cm.fb_idx_ref_cnt[i] == uses(cm, i) + (if i == cm.new_fb_idx {
            1int
        } else {
            0
        })
}

proof fn lemma_move_exact(a: Vp8Common, b: Vp8Common, from: int, to: int)
    requires
        decoding_exact(a),
        refs_placed(b),
        0 <= from < 4,
        0 <= to < 4,
        b.new_fb_idx == a.new_fb_idx,
        b.fb_idx_ref_cnt == moved(a.fb_idx_ref_cnt, from, to),
        uses(a, from) >= 1,
        forall|i: int|
            0 <= i < 4 ==> #[trigger] uses(b, i) == uses(a, i) - (if i == from {
                1int
            } else {
                0
            }) + (if i == to {
                1int
            } else {
                0
            }),
    ensures
        decoding_exact(b),
{
    assert forall|i: int| 0 <= i < 4 implies #[trigger] b.fb_idx_ref_cnt[i] == uses(b, i) + (if i
        == b.new_fb_idx {
        1int
    } else {
        0
    }) by {
        assert(a.fb_idx_ref_cnt[i] <= uses(a, i) + 1);
        assert(a.fb_idx_ref_cnt[to] <= uses(a, to) + 1);
        assert(a.fb_idx_ref_cnt[from] >= uses(a, from));
    }
}

proof fn lemma_step_exact(a: Vp8Common, b: Vp8Common)
    requires
        decoding_exact(a),
        b == altref_copied(a).0 || b == golden_copied(a).0,
    ensures
        decoding_exact(b),
{
    if b != a {
        if b == altref_copied(a).0 {
            lemma_move_exact(a, b, a.alt_fb_idx as int, b.alt_fb_idx as int);
        } else {
            lemma_move_exact(a, b, a.gld_fb_idx as int, b.gld_fb_idx as int);
        }
    }
}

proof fn lemma_refreshed_exact(a: Vp8Common, b: Vp8Common)
    requires
        decoding_exact(a),
        b == golden_refreshed(a) || b == altref_refreshed(a) || b == last_refreshed(a),
    ensures
        decoding_exact(b),
{
    if b != a {
        if b == golden_refreshed(a) {
            lemma_move_exact(a, b, a.gld_fb_idx as int, b.gld_fb_idx as int);
        } else if b == altref_refreshed(a) {
            lemma_move_exact(a, b, a.alt_fb_idx as int, b.alt_fb_idx as int);
        } else {
            lemma_move_exact(a, b, a.lst_fb_idx as int, b.lst_fb_idx as int);
        }
    }
}

proof fn lemma_settled_exact(a: Vp8Common)
    requires
        decoding_exact(a),
    ensures
        counts_exact(settled(a)),
{
    let b = settled(a);
    assert forall|i: int| 0 <= i < 4 implies #[trigger] b.fb_idx_ref_cnt[i] == uses(b, i) by {
        assert(a.fb_idx_ref_cnt[i] <= uses(a, i) + 1);
        assert(uses(a, i) == uses(b, i));
    }
}

/// Where the reference frames lie after a new frame, in terms of where they lay before: a frame
/// that is replaced by the new one lies in the new frame's buffer, whatever copies were asked for.
/// Otherwise the alternate reference frame is a copy of the last (1) or golden frame (2) as they
/// were, and the golden frame one of the last frame as it was (1) or of the alternate reference
/// frame (2) as it is after its own copy. What was not asked for stays.
pub proof fn law_swap_places(cm: Vp8Common)
    ensures
        ({
            let c = buffers_swapped(cm).0;
            let alt = if cm.copy_buffer_to_arf == 1 {
                cm.lst_fb_idx
            } else if cm.copy_buffer_to_arf == 2 {
                cm.gld_fb_idx
            } else {
                cm.alt_fb_idx
            };
            &&& c.frame_to_show_idx == cm.new_fb_idx
            &&& c.new_fb_idx == cm.new_fb_idx
            &&& c.yv12_fb == cm.yv12_fb
            &&& cm.refresh_last_frame != 0 ==> c.lst_fb_idx == cm.new_fb_idx
            &&& cm.refresh_last_frame == 0 ==> c.lst_fb_idx == cm.lst_fb_idx
            &&& cm.refresh_golden_frame != 0 ==> c.gld_fb_idx == cm.new_fb_idx
            &&& cm.refresh_golden_frame == 0 ==> {
                &&& cm.copy_buffer_to_gf == 0 ==> c.gld_fb_idx == cm.gld_fb_idx
                &&& cm.copy_buffer_to_gf == 1 ==> c.gld_fb_idx == cm.lst_fb_idx
                &&& cm.copy_buffer_to_gf == 2 && 0 <= cm.copy_buffer_to_arf <= 2
                    ==> c.gld_fb_idx == alt
            }
            &&& cm.refresh_alt_ref_frame != 0 ==> c.alt_fb_idx == cm.new_fb_idx
            &&& cm.refresh_alt_ref_frame == 0 && 0 <= cm.copy_buffer_to_arf <= 2
                ==> c.alt_fb_idx == alt
        }),
        0 <= cm.copy_buffer_to_gf <= 3 && 0 <= cm.copy_buffer_to_arf <= 3 ==> (
        buffers_swapped(cm).1 <==> cm.copy_buffer_to_gf == 3 || cm.copy_buffer_to_arf == 3),
        buffers_swapped(cm).0 == (Vp8Common {
            frame_to_show_idx: cm.new_fb_idx,
            fb_idx_ref_cnt: buffers_swapped(cm).0.fb_idx_ref_cnt,
            lst_fb_idx: buffers_swapped(cm).0.lst_fb_idx,
            gld_fb_idx: buffers_swapped(cm).0.gld_fb_idx,
            alt_fb_idx: buffers_swapped(cm).0.alt_fb_idx,
            ..cm
        }),
{
    reveal(buffers_swapped);
}

} // verus!
