//! What the decoding of a key frame depends on: not on the reference frames, and not on what its
//! frame buffer held before.

use crate::arith::clamp_int;
use crate::dboolhuff::BoolState;
use crate::decodeframe::{cleared_above, frame_modes, modes_known};
use crate::decodemv::{env_of, mode_header, modes_row, modes_rows};
use crate::extend::{
    extend_bottom, extend_down, extend_left_right, extend_row_end, extend_sides, extend_top,
    extend_two, extend_up, law_sides_repeat,
};
use crate::framelines::{border_repeats, law_decoded_border, planes_hold};
use crate::framerows::{filter_started, frame_buffer, frame_env, rows_end, rows_start};
use crate::grid::{blit, is_rect, put, Pic};
use crate::idct_blk::{add_block, add_blocks, Residual};
use crate::intramode::{get_kf_ymode, intra_b, kf_modes, kf_submodes};
use crate::loopfilter_filters::{
    bh, bhs, bv, bvs, mb_h, mb_v, mbh, mbv, normal_h, normal_v, simple_h, simple_v, taps_across,
    taps_down, LoopFilterInfo,
};
use crate::macroblock::{
    eobs_of, luma_residual, mb_decode, mb_intra, mb_predict, mb_residual, mb_steps, mb_tokens,
    second_order, subblocks, MbEnv, MbState, RefPics,
};
use crate::mbmodes::{get_skip, mb_modes, segment_of, ModeEnv};
use crate::mbrows::{
    after_row, after_rows, all_rows, filter_row, frame_rows, one_mb, one_row, row_mbs, FrameEnv,
    RowState,
};
use crate::reconinter::{chroma_at, luma_at};
use crate::reconintra::{edge_of, intra_square, left_of};
use crate::reconintra4x4::{copy_right, down_copy, intra4};
use crate::setupintrarecon::{left_lines, top_lines};
use crate::types::{
    edges_at, no_context, BModeInfo, BPredictionMode, FrameType, LoopFilterInfoN,
    LoopFilterType, Macroblockd, MbEdges, MbModeInfo, MbPredictionMode, ModeInfo,
    MvReferenceFrame, Vp8Common, Vp8dComp, Yuv,
};
use crate::vp8_loopfilter::{
    lf_mb, lf_mb_simple, lf_row, lf_row_simple, limits_at, mb_level, ref_number, skips_inner,
    ModeGrid,
};
use vstd::prelude::*;

verus! {

/// Two pictures are of the same size.
pub open spec fn alike(p: Pic, q: Pic) -> bool {
    &&& p.len() == q.len()
    &&& forall|i: int| 0 <= i < p.len() ==> (#[trigger] p[i]).len() == q[i].len()
}

proof fn lemma_rect_stays(p: Pic, s: Pic, h: int, w: int)
    requires
        is_rect(p, h, w),
        alike(p, s),
    ensures
        is_rect(s, h, w),
{
    assert forall|r: int| 0 <= r < h implies (#[trigger] s[r]).len() == w by {
        assert(p[r].len() == w);
    }
}

/// Two pictures are the same in lines `i0` to before `i1`, columns `j0` to before `j1`.
pub open spec fn same_on(p: Pic, q: Pic, i0: int, i1: int, j0: int, j1: int) -> bool {
    forall|i: int, j: int|
        i0 <= i < i1 && j0 <= j < j1 ==> #[trigger] p[i][j] == q[i][j]
}

/// Two pictures `p` and `q` have become `s` and `t`: these are the same wherever `p` and `q`
/// were, and in lines `i0` to before `i1`, columns `j0` to before `j1`.
pub open spec fn grown(
    p: Pic,
    q: Pic,
    s: Pic,
    t: Pic,
    i0: int,
    i1: int,
    j0: int,
    j1: int,
) -> bool {
    &&& alike(p, q)
    &&& alike(p, s)
    &&& alike(s, t)
    &&& forall|i: int, j: int|
        0 <= i < p.len() && 0 <= j < p[i].len() && (p[i][j] == q[i][j] || (i0 <= i < i1 && j0 <= j
            < j1)) ==> #[trigger] s[i][j] == t[i][j]
}

/// Where two pictures were the same, they stay the same.
proof fn lemma_stays(
    p: Pic,
    q: Pic,
    s: Pic,
    t: Pic,
    i0: int,
    i1: int,
    j0: int,
    j1: int,
    a0: int,
    a1: int,
    b0: int,
    b1: int,
    h: int,
    w: int,
)
    requires
        grown(p, q, s, t, i0, i1, j0, j1),
        same_on(p, q, a0, a1, b0, b1),
        is_rect(p, h, w),
        0 <= a0,
        a1 <= h,
        0 <= b0,
        b1 <= w,
    ensures
        same_on(s, t, a0, a1, b0, b1),
{
    assert forall|i: int, j: int| a0 <= i < a1 && b0 <= j < b1 implies #[trigger] s[i][j]
        == t[i][j] by {
        assert(p[i][j] == q[i][j]);
        assert(p[i].len() == w);
    }
}

/// Two steps make one.
proof fn lemma_grown_twice(
    p: Pic,
    q: Pic,
    s: Pic,
    t: Pic,
    u: Pic,
    v: Pic,
    i0: int,
    i1: int,
    j0: int,
    j1: int,
)
    requires
        grown(p, q, s, t, i0, i1, j0, j1),
        grown(s, t, u, v, i0, i1, j0, j1),
    ensures
        grown(p, q, u, v, i0, i1, j0, j1),
{
    assert forall|i: int| 0 <= i < p.len() implies (#[trigger] p[i]).len() == u[i].len() by {
        assert(p[i].len() == s[i].len());
        assert(s[i].len() == u[i].len());
    }
    assert forall|i: int, j: int|
        0 <= i < p.len() && 0 <= j < p[i].len() && (p[i][j] == q[i][j] || (i0 <= i < i1 && j0 <= j
            < j1)) implies #[trigger] u[i][j] == v[i][j] by {
        assert(p[i].len() == s[i].len());
        assert(s[i][j] == t[i][j]);
    }
}

/// `p` and `q` have become `s` and `t`, which are the same wherever `p` and `q` were.
pub open spec fn kept_same(p: Pic, q: Pic, s: Pic, t: Pic) -> bool {
    grown(p, q, s, t, 0, 0, 0, 0)
}

proof fn lemma_kept(p: Pic, q: Pic, s: Pic, t: Pic, i0: int, i1: int, j0: int, j1: int)
    requires
        grown(p, q, s, t, i0, i1, j0, j1),
    ensures
        kept_same(p, q, s, t),
{
}

proof fn lemma_kept_twice(p: Pic, q: Pic, s: Pic, t: Pic, u: Pic, v: Pic)
    requires
        kept_same(p, q, s, t),
        kept_same(s, t, u, v),
    ensures
        kept_same(p, q, u, v),
{
    lemma_grown_twice(p, q, s, t, u, v, 0, 0, 0, 0);
}

/// The same rectangle written into two pictures.
proof fn lemma_blit_grown(p: Pic, q: Pic, r0: int, c0: int, h: int, w: int)
    requires
        alike(p, q),
    ensures
        forall|f: spec_fn(int, int) -> u8|
            grown(
                p,
                q,
                #[trigger] blit(p, r0, c0, h, w, f),
                blit(q, r0, c0, h, w, f),
                r0,
                r0 + h,
                c0,
                c0 + w,
            ),
{
}

proof fn lemma_square(
    p: Pic,
    q: Pic,
    r0: int,
    c0: int,
    bs: int,
    mode: MbPredictionMode,
    up: bool,
    left: bool,
)
    requires
        alike(p, q),
        0 <= bs <= 16,
        same_on(p, q, r0 - 1, r0, c0 - 1, c0 + bs),
        same_on(p, q, r0, r0 + bs, c0 - 1, c0),
    ensures
        grown(
            p,
            q,
            intra_square(p, r0, c0, bs, mode, up, left),
            intra_square(q, r0, c0, bs, mode, up, left),
            r0,
            r0 + bs,
            c0,
            c0 + bs,
        ),
{
    assert(edge_of(p, r0, c0, bs) =~= edge_of(q, r0, c0, bs));
    assert(left_of(p, r0, c0, bs) =~= left_of(q, r0, c0, bs));
    lemma_blit_grown(p, q, r0, c0, bs, bs);
}

proof fn lemma_intra4(p: Pic, q: Pic, r0: int, c0: int, mode: BPredictionMode)
    requires
        alike(p, q),
        same_on(p, q, r0 - 1, r0, c0 - 1, c0 + 8),
        same_on(p, q, r0, r0 + 4, c0 - 1, c0),
    ensures
        grown(
            p,
            q,
            intra4(p, r0, c0, mode),
            intra4(q, r0, c0, mode),
            r0,
            r0 + 4,
            c0,
            c0 + 4,
        ),
{
    assert(edge_of(p, r0, c0, 8) =~= edge_of(q, r0, c0, 8));
    assert(left_of(p, r0, c0, 4) =~= left_of(q, r0, c0, 4));
    lemma_blit_grown(p, q, r0, c0, 4, 4);
}

proof fn lemma_add_block(
    p: Pic,
    q: Pic,
    s: Residual,
    t: Residual,
    dq: [i16; 16],
    blk: int,
    eob: int,
    r0: int,
    c0: int,
)
    requires
        s.q == t.q,
        s.p == p,
        t.p == q,
        alike(p, q),
        same_on(p, q, r0, r0 + 4, c0, c0 + 4),
    ensures
        add_block(s, dq, blk, eob, r0, c0).q == add_block(t, dq, blk, eob, r0, c0).q,
        grown(
            p,
            q,
            add_block(s, dq, blk, eob, r0, c0).p,
            add_block(t, dq, blk, eob, r0, c0).p,
            r0,
            r0 + 4,
            c0,
            c0 + 4,
        ),
{
    let s2 = add_block(s, dq, blk, eob, r0, c0);
    let t2 = add_block(t, dq, blk, eob, r0, c0);
    assert forall|i: int, j: int|
        0 <= i < p.len() && 0 <= j < p[i].len() && (p[i][j] == q[i][j] || (r0 <= i < r0 + 4 && c0
            <= j < c0 + 4)) implies #[trigger] s2.p[i][j] == t2.p[i][j] by {
        assert(p[i].len() == q[i].len());
        if r0 <= i < r0 + 4 && c0 <= j < c0 + 4 {
            assert(p[i][j] == q[i][j]);
            assert(r0 + (i - r0) == i && c0 + (j - c0) == j);
        }
    }
}

proof fn lemma_add_blocks(
    s: Residual,
    t: Residual,
    dq: [i16; 16],
    eobs: [i8; 25],
    first: int,
    across: int,
    n: int,
    r0: int,
    c0: int,
    h: int,
    w: int,
)
    requires
        (across == 4 && n <= 16) || (across == 2 && n <= 4),
        s.q == t.q,
        is_rect(s.p, h, w),
        alike(s.p, t.p),
        0 <= r0,
        0 <= c0,
        r0 + 4 * across <= h,
        c0 + 4 * across <= w,
        same_on(s.p, t.p, r0, r0 + 4 * across, c0, c0 + 4 * across),
    ensures
        add_blocks(s, dq, eobs, first, across, n, r0, c0).q == add_blocks(
            t,
            dq,
            eobs,
            first,
            across,
            n,
            r0,
            c0,
        ).q,
        kept_same(
            s.p,
            t.p,
            add_blocks(s, dq, eobs, first, across, n, r0, c0).p,
            add_blocks(t, dq, eobs, first, across, n, r0, c0).p,
        ),
    decreases n,
{
    if n > 0 {
        let k = n - 1;
        let u = add_blocks(s, dq, eobs, first, across, k, r0, c0);
        let v = add_blocks(t, dq, eobs, first, across, k, r0, c0);
        lemma_add_blocks(s, t, dq, eobs, first, across, k, r0, c0, h, w);
        let e = 4 * across;
        lemma_stays(s.p, t.p, u.p, v.p, 0, 0, 0, 0, r0, r0 + e, c0, c0 + e, h, w);
        assert(0 <= k / across < across);
        assert(0 <= k % across < across);
        let r = r0 + 4 * (k / across);
        let c = c0 + 4 * (k % across);
        let x = add_blocks(s, dq, eobs, first, across, n, r0, c0);
        let y = add_blocks(t, dq, eobs, first, across, n, r0, c0);
        lemma_add_block(u.p, v.p, u, v, dq, first + k, eobs[first + k] as int, r, c);
        lemma_kept(u.p, v.p, x.p, y.p, r, r + 4, c, c + 4);
        lemma_kept_twice(s.p, t.p, u.p, v.p, x.p, y.p);
    }
}

proof fn lemma_copy_right(p: Pic, q: Pic, r0: int, c0: int, r: int, n: int, h: int, w: int)
    requires
        is_rect(p, h, w),
        alike(p, q),
        0 <= r < h,
        0 <= c0,
        0 <= n <= 4,
        c0 + 20 <= w,
        same_on(p, q, r0 - 1, r0, c0 + 16, c0 + 20),
    ensures
        grown(
            p,
            q,
            copy_right(p, r0, c0, r, n),
            copy_right(q, r0, c0, r, n),
            r,
            r + 1,
            c0 + 16,
            c0 + 16 + n,
        ),
    decreases n,
{
    if n > 0 {
        let s = copy_right(p, r0, c0, r, n - 1);
        let t = copy_right(q, r0, c0, r, n - 1);
        lemma_copy_right(p, q, r0, c0, r, n - 1, h, w);
        let u = copy_right(p, r0, c0, r, n);
        let v = copy_right(q, r0, c0, r, n);
        assert(s[r].len() == w && t[r].len() == w) by {
            assert(p[r].len() == w);
        }
        assert(u == put(s, r, c0 + 16 + n - 1, p[r0 - 1][c0 + 16 + n - 1]));
        assert(v == put(t, r, c0 + 16 + n - 1, q[r0 - 1][c0 + 16 + n - 1]));
        assert(p[r0 - 1][c0 + 16 + n - 1] == q[r0 - 1][c0 + 16 + n - 1]);
        assert forall|i: int| 0 <= i < p.len() implies (#[trigger] p[i]).len() == u[i].len() by {
            assert(p[i].len() == s[i].len());
        }
        assert forall|i: int| 0 <= i < u.len() implies (#[trigger] u[i]).len() == v[i].len() by {
            assert(s[i].len() == t[i].len());
        }
        assert forall|i: int, j: int|
            0 <= i < p.len() && 0 <= j < p[i].len() && (p[i][j] == q[i][j] || (r <= i < r + 1 && c0
                + 16 <= j < c0 + 16 + n)) implies #[trigger] u[i][j] == v[i][j] by {
            if !(i == r && j == c0 + 16 + n - 1) {
                assert(s[i][j] == t[i][j]);
                assert(u[i][j] == s[i][j]);
                assert(v[i][j] == t[i][j]);
            }
        }
    }
}

/// Two pictures are the same where the subblocks of the macroblock at `(r0, c0)` look beyond it.
spec fn around_same(p: Pic, q: Pic, r0: int, c0: int) -> bool {
    &&& same_on(p, q, r0 - 1, r0, c0 - 1, c0 + 20)
    &&& same_on(p, q, r0, r0 + 16, c0 - 1, c0)
}

/// And so they are to the right of its fourth, eighth and twelfth rows.
spec fn right_same(p: Pic, q: Pic, r0: int, c0: int) -> bool {
    &&& same_on(p, q, r0 + 3, r0 + 4, c0 + 16, c0 + 20)
    &&& same_on(p, q, r0 + 7, r0 + 8, c0 + 16, c0 + 20)
    &&& same_on(p, q, r0 + 11, r0 + 12, c0 + 16, c0 + 20)
}

/// And in the first `n` subblocks.
spec fn first_same(p: Pic, q: Pic, r0: int, c0: int, n: int) -> bool {
    &&& same_on(p, q, r0, r0 + 4 * (n / 4), c0, c0 + 16)
    &&& same_on(p, q, r0 + 4 * (n / 4), r0 + 4 * (n / 4) + 4, c0, c0 + 4 * (n % 4))
}

proof fn lemma_around_stays(
    p: Pic,
    q: Pic,
    s: Pic,
    t: Pic,
    r0: int,
    c0: int,
    n: int,
    h: int,
    w: int,
)
    requires
        kept_same(p, q, s, t),
        is_rect(p, h, w),
        1 <= r0,
        1 <= c0,
        r0 + 16 <= h,
        c0 + 20 <= w,
        0 <= n <= 16,
    ensures
        around_same(p, q, r0, c0) ==> around_same(s, t, r0, c0),
        right_same(p, q, r0, c0) ==> right_same(s, t, r0, c0),
        first_same(p, q, r0, c0, n) ==> first_same(s, t, r0, c0, n),
{
    if around_same(p, q, r0, c0) {
        lemma_stays(p, q, s, t, 0, 0, 0, 0, r0 - 1, r0, c0 - 1, c0 + 20, h, w);
        lemma_stays(p, q, s, t, 0, 0, 0, 0, r0, r0 + 16, c0 - 1, c0, h, w);
    }
    if right_same(p, q, r0, c0) {
        lemma_stays(p, q, s, t, 0, 0, 0, 0, r0 + 3, r0 + 4, c0 + 16, c0 + 20, h, w);
        lemma_stays(p, q, s, t, 0, 0, 0, 0, r0 + 7, r0 + 8, c0 + 16, c0 + 20, h, w);
        lemma_stays(p, q, s, t, 0, 0, 0, 0, r0 + 11, r0 + 12, c0 + 16, c0 + 20, h, w);
    }
    if first_same(p, q, r0, c0, n) {
        let r = r0 + 4 * (n / 4);
        let c = c0 + 4 * (n % 4);
        lemma_stays(p, q, s, t, 0, 0, 0, 0, r0, r, c0, c0 + 16, h, w);
        if n < 16 {
            lemma_stays(p, q, s, t, 0, 0, 0, 0, r, r + 4, c0, c, h, w);
        }
    }
}

proof fn lemma_down_copy(p: Pic, q: Pic, r0: int, c0: int, h: int, w: int)
    requires
        is_rect(p, h, w),
        alike(p, q),
        1 <= r0,
        1 <= c0,
        r0 + 16 <= h,
        c0 + 20 <= w,
        around_same(p, q, r0, c0),
    ensures
        kept_same(p, q, down_copy(p, r0, c0), down_copy(q, r0, c0)),
        around_same(down_copy(p, r0, c0), down_copy(q, r0, c0), r0, c0),
        right_same(down_copy(p, r0, c0), down_copy(q, r0, c0), r0, c0),
        is_rect(down_copy(p, r0, c0), h, w),
{
    let (b0, b1) = (c0 + 16, c0 + 20);
    let (p1, q1) = (copy_right(p, r0, c0, r0 + 3, 4), copy_right(q, r0, c0, r0 + 3, 4));
    let (p2, q2) = (copy_right(p1, r0, c0, r0 + 7, 4), copy_right(q1, r0, c0, r0 + 7, 4));
    let (p3, q3) = (copy_right(p2, r0, c0, r0 + 11, 4), copy_right(q2, r0, c0, r0 + 11, 4));
    lemma_copy_right(p, q, r0, c0, r0 + 3, 4, h, w);
    lemma_kept(p, q, p1, q1, r0 + 3, r0 + 4, b0, b1);
    assert(same_on(p1, q1, r0 + 3, r0 + 4, b0, b1)) by {
        assert(p[r0 + 3].len() == w);
    }
    lemma_around_stays(p, q, p1, q1, r0, c0, 0, h, w);
    lemma_rect_stays(p, p1, h, w);
    lemma_copy_right(p1, q1, r0, c0, r0 + 7, 4, h, w);
    lemma_kept(p1, q1, p2, q2, r0 + 7, r0 + 8, b0, b1);
    assert(same_on(p2, q2, r0 + 7, r0 + 8, b0, b1)) by {
        assert(p1[r0 + 7].len() == w);
    }
    lemma_stays(p1, q1, p2, q2, 0, 0, 0, 0, r0 + 3, r0 + 4, b0, b1, h, w);
    lemma_around_stays(p1, q1, p2, q2, r0, c0, 0, h, w);
    lemma_rect_stays(p1, p2, h, w);
    lemma_copy_right(p2, q2, r0, c0, r0 + 11, 4, h, w);
    lemma_kept(p2, q2, p3, q3, r0 + 11, r0 + 12, b0, b1);
    assert(same_on(p3, q3, r0 + 11, r0 + 12, b0, b1)) by {
        assert(p2[r0 + 11].len() == w);
    }
    lemma_stays(p2, q2, p3, q3, 0, 0, 0, 0, r0 + 3, r0 + 4, b0, b1, h, w);
    lemma_stays(p2, q2, p3, q3, 0, 0, 0, 0, r0 + 7, r0 + 8, b0, b1, h, w);
    lemma_around_stays(p2, q2, p3, q3, r0, c0, 0, h, w);
    lemma_kept_twice(p, q, p1, q1, p2, q2);
    lemma_kept_twice(p, q, p2, q2, p3, q3);
    lemma_rect_stays(p, p3, h, w);
}

/// Predicting a subblock from pixels that are the same.
proof fn lemma_next_subblock(
    p: Pic,
    q: Pic,
    r0: int,
    c0: int,
    k: int,
    mode: BPredictionMode,
    h: int,
    w: int,
)
    requires
        is_rect(p, h, w),
        alike(p, q),
        1 <= r0,
        1 <= c0,
        r0 + 16 <= h,
        c0 + 20 <= w,
        0 <= k < 16,
        around_same(p, q, r0, c0),
        right_same(p, q, r0, c0),
        first_same(p, q, r0, c0, k),
    ensures
        ({
            let r = r0 + 4 * (k / 4);
            let c = c0 + 4 * (k % 4);
            let s = intra4(p, r, c, mode);
            let t = intra4(q, r, c, mode);
            &&& kept_same(p, q, s, t)
            &&& around_same(s, t, r0, c0)
            &&& right_same(s, t, r0, c0)
            &&& first_same(s, t, r0, c0, k + 1)
            &&& same_on(s, t, r, r + 4, c, c + 4)
            &&& is_rect(s, h, w)
        }),
{
    let r = r0 + 4 * (k / 4);
    let c = c0 + 4 * (k % 4);
    let s = intra4(p, r, c, mode);
    let t = intra4(q, r, c, mode);
    assert forall|i: int, j: int| r - 1 <= i < r && c - 1 <= j < c + 8 implies #[trigger] p[i][j]
        == q[i][j] by {
        if k / 4 == 0 {
            assert(i == r0 - 1);
        } else if j == c0 - 1 {
            assert(r0 <= i < r0 + 16);
        } else if j < c0 + 16 {
            assert(r0 <= i < r);
        } else {
            assert(k / 4 == 1 || k / 4 == 2 || k / 4 == 3);
        }
    }
    lemma_intra4(p, q, r, c, mode);
    lemma_kept(p, q, s, t, r, r + 4, c, c + 4);
    lemma_around_stays(p, q, s, t, r0, c0, k, h, w);
    lemma_rect_stays(p, s, h, w);
    assert forall|i: int, j: int| r <= i < r + 4 && c <= j < c + 4 implies #[trigger] s[i][j]
        == t[i][j] by {
        assert(p[i].len() == w);
    }
    let m = k + 1;
    let r1 = r0 + 4 * (m / 4);
    let c1 = c0 + 4 * (m % 4);
    if k % 4 == 3 {
        assert(m / 4 == k / 4 + 1 && m % 4 == 0);
        assert forall|i: int, j: int| r0 <= i < r1 && c0 <= j < c0 + 16 implies #[trigger] s[i][j]
            == t[i][j] by {
            if i >= r && j >= c {
            }
        }
    } else {
        assert(m / 4 == k / 4 && m % 4 == k % 4 + 1);
    }
}

proof fn lemma_subblocks(
    s: Residual,
    t: Residual,
    dq: [i16; 16],
    eobs: [i8; 25],
    bmi: [BModeInfo; 16],
    r0: int,
    c0: int,
    n: int,
    h: int,
    w: int,
)
    requires
        s.q == t.q,
        is_rect(s.p, h, w),
        alike(s.p, t.p),
        1 <= r0,
        1 <= c0,
        r0 + 16 <= h,
        c0 + 20 <= w,
        0 <= n <= 16,
        around_same(s.p, t.p, r0, c0),
        right_same(s.p, t.p, r0, c0),
    ensures
        ({
            let x = subblocks(s, dq, eobs, bmi, r0, c0, n);
            let y = subblocks(t, dq, eobs, bmi, r0, c0, n);
            &&& x.q == y.q
            &&& kept_same(s.p, t.p, x.p, y.p)
            &&& around_same(x.p, y.p, r0, c0)
            &&& right_same(x.p, y.p, r0, c0)
            &&& first_same(x.p, y.p, r0, c0, n)
            &&& is_rect(x.p, h, w)
        }),
    decreases n,
{
    if n > 0 {
        let k = n - 1;
        let u = subblocks(s, dq, eobs, bmi, r0, c0, k);
        let v = subblocks(t, dq, eobs, bmi, r0, c0, k);
        lemma_subblocks(s, t, dq, eobs, bmi, r0, c0, k, h, w);
        let r = r0 + 4 * (k / 4);
        let c = c0 + 4 * (k % 4);
        let mode = intra_b(bmi[k]);
        let u1 = Residual { p: intra4(u.p, r, c, mode), ..u };
        let v1 = Residual { p: intra4(v.p, r, c, mode), ..v };
        lemma_next_subblock(u.p, v.p, r0, c0, k, mode, h, w);
        lemma_kept_twice(s.p, t.p, u.p, v.p, u1.p, v1.p);
        if eobs[k] != 0 {
            let x = add_block(u1, dq, k, eobs[k] as int, r, c);
            let y = add_block(v1, dq, k, eobs[k] as int, r, c);
            lemma_add_block(u1.p, v1.p, u1, v1, dq, k, eobs[k] as int, r, c);
            lemma_kept(u1.p, v1.p, x.p, y.p, r, r + 4, c, c + 4);
            lemma_around_stays(u1.p, v1.p, x.p, y.p, r0, c0, n, h, w);
            lemma_kept_twice(s.p, t.p, u1.p, v1.p, x.p, y.p);
            lemma_rect_stays(u1.p, x.p, h, w);
        }
    }
}

/// The planes of two pictures are of the same size.
pub open spec fn yuv_alike(d: Yuv, e: Yuv) -> bool {
    &&& alike(d.y, e.y)
    &&& alike(d.u, e.u)
    &&& alike(d.v, e.v)
}

/// `d` and `e` have become `f` and `g`, which are the same wherever `d` and `e` were.
pub open spec fn yuv_kept(d: Yuv, e: Yuv, f: Yuv, g: Yuv) -> bool {
    &&& kept_same(d.y, e.y, f.y, g.y)
    &&& kept_same(d.u, e.u, f.u, g.u)
    &&& kept_same(d.v, e.v, f.v, g.v)
}

/// Two pictures are the same in the macroblock in row `r` and column `c`.
spec fn block_same(d: Yuv, e: Yuv, r: int, c: int) -> bool {
    let (yr, yc, cr, cc) = (luma_at(r), luma_at(c), chroma_at(r), chroma_at(c));
    &&& same_on(d.y, e.y, yr, yr + 16, yc, yc + 16)
    &&& same_on(d.u, e.u, cr, cr + 8, cc, cc + 8)
    &&& same_on(d.v, e.v, cr, cr + 8, cc, cc + 8)
}

/// Two pictures are the same in the lines above macroblock row `r`, from the pixels before the
/// frame on.
spec fn rows_same(d: Yuv, e: Yuv, r: int, cols: int) -> bool {
    let (yr, cr) = (luma_at(r), chroma_at(r));
    &&& same_on(d.y, e.y, 31, yr, 31, luma_at(cols))
    &&& same_on(d.y, e.y, yr - 1, yr, luma_at(cols), luma_at(cols) + 4)
    &&& same_on(d.u, e.u, 15, cr, 15, chroma_at(cols))
    &&& same_on(d.v, e.v, 15, cr, 15, chroma_at(cols))
}

/// And in the first `c` macroblocks of row `r`.
spec fn done_same(d: Yuv, e: Yuv, r: int, c: int, cols: int) -> bool {
    let (yr, yc, cr, cc) = (luma_at(r), luma_at(c), chroma_at(r), chroma_at(c));
    &&& rows_same(d, e, r, cols)
    &&& same_on(d.y, e.y, yr, yr + 16, 31, yc)
    &&& same_on(d.u, e.u, cr, cr + 8, 15, cc)
    &&& same_on(d.v, e.v, cr, cr + 8, 15, cc)
}

proof fn lemma_yuv_twice(d: Yuv, e: Yuv, f: Yuv, g: Yuv, m: Yuv, n: Yuv)
    requires
        yuv_kept(d, e, f, g),
        yuv_kept(f, g, m, n),
    ensures
        yuv_kept(d, e, m, n),
{
    lemma_kept_twice(d.y, e.y, f.y, g.y, m.y, n.y);
    lemma_kept_twice(d.u, e.u, f.u, g.u, m.u, n.u);
    lemma_kept_twice(d.v, e.v, f.v, g.v, m.v, n.v);
}

proof fn lemma_planes_stay(d: Yuv, e: Yuv, f: Yuv, g: Yuv, rows: int, cols: int, ys: int, cs: int)
    requires
        planes_hold(d, rows, cols, ys, cs),
        yuv_kept(d, e, f, g),
    ensures
        planes_hold(f, rows, cols, ys, cs),
        yuv_alike(f, g),
{
    lemma_rect_stays(d.y, f.y, 16 * rows + 64, ys);
    lemma_rect_stays(d.u, f.u, 8 * rows + 32, cs);
    lemma_rect_stays(d.v, f.v, 8 * rows + 32, cs);
}

proof fn lemma_block_stays(
    d: Yuv,
    e: Yuv,
    f: Yuv,
    g: Yuv,
    r: int,
    c: int,
    rows: int,
    cols: int,
    ys: int,
    cs: int,
)
    requires
        planes_hold(d, rows, cols, ys, cs),
        yuv_kept(d, e, f, g),
        0 <= r < rows,
        0 <= c < cols,
        block_same(d, e, r, c),
    ensures
        block_same(f, g, r, c),
{
    let (yr, yc, cr, cc) = (luma_at(r), luma_at(c), chroma_at(r), chroma_at(c));
    let (yh, ch) = (16 * rows + 64, 8 * rows + 32);
    lemma_stays(d.y, e.y, f.y, g.y, 0, 0, 0, 0, yr, yr + 16, yc, yc + 16, yh, ys);
    lemma_stays(d.u, e.u, f.u, g.u, 0, 0, 0, 0, cr, cr + 8, cc, cc + 8, ch, cs);
    lemma_stays(d.v, e.v, f.v, g.v, 0, 0, 0, 0, cr, cr + 8, cc, cc + 8, ch, cs);
}

proof fn lemma_rows_stay(
    d: Yuv,
    e: Yuv,
    f: Yuv,
    g: Yuv,
    r: int,
    rows: int,
    cols: int,
    ys: int,
    cs: int,
)
    requires
        planes_hold(d, rows, cols, ys, cs),
        yuv_kept(d, e, f, g),
        0 <= r <= rows,
        1 <= cols,
        rows_same(d, e, r, cols),
    ensures
        rows_same(f, g, r, cols),
{
    let (yr, cr) = (luma_at(r), chroma_at(r));
    let (yc, cc) = (luma_at(cols), chroma_at(cols));
    let (yh, ch) = (16 * rows + 64, 8 * rows + 32);
    lemma_stays(d.y, e.y, f.y, g.y, 0, 0, 0, 0, 31, yr, 31, yc, yh, ys);
    lemma_stays(d.y, e.y, f.y, g.y, 0, 0, 0, 0, yr - 1, yr, yc, yc + 4, yh, ys);
    lemma_stays(d.u, e.u, f.u, g.u, 0, 0, 0, 0, 15, cr, 15, cc, ch, cs);
    lemma_stays(d.v, e.v, f.v, g.v, 0, 0, 0, 0, 15, cr, 15, cc, ch, cs);
}

proof fn lemma_done_stays(
    d: Yuv,
    e: Yuv,
    f: Yuv,
    g: Yuv,
    r: int,
    c: int,
    rows: int,
    cols: int,
    ys: int,
    cs: int,
)
    requires
        planes_hold(d, rows, cols, ys, cs),
        yuv_kept(d, e, f, g),
        0 <= r < rows,
        0 <= c <= cols,
        1 <= cols,
        done_same(d, e, r, c, cols),
    ensures
        done_same(f, g, r, c, cols),
{
    let (yr, yc, cr, cc) = (luma_at(r), luma_at(c), chroma_at(r), chroma_at(c));
    let (yh, ch) = (16 * rows + 64, 8 * rows + 32);
    lemma_rows_stay(d, e, f, g, r, rows, cols, ys, cs);
    lemma_stays(d.y, e.y, f.y, g.y, 0, 0, 0, 0, yr, yr + 16, 31, yc, yh, ys);
    lemma_stays(d.u, e.u, f.u, g.u, 0, 0, 0, 0, cr, cr + 8, 15, cc, ch, cs);
    lemma_stays(d.v, e.v, f.v, g.v, 0, 0, 0, 0, cr, cr + 8, 15, cc, ch, cs);
}

/// Pixels inside a grown rectangle are the same.
proof fn lemma_rect_same(
    p: Pic,
    q: Pic,
    s: Pic,
    t: Pic,
    i0: int,
    i1: int,
    j0: int,
    j1: int,
    h: int,
    w: int,
)
    requires
        grown(p, q, s, t, i0, i1, j0, j1),
        is_rect(p, h, w),
        0 <= i0,
        i1 <= h,
        0 <= j0,
        j1 <= w,
    ensures
        same_on(s, t, i0, i1, j0, j1),
        kept_same(p, q, s, t),
{
    assert forall|i: int, j: int| i0 <= i < i1 && j0 <= j < j1 implies #[trigger] s[i][j]
        == t[i][j] by {
        assert(p[i].len() == w);
    }
}

proof fn lemma_mb_intra(
    mb: Macroblockd,
    mi: ModeInfo,
    d: Yuv,
    e: Yuv,
    r: int,
    c: int,
    rows: int,
    cols: int,
    ys: int,
    cs: int,
)
    requires
        planes_hold(d, rows, cols, ys, cs),
        yuv_alike(d, e),
        0 <= r < rows,
        0 <= c < cols,
        done_same(d, e, r, c, cols),
    ensures
        mb_intra(mb, mi, d, r, c).0 == mb_intra(mb, mi, e, r, c).0,
        yuv_kept(d, e, mb_intra(mb, mi, d, r, c).1, mb_intra(mb, mi, e, r, c).1),
        block_same(mb_intra(mb, mi, d, r, c).1, mb_intra(mb, mi, e, r, c).1, r, c),
{
    reveal(mb_intra);
    let (f, g) = (mb_intra(mb, mi, d, r, c).1, mb_intra(mb, mi, e, r, c).1);
    let (yr, yc, cr, cc) = (luma_at(r), luma_at(c), chroma_at(r), chroma_at(c));
    let (yh, ch) = (16 * rows + 64, 8 * rows + 32);
    let (up, left) = (r > 0, c > 0);
    lemma_square(d.u, e.u, cr, cc, 8, mi.mbmi.uv_mode, up, left);
    lemma_square(d.v, e.v, cr, cc, 8, mi.mbmi.uv_mode, up, left);
    lemma_rect_same(d.u, e.u, f.u, g.u, cr, cr + 8, cc, cc + 8, ch, cs);
    lemma_rect_same(d.v, e.v, f.v, g.v, cr, cr + 8, cc, cc + 8, ch, cs);
    if mi.mbmi.mode != MbPredictionMode::BPred {
        lemma_square(d.y, e.y, yr, yc, 16, mi.mbmi.mode, up, left);
        lemma_rect_same(d.y, e.y, f.y, g.y, yr, yr + 16, yc, yc + 16, yh, ys);
    } else {
        let eobs = eobs_of(mb, mi.mbmi.mb_skip_coeff);
        let s = Residual { p: down_copy(d.y, yr, yc), q: mb.qcoeff };
        let t = Residual { p: down_copy(e.y, yr, yc), q: mb.qcoeff };
        assert(around_same(d.y, e.y, yr, yc));
        lemma_down_copy(d.y, e.y, yr, yc, yh, ys);
        lemma_subblocks(s, t, mb.dequant_y1, eobs, mi.bmi, yr, yc, 16, yh, ys);
        lemma_kept_twice(d.y, e.y, s.p, t.p, f.y, g.y);
    }
}

proof fn lemma_mb_residual(
    mb: Macroblockd,
    mi: ModeInfo,
    d: Yuv,
    e: Yuv,
    r: int,
    c: int,
    rows: int,
    cols: int,
    ys: int,
    cs: int,
)
    requires
        planes_hold(d, rows, cols, ys, cs),
        yuv_alike(d, e),
        0 <= r < rows,
        0 <= c < cols,
        block_same(d, e, r, c),
    ensures
        mb_residual(mb, mi, d, r, c).0 == mb_residual(mb, mi, e, r, c).0,
        yuv_kept(d, e, mb_residual(mb, mi, d, r, c).1, mb_residual(mb, mi, e, r, c).1),
{
    reveal(mb_residual);
    let (yr, yc, cr, cc) = (luma_at(r), luma_at(c), chroma_at(r), chroma_at(c));
    let (yh, ch) = (16 * rows + 64, 8 * rows + 32);
    if !mi.mbmi.mb_skip_coeff {
        let q2 = second_order(mb);
        lemma_add_blocks(
            Residual { p: d.y, q: q2 },
            Residual { p: e.y, q: q2 },
            mb.dequant_y1_dc,
            mb.eobs,
            0,
            4,
            16,
            yr,
            yc,
            yh,
            ys,
        );
        lemma_add_blocks(
            Residual { p: d.y, q: mb.qcoeff },
            Residual { p: e.y, q: mb.qcoeff },
            mb.dequant_y1,
            mb.eobs,
            0,
            4,
            16,
            yr,
            yc,
            yh,
            ys,
        );
        let y = if mi.mbmi.mode != MbPredictionMode::BPred {
            luma_residual(mb, mi.mbmi.mode, d, r, c)
        } else {
            Residual { p: d.y, q: mb.qcoeff }
        };
        let us = Residual { p: d.u, q: y.q };
        let ut = Residual { p: e.u, q: y.q };
        lemma_add_blocks(us, ut, mb.dequant_uv, mb.eobs, 16, 2, 4, cr, cc, ch, cs);
        let u = add_blocks(us, mb.dequant_uv, mb.eobs, 16, 2, 4, cr, cc);
        lemma_add_blocks(
            Residual { p: d.v, q: u.q },
            Residual { p: e.v, q: u.q },
            mb.dequant_uv,
            mb.eobs,
            20,
            2,
            4,
            cr,
            cc,
            ch,
            cs,
        );
    }
}

/// A macroblock that is predicted from its own frame.
proof fn lemma_mb_decode(
    s: MbState,
    e: Yuv,
    env: MbEnv,
    refs: RefPics,
    other: RefPics,
    r: int,
    c: int,
    rows: int,
    cols: int,
    ys: int,
    cs: int,
)
    requires
        planes_hold(s.d, rows, cols, ys, cs),
        yuv_alike(s.d, e),
        0 <= r < rows,
        0 <= c < cols,
        s.mi.mbmi.ref_frame == MvReferenceFrame::Intra,
        done_same(s.d, e, r, c, cols),
    ensures
        ({
            let x = mb_decode(s, env, refs, r, c, rows, cols);
            let y = mb_decode(MbState { d: e, ..s }, env, other, r, c, rows, cols);
            &&& y == (MbState { d: y.d, ..x })
            &&& x.mi.mbmi.ref_frame == MvReferenceFrame::Intra
            &&& yuv_kept(s.d, e, x.d, y.d)
            &&& done_same(x.d, y.d, r, c + 1, cols)
        }),
{
    reveal(mb_decode);
    reveal(mb_tokens);
    let t = MbState { d: e, ..s };
    let s1 = mb_tokens(s, env.fc);
    let t1 = mb_tokens(t, env.fc);
    assert(t1 == (MbState { d: e, ..s1 }));
    let mb2 = mb_steps(s1.mb, s1.mi, env);
    let (mb3, d3) = mb_predict(mb2, s1.mi, s1.d, refs, r, c, rows, cols);
    let (mb3e, e3) = mb_predict(mb2, s1.mi, e, other, r, c, rows, cols);
    lemma_mb_intra(mb2, s1.mi, s.d, e, r, c, rows, cols, ys, cs);
    lemma_planes_stay(s.d, e, d3, e3, rows, cols, ys, cs);
    lemma_mb_residual(mb3, s1.mi, d3, e3, r, c, rows, cols, ys, cs);
    let d4 = mb_residual(mb3, s1.mi, d3, r, c).1;
    let e4 = mb_residual(mb3, s1.mi, e3, r, c).1;
    lemma_yuv_twice(s.d, e, d3, e3, d4, e4);
    lemma_block_stays(d3, e3, d4, e4, r, c, rows, cols, ys, cs);
    lemma_done_stays(s.d, e, d4, e4, r, c, rows, cols, ys, cs);
}

proof fn lemma_normal_h_same(
    p: Pic,
    q: Pic,
    r: int,
    c0: int,
    blimit: u8,
    limit: u8,
    thresh: u8,
    n: int,
)
    requires
        alike(p, q),
        same_on(p, q, r - 4, r + 4, c0, c0 + n),
    ensures
        kept_same(p, q, normal_h(p, r, c0, blimit, limit, thresh, n), normal_h(q, r, c0, blimit, limit, thresh, n)),
{
    reveal(normal_h);
    let s = normal_h(p, r, c0, blimit, limit, thresh, n);
    let t = normal_h(q, r, c0, blimit, limit, thresh, n);
    assert forall|i: int, j: int|
        0 <= i < p.len() && 0 <= j < p[i].len() && p[i][j] == q[i][j] implies #[trigger] s[i][j]
        == t[i][j] by {
        assert(p[i].len() == q[i].len());
        if c0 <= j < c0 + n {
            assert(taps_down(p, r, j) =~= taps_down(q, r, j));
        }
    }
}

proof fn lemma_normal_v_same(
    p: Pic,
    q: Pic,
    r0: int,
    c: int,
    blimit: u8,
    limit: u8,
    thresh: u8,
    n: int,
)
    requires
        alike(p, q),
        same_on(p, q, r0, r0 + n, c - 4, c + 4),
    ensures
        kept_same(p, q, normal_v(p, r0, c, blimit, limit, thresh, n), normal_v(q, r0, c, blimit, limit, thresh, n)),
{
    reveal(normal_v);
    let s = normal_v(p, r0, c, blimit, limit, thresh, n);
    let t = normal_v(q, r0, c, blimit, limit, thresh, n);
    assert forall|i: int, j: int|
        0 <= i < p.len() && 0 <= j < p[i].len() && p[i][j] == q[i][j] implies #[trigger] s[i][j]
        == t[i][j] by {
        assert(p[i].len() == q[i].len());
        if r0 <= i < r0 + n {
            assert(taps_across(p, i, c) =~= taps_across(q, i, c));
        }
    }
}

proof fn lemma_mb_h_same(p: Pic, q: Pic, r: int, c0: int, blimit: u8, limit: u8, thresh: u8, n: int)
    requires
        alike(p, q),
        same_on(p, q, r - 4, r + 4, c0, c0 + n),
    ensures
        kept_same(p, q, mb_h(p, r, c0, blimit, limit, thresh, n), mb_h(q, r, c0, blimit, limit, thresh, n)),
{
    reveal(mb_h);
    let s = mb_h(p, r, c0, blimit, limit, thresh, n);
    let t = mb_h(q, r, c0, blimit, limit, thresh, n);
    assert forall|i: int, j: int|
        0 <= i < p.len() && 0 <= j < p[i].len() && p[i][j] == q[i][j] implies #[trigger] s[i][j]
        == t[i][j] by {
        assert(p[i].len() == q[i].len());
        if c0 <= j < c0 + n {
            assert(taps_down(p, r, j) =~= taps_down(q, r, j));
        }
    }
}

proof fn lemma_mb_v_same(p: Pic, q: Pic, r0: int, c: int, blimit: u8, limit: u8, thresh: u8, n: int)
    requires
        alike(p, q),
        same_on(p, q, r0, r0 + n, c - 4, c + 4),
    ensures
        kept_same(p, q, mb_v(p, r0, c, blimit, limit, thresh, n), mb_v(q, r0, c, blimit, limit, thresh, n)),
{
    reveal(mb_v);
    let s = mb_v(p, r0, c, blimit, limit, thresh, n);
    let t = mb_v(q, r0, c, blimit, limit, thresh, n);
    assert forall|i: int, j: int|
        0 <= i < p.len() && 0 <= j < p[i].len() && p[i][j] == q[i][j] implies #[trigger] s[i][j]
        == t[i][j] by {
        assert(p[i].len() == q[i].len());
        if r0 <= i < r0 + n {
            assert(taps_across(p, i, c) =~= taps_across(q, i, c));
        }
    }
}

proof fn lemma_simple_h_same(p: Pic, q: Pic, r: int, c0: int, blimit: u8, n: int)
    requires
        alike(p, q),
        same_on(p, q, r - 4, r + 4, c0, c0 + n),
    ensures
        kept_same(p, q, simple_h(p, r, c0, blimit, n), simple_h(q, r, c0, blimit, n)),
{
    reveal(simple_h);
    let s = simple_h(p, r, c0, blimit, n);
    let t = simple_h(q, r, c0, blimit, n);
    assert forall|i: int, j: int|
        0 <= i < p.len() && 0 <= j < p[i].len() && p[i][j] == q[i][j] implies #[trigger] s[i][j]
        == t[i][j] by {
        assert(p[i].len() == q[i].len());
        if c0 <= j < c0 + n {
            assert(taps_down(p, r, j) =~= taps_down(q, r, j));
        }
    }
}

proof fn lemma_simple_v_same(p: Pic, q: Pic, r0: int, c: int, blimit: u8, n: int)
    requires
        alike(p, q),
        same_on(p, q, r0, r0 + n, c - 4, c + 4),
    ensures
        kept_same(p, q, simple_v(p, r0, c, blimit, n), simple_v(q, r0, c, blimit, n)),
{
    reveal(simple_v);
    let s = simple_v(p, r0, c, blimit, n);
    let t = simple_v(q, r0, c, blimit, n);
    assert forall|i: int, j: int|
        0 <= i < p.len() && 0 <= j < p[i].len() && p[i][j] == q[i][j] implies #[trigger] s[i][j]
        == t[i][j] by {
        assert(p[i].len() == q[i].len());
        if r0 <= i < r0 + n {
            assert(taps_across(p, i, c) =~= taps_across(q, i, c));
        }
    }
}

/// Two pictures are the same in the first `n` rows of macroblocks.
pub open spec fn frame_same(d: Yuv, e: Yuv, n: int, cols: int) -> bool {
    &&& same_on(d.y, e.y, 32, luma_at(n), 32, luma_at(cols))
    &&& same_on(d.u, e.u, 16, chroma_at(n), 16, chroma_at(cols))
    &&& same_on(d.v, e.v, 16, chroma_at(n), 16, chroma_at(cols))
}

proof fn lemma_frame_stays(
    d: Yuv,
    e: Yuv,
    f: Yuv,
    g: Yuv,
    n: int,
    rows: int,
    cols: int,
    ys: int,
    cs: int,
)
    requires
        planes_hold(d, rows, cols, ys, cs),
        yuv_kept(d, e, f, g),
        0 <= n <= rows,
        1 <= cols,
        frame_same(d, e, n, cols),
    ensures
        frame_same(f, g, n, cols),
        planes_hold(f, rows, cols, ys, cs),
        yuv_alike(f, g),
{
    let (yr, cr) = (luma_at(n), chroma_at(n));
    let (yc, cc) = (luma_at(cols), chroma_at(cols));
    lemma_planes_stay(d, e, f, g, rows, cols, ys, cs);
    lemma_stays(d.y, e.y, f.y, g.y, 0, 0, 0, 0, 32, yr, 32, yc, 16 * rows + 64, ys);
    lemma_stays(d.u, e.u, f.u, g.u, 0, 0, 0, 0, 16, cr, 16, cc, 8 * rows + 32, cs);
    lemma_stays(d.v, e.v, f.v, g.v, 0, 0, 0, 0, 16, cr, 16, cc, 8 * rows + 32, cs);
}

/// What the steps of the loop filter need of two pictures, and keep.
spec fn filterable(d: Yuv, e: Yuv, r: int, rows: int, cols: int, ys: int, cs: int) -> bool {
    &&& planes_hold(d, rows, cols, ys, cs)
    &&& yuv_alike(d, e)
    &&& 0 <= r < rows
    &&& 1 <= cols
    &&& frame_same(d, e, r + 1, cols)
}

proof fn lemma_filter_step(
    d: Yuv,
    e: Yuv,
    f: Yuv,
    g: Yuv,
    m: Yuv,
    n: Yuv,
    r: int,
    rows: int,
    cols: int,
    ys: int,
    cs: int,
)
    requires
        filterable(f, g, r, rows, cols, ys, cs),
        yuv_kept(d, e, f, g),
        yuv_kept(f, g, m, n),
    ensures
        filterable(m, n, r, rows, cols, ys, cs),
        yuv_kept(d, e, m, n),
{
    lemma_frame_stays(f, g, m, n, r + 1, rows, cols, ys, cs);
    lemma_yuv_twice(d, e, f, g, m, n);
}

proof fn lemma_mbv_same(
    d: Yuv,
    e: Yuv,
    r: int,
    c: int,
    l: LoopFilterInfo,
    rows: int,
    cols: int,
    ys: int,
    cs: int,
)
    requires
        filterable(d, e, r, rows, cols, ys, cs),
        0 < c < cols,
    ensures
        ({
            let (yr, yc, cr, cc) = (luma_at(r), luma_at(c), chroma_at(r), chroma_at(c));
            yuv_kept(d, e, mbv(d, yr, yc, cr, cc, l), mbv(e, yr, yc, cr, cc, l))
        }),
{
    let (yr, yc, cr, cc) = (luma_at(r), luma_at(c), chroma_at(r), chroma_at(c));
    lemma_mb_v_same(d.y, e.y, yr, yc, l.mblim, l.lim, l.hev_thr, 16);
    lemma_mb_v_same(d.u, e.u, cr, cc, l.mblim, l.lim, l.hev_thr, 8);
    lemma_mb_v_same(d.v, e.v, cr, cc, l.mblim, l.lim, l.hev_thr, 8);
}

proof fn lemma_mbh_same(
    d: Yuv,
    e: Yuv,
    r: int,
    c: int,
    l: LoopFilterInfo,
    rows: int,
    cols: int,
    ys: int,
    cs: int,
)
    requires
        filterable(d, e, r, rows, cols, ys, cs),
        0 < r,
        0 <= c < cols,
    ensures
        ({
            let (yr, yc, cr, cc) = (luma_at(r), luma_at(c), chroma_at(r), chroma_at(c));
            yuv_kept(d, e, mbh(d, yr, yc, cr, cc, l), mbh(e, yr, yc, cr, cc, l))
        }),
{
    let (yr, yc, cr, cc) = (luma_at(r), luma_at(c), chroma_at(r), chroma_at(c));
    lemma_mb_h_same(d.y, e.y, yr, yc, l.mblim, l.lim, l.hev_thr, 16);
    lemma_mb_h_same(d.u, e.u, cr, cc, l.mblim, l.lim, l.hev_thr, 8);
    lemma_mb_h_same(d.v, e.v, cr, cc, l.mblim, l.lim, l.hev_thr, 8);
}

proof fn lemma_bv_same(
    d: Yuv,
    e: Yuv,
    r: int,
    c: int,
    l: LoopFilterInfo,
    rows: int,
    cols: int,
    ys: int,
    cs: int,
)
    requires
        filterable(d, e, r, rows, cols, ys, cs),
        0 <= c < cols,
    ensures
        ({
            let (yr, yc, cr, cc) = (luma_at(r), luma_at(c), chroma_at(r), chroma_at(c));
            yuv_kept(d, e, bv(d, yr, yc, cr, cc, l), bv(e, yr, yc, cr, cc, l))
        }),
{
    let (yr, yc, cr, cc) = (luma_at(r), luma_at(c), chroma_at(r), chroma_at(c));
    let h = 16 * rows + 64;
    let d1 = normal_v(d.y, yr, yc + 4, l.blim, l.lim, l.hev_thr, 16);
    let e1 = normal_v(e.y, yr, yc + 4, l.blim, l.lim, l.hev_thr, 16);
    let d2 = normal_v(d1, yr, yc + 8, l.blim, l.lim, l.hev_thr, 16);
    let e2 = normal_v(e1, yr, yc + 8, l.blim, l.lim, l.hev_thr, 16);
    let d3 = normal_v(d2, yr, yc + 12, l.blim, l.lim, l.hev_thr, 16);
    let e3 = normal_v(e2, yr, yc + 12, l.blim, l.lim, l.hev_thr, 16);
    lemma_normal_v_same(d.y, e.y, yr, yc + 4, l.blim, l.lim, l.hev_thr, 16);
    lemma_stays(d.y, e.y, d1, e1, 0, 0, 0, 0, 32, yr + 16, 32, luma_at(cols), h, ys);
    lemma_rect_stays(d.y, d1, h, ys);
    lemma_normal_v_same(d1, e1, yr, yc + 8, l.blim, l.lim, l.hev_thr, 16);
    lemma_stays(d1, e1, d2, e2, 0, 0, 0, 0, 32, yr + 16, 32, luma_at(cols), h, ys);
    lemma_normal_v_same(d2, e2, yr, yc + 12, l.blim, l.lim, l.hev_thr, 16);
    lemma_kept_twice(d.y, e.y, d1, e1, d2, e2);
    lemma_kept_twice(d.y, e.y, d2, e2, d3, e3);
    lemma_normal_v_same(d.u, e.u, cr, cc + 4, l.blim, l.lim, l.hev_thr, 8);
    lemma_normal_v_same(d.v, e.v, cr, cc + 4, l.blim, l.lim, l.hev_thr, 8);
}

proof fn lemma_bh_same(
    d: Yuv,
    e: Yuv,
    r: int,
    c: int,
    l: LoopFilterInfo,
    rows: int,
    cols: int,
    ys: int,
    cs: int,
)
    requires
        filterable(d, e, r, rows, cols, ys, cs),
        0 <= c < cols,
    ensures
        ({
            let (yr, yc, cr, cc) = (luma_at(r), luma_at(c), chroma_at(r), chroma_at(c));
            yuv_kept(d, e, bh(d, yr, yc, cr, cc, l), bh(e, yr, yc, cr, cc, l))
        }),
{
    let (yr, yc, cr, cc) = (luma_at(r), luma_at(c), chroma_at(r), chroma_at(c));
    let h = 16 * rows + 64;
    let d1 = normal_h(d.y, yr + 4, yc, l.blim, l.lim, l.hev_thr, 16);
    let e1 = normal_h(e.y, yr + 4, yc, l.blim, l.lim, l.hev_thr, 16);
    let d2 = normal_h(d1, yr + 8, yc, l.blim, l.lim, l.hev_thr, 16);
    let e2 = normal_h(e1, yr + 8, yc, l.blim, l.lim, l.hev_thr, 16);
    let d3 = normal_h(d2, yr + 12, yc, l.blim, l.lim, l.hev_thr, 16);
    let e3 = normal_h(e2, yr + 12, yc, l.blim, l.lim, l.hev_thr, 16);
    lemma_normal_h_same(d.y, e.y, yr + 4, yc, l.blim, l.lim, l.hev_thr, 16);
    lemma_stays(d.y, e.y, d1, e1, 0, 0, 0, 0, 32, yr + 16, 32, luma_at(cols), h, ys);
    lemma_rect_stays(d.y, d1, h, ys);
    lemma_normal_h_same(d1, e1, yr + 8, yc, l.blim, l.lim, l.hev_thr, 16);
    lemma_stays(d1, e1, d2, e2, 0, 0, 0, 0, 32, yr + 16, 32, luma_at(cols), h, ys);
    lemma_normal_h_same(d2, e2, yr + 12, yc, l.blim, l.lim, l.hev_thr, 16);
    lemma_kept_twice(d.y, e.y, d1, e1, d2, e2);
    lemma_kept_twice(d.y, e.y, d2, e2, d3, e3);
    lemma_normal_h_same(d.u, e.u, cr + 4, cc, l.blim, l.lim, l.hev_thr, 8);
    lemma_normal_h_same(d.v, e.v, cr + 4, cc, l.blim, l.lim, l.hev_thr, 8);
}

proof fn lemma_yuv_self(d: Yuv, e: Yuv)
    requires
        yuv_alike(d, e),
    ensures
        yuv_kept(d, e, d, e),
{
}

proof fn lemma_lf_mb_same(
    l: LoopFilterInfoN,
    ft: FrameType,
    mi: ModeInfo,
    d: Yuv,
    e: Yuv,
    r: int,
    c: int,
    rows: int,
    cols: int,
    ys: int,
    cs: int,
)
    requires
        filterable(d, e, r, rows, cols, ys, cs),
        0 <= c < cols,
    ensures
        yuv_kept(d, e, lf_mb(l, ft, mi, d, r, c), lf_mb(l, ft, mi, e, r, c)),
        filterable(
            lf_mb(l, ft, mi, d, r, c),
            lf_mb(l, ft, mi, e, r, c),
            r,
            rows,
            cols,
            ys,
            cs,
        ),
{
    let level = mb_level(l, mi);
    lemma_yuv_self(d, e);
    if level != 0 {
        let (yr, yc, cr, cc) = (luma_at(r), luma_at(c), chroma_at(r), chroma_at(c));
        let lim = limits_at(l, ft, level);
        let (d1, e1) = if c > 0 {
            lemma_mbv_same(d, e, r, c, lim, rows, cols, ys, cs);
            (mbv(d, yr, yc, cr, cc, lim), mbv(e, yr, yc, cr, cc, lim))
        } else {
            (d, e)
        };
        lemma_filter_step(d, e, d, e, d1, e1, r, rows, cols, ys, cs);
        lemma_yuv_self(d1, e1);
        let (d2, e2) = if !skips_inner(mi) {
            lemma_bv_same(d1, e1, r, c, lim, rows, cols, ys, cs);
            (bv(d1, yr, yc, cr, cc, lim), bv(e1, yr, yc, cr, cc, lim))
        } else {
            (d1, e1)
        };
        lemma_filter_step(d, e, d1, e1, d2, e2, r, rows, cols, ys, cs);
        lemma_yuv_self(d2, e2);
        let (d3, e3) = if r > 0 {
            lemma_mbh_same(d2, e2, r, c, lim, rows, cols, ys, cs);
            (mbh(d2, yr, yc, cr, cc, lim), mbh(e2, yr, yc, cr, cc, lim))
        } else {
            (d2, e2)
        };
        lemma_filter_step(d, e, d2, e2, d3, e3, r, rows, cols, ys, cs);
        lemma_yuv_self(d3, e3);
        let (d4, e4) = if !skips_inner(mi) {
            lemma_bh_same(d3, e3, r, c, lim, rows, cols, ys, cs);
            (bh(d3, yr, yc, cr, cc, lim), bh(e3, yr, yc, cr, cc, lim))
        } else {
            (d3, e3)
        };
        lemma_filter_step(d, e, d3, e3, d4, e4, r, rows, cols, ys, cs);
    }
}

proof fn lemma_lf_row_same(
    l: LoopFilterInfoN,
    ft: FrameType,
    g: ModeGrid,
    d: Yuv,
    e: Yuv,
    r: int,
    n: int,
    rows: int,
    cols: int,
    ys: int,
    cs: int,
)
    requires
        filterable(d, e, r, rows, cols, ys, cs),
        n <= cols,
    ensures
        yuv_kept(d, e, lf_row(l, ft, g, d, r, n), lf_row(l, ft, g, e, r, n)),
        filterable(
            lf_row(l, ft, g, d, r, n),
            lf_row(l, ft, g, e, r, n),
            r,
            rows,
            cols,
            ys,
            cs,
        ),
    decreases n,
{
    if n <= 0 {
        lemma_yuv_self(d, e);
    } else {
        let d1 = lf_row(l, ft, g, d, r, n - 1);
        let e1 = lf_row(l, ft, g, e, r, n - 1);
        lemma_lf_row_same(l, ft, g, d, e, r, n - 1, rows, cols, ys, cs);
        let mi = g[r + 1][n];
        lemma_lf_mb_same(l, ft, mi, d1, e1, r, n - 1, rows, cols, ys, cs);
        lemma_filter_step(
            d,
            e,
            d1,
            e1,
            lf_mb(l, ft, mi, d1, r, n - 1),
            lf_mb(l, ft, mi, e1, r, n - 1),
            r,
            rows,
            cols,
            ys,
            cs,
        );
    }
}

/// What the steps of the simple loop filter need of two luma planes, and keep.
spec fn luma_filterable(p: Pic, q: Pic, r: int, cols: int, h: int, w: int) -> bool {
    &&& is_rect(p, h, w)
    &&& alike(p, q)
    &&& 0 <= r
    &&& luma_at(r) + 16 <= h
    &&& luma_at(cols) <= w
    &&& same_on(p, q, 32, luma_at(r) + 16, 32, luma_at(cols))
}

proof fn lemma_luma_step(
    p: Pic,
    q: Pic,
    s: Pic,
    t: Pic,
    u: Pic,
    v: Pic,
    r: int,
    cols: int,
    h: int,
    w: int,
)
    requires
        luma_filterable(s, t, r, cols, h, w),
        kept_same(p, q, s, t),
        kept_same(s, t, u, v),
    ensures
        luma_filterable(u, v, r, cols, h, w),
        kept_same(p, q, u, v),
{
    lemma_stays(s, t, u, v, 0, 0, 0, 0, 32, luma_at(r) + 16, 32, luma_at(cols), h, w);
    lemma_rect_stays(s, u, h, w);
    lemma_kept_twice(p, q, s, t, u, v);
}

proof fn lemma_kept_self(p: Pic, q: Pic)
    requires
        alike(p, q),
    ensures
        kept_same(p, q, p, q),
{
}

proof fn lemma_bvs_same(p: Pic, q: Pic, r: int, c: int, blimit: u8, cols: int, h: int, w: int)
    requires
        luma_filterable(p, q, r, cols, h, w),
        0 <= c < cols,
    ensures
        kept_same(
            p,
            q,
            bvs(p, luma_at(r), luma_at(c), blimit),
            bvs(q, luma_at(r), luma_at(c), blimit),
        ),
{
    let (yr, yc) = (luma_at(r), luma_at(c));
    let (p1, q1) = (simple_v(p, yr, yc + 4, blimit, 16), simple_v(q, yr, yc + 4, blimit, 16));
    let (p2, q2) = (simple_v(p1, yr, yc + 8, blimit, 16), simple_v(q1, yr, yc + 8, blimit, 16));
    let (p3, q3) = (simple_v(p2, yr, yc + 12, blimit, 16), simple_v(q2, yr, yc + 12, blimit, 16));
    lemma_kept_self(p, q);
    lemma_simple_v_same(p, q, yr, yc + 4, blimit, 16);
    lemma_luma_step(p, q, p, q, p1, q1, r, cols, h, w);
    lemma_simple_v_same(p1, q1, yr, yc + 8, blimit, 16);
    lemma_luma_step(p, q, p1, q1, p2, q2, r, cols, h, w);
    lemma_simple_v_same(p2, q2, yr, yc + 12, blimit, 16);
    lemma_luma_step(p, q, p2, q2, p3, q3, r, cols, h, w);
}

proof fn lemma_bhs_same(p: Pic, q: Pic, r: int, c: int, blimit: u8, cols: int, h: int, w: int)
    requires
        luma_filterable(p, q, r, cols, h, w),
        0 <= c < cols,
    ensures
        kept_same(
            p,
            q,
            bhs(p, luma_at(r), luma_at(c), blimit),
            bhs(q, luma_at(r), luma_at(c), blimit),
        ),
{
    let (yr, yc) = (luma_at(r), luma_at(c));
    let (p1, q1) = (simple_h(p, yr + 4, yc, blimit, 16), simple_h(q, yr + 4, yc, blimit, 16));
    let (p2, q2) = (simple_h(p1, yr + 8, yc, blimit, 16), simple_h(q1, yr + 8, yc, blimit, 16));
    let (p3, q3) = (simple_h(p2, yr + 12, yc, blimit, 16), simple_h(q2, yr + 12, yc, blimit, 16));
    lemma_kept_self(p, q);
    lemma_simple_h_same(p, q, yr + 4, yc, blimit, 16);
    lemma_luma_step(p, q, p, q, p1, q1, r, cols, h, w);
    lemma_simple_h_same(p1, q1, yr + 8, yc, blimit, 16);
    lemma_luma_step(p, q, p1, q1, p2, q2, r, cols, h, w);
    lemma_simple_h_same(p2, q2, yr + 12, yc, blimit, 16);
    lemma_luma_step(p, q, p2, q2, p3, q3, r, cols, h, w);
}

proof fn lemma_lf_mb_simple_same(
    l: LoopFilterInfoN,
    mi: ModeInfo,
    p: Pic,
    q: Pic,
    r: int,
    c: int,
    cols: int,
    h: int,
    w: int,
)
    requires
        luma_filterable(p, q, r, cols, h, w),
        0 <= c < cols,
    ensures
        kept_same(p, q, lf_mb_simple(l, mi, p, r, c), lf_mb_simple(l, mi, q, r, c)),
{
    let level = mb_level(l, mi);
    lemma_kept_self(p, q);
    if level != 0 {
        let (yr, yc) = (luma_at(r), luma_at(c));
        let (m, b) = (l.mblim[level], l.blim[level]);
        let (p1, q1) = if c > 0 {
            lemma_simple_v_same(p, q, yr, yc, m, 16);
            (simple_v(p, yr, yc, m, 16), simple_v(q, yr, yc, m, 16))
        } else {
            (p, q)
        };
        lemma_luma_step(p, q, p, q, p1, q1, r, cols, h, w);
        lemma_kept_self(p1, q1);
        let (p2, q2) = if !skips_inner(mi) {
            lemma_bvs_same(p1, q1, r, c, b, cols, h, w);
            (bvs(p1, yr, yc, b), bvs(q1, yr, yc, b))
        } else {
            (p1, q1)
        };
        lemma_luma_step(p, q, p1, q1, p2, q2, r, cols, h, w);
        lemma_kept_self(p2, q2);
        let (p3, q3) = if r > 0 {
            lemma_simple_h_same(p2, q2, yr, yc, m, 16);
            (simple_h(p2, yr, yc, m, 16), simple_h(q2, yr, yc, m, 16))
        } else {
            (p2, q2)
        };
        lemma_luma_step(p, q, p2, q2, p3, q3, r, cols, h, w);
        lemma_kept_self(p3, q3);
        let (p4, q4) = if !skips_inner(mi) {
            lemma_bhs_same(p3, q3, r, c, b, cols, h, w);
            (bhs(p3, yr, yc, b), bhs(q3, yr, yc, b))
        } else {
            (p3, q3)
        };
        lemma_luma_step(p, q, p3, q3, p4, q4, r, cols, h, w);
    }
}

proof fn lemma_lf_row_simple_same(
    l: LoopFilterInfoN,
    g: ModeGrid,
    p: Pic,
    q: Pic,
    r: int,
    n: int,
    cols: int,
    h: int,
    w: int,
)
    requires
        luma_filterable(p, q, r, cols, h, w),
        n <= cols,
    ensures
        kept_same(p, q, lf_row_simple(l, g, p, r, n), lf_row_simple(l, g, q, r, n)),
        luma_filterable(
            lf_row_simple(l, g, p, r, n),
            lf_row_simple(l, g, q, r, n),
            r,
            cols,
            h,
            w,
        ),
    decreases n,
{
    if n <= 0 {
        lemma_kept_self(p, q);
    } else {
        let p1 = lf_row_simple(l, g, p, r, n - 1);
        let q1 = lf_row_simple(l, g, q, r, n - 1);
        lemma_lf_row_simple_same(l, g, p, q, r, n - 1, cols, h, w);
        let mi = g[r + 1][n];
        lemma_lf_mb_simple_same(l, mi, p1, q1, r, n - 1, cols, h, w);
        lemma_luma_step(
            p,
            q,
            p1,
            q1,
            lf_mb_simple(l, mi, p1, r, n - 1),
            lf_mb_simple(l, mi, q1, r, n - 1),
            r,
            cols,
            h,
            w,
        );
    }
}

proof fn lemma_filter_row_same(f: FrameEnv, g: ModeGrid, d: Yuv, e: Yuv, r: int, ys: int, cs: int)
    requires
        filterable(d, e, r, f.rows, f.cols, ys, cs),
    ensures
        yuv_kept(d, e, filter_row(f, g, d, r), filter_row(f, g, e, r)),
{
    lemma_yuv_self(d, e);
    if f.filter == LoopFilterType::Normal {
        lemma_lf_row_same(f.lf, f.frame_type, g, d, e, r, f.cols, f.rows, f.cols, ys, cs);
    } else {
        lemma_lf_row_simple_same(
            f.lf,
            g,
            d.y,
            e.y,
            r,
            f.cols,
            f.cols,
            16 * f.rows + 64,
            ys,
        );
    }
}

proof fn lemma_sides_same(p: Pic, q: Pic, r: int, k: int, b: int, n: int, h: int, w: int)
    requires
        is_rect(p, h, w),
        alike(p, q),
        0 <= r,
        r + k <= h,
        1 <= b,
        1 <= n,
        2 * b + n <= w,
        same_on(p, q, r, r + k, b, b + n),
    ensures
        kept_same(p, q, extend_sides(p, r, k, b, n), extend_sides(q, r, k, b, n)),
{
    let s = extend_sides(p, r, k, b, n);
    let t = extend_sides(q, r, k, b, n);
    assert forall|i: int, j: int|
        0 <= i < p.len() && 0 <= j < p[i].len() && p[i][j] == q[i][j] implies #[trigger] s[i][j]
        == t[i][j] by {
        assert(p[i].len() == w && q[i].len() == w);
        if r <= i < r + k {
            assert(p[i][b] == q[i][b]);
            assert(p[i][b + n - 1] == q[i][b + n - 1]);
            assert(r + (i - r) == i);
        }
    }
}

proof fn lemma_left_right_same(d: Yuv, e: Yuv, r: int, rows: int, cols: int, ys: int, cs: int)
    requires
        filterable(d, e, r, rows, cols, ys, cs),
    ensures
        yuv_kept(d, e, extend_left_right(d, r, cols), extend_left_right(e, r, cols)),
{
    reveal(extend_left_right);
    let (yr, cr) = (luma_at(r), chroma_at(r));
    lemma_sides_same(d.y, e.y, yr, 16, 32, 16 * cols, 16 * rows + 64, ys);
    lemma_sides_same(d.u, e.u, cr, 8, 16, 8 * cols, 8 * rows + 32, cs);
    lemma_sides_same(d.v, e.v, cr, 8, 16, 8 * cols, 8 * rows + 32, cs);
}

/// All macroblocks are predicted from their own frame.
pub open spec fn all_intra(g: ModeGrid, rows: int, cols: int) -> bool {
    forall|i: int, j: int|
        1 <= i <= rows && 1 <= j <= cols ==> (#[trigger] g[i][j]).mbmi.ref_frame
            == MvReferenceFrame::Intra
}

/// `f` and `e` differ in the reference frames only.
pub open spec fn other_refs(f: FrameEnv, e: FrameEnv) -> bool {
    &&& e == (FrameEnv { refs: e.refs, corrupted: e.corrupted, ..f })
    &&& e.corrupted[0] == f.corrupted[0]
}

/// `t` is `s` with another picture.
pub open spec fn other_picture(s: RowState, t: RowState) -> bool {
    t == (RowState { d: t.d, ..s })
}

/// What holds of two frames that are decoded side by side.
spec fn in_step(s: RowState, t: RowState, f: FrameEnv, e: FrameEnv, ys: int, cs: int) -> bool {
    &&& other_picture(s, t)
    &&& other_refs(f, e)
    &&& 1 <= f.rows
    &&& 1 <= f.cols
    &&& planes_hold(s.d, f.rows, f.cols, ys, cs)
    &&& yuv_alike(s.d, t.d)
    &&& is_rect(s.g, f.rows + 1, f.cols + 1)
    &&& all_intra(s.g, f.rows, f.cols)
}

proof fn lemma_one_mb_same(
    s: RowState,
    t: RowState,
    f: FrameEnv,
    e: FrameEnv,
    r: int,
    c: int,
    ys: int,
    cs: int,
)
    requires
        in_step(s, t, f, e, ys, cs),
        0 <= r < f.rows,
        0 <= c < f.cols,
        done_same(s.d, t.d, r, c, f.cols),
    ensures
        in_step(one_mb(s, f, r, c), one_mb(t, e, r, c), f, e, ys, cs),
        done_same(one_mb(s, f, r, c).d, one_mb(t, e, r, c).d, r, c + 1, f.cols),
{
    let mi = s.g[r + 1][c + 1];
    assert(mi.mbmi.ref_frame == MvReferenceFrame::Intra);
    let m = MbState {
        t: s.ts[r % f.parts],
        above: s.above[c],
        left: s.left,
        mb: Macroblockd {
            corrupted: s.mb.corrupted | f.corrupted[ref_number(mi.mbmi.ref_frame)],
            ..s.mb
        },
        mi,
        d: s.d,
    };
    lemma_mb_decode(m, t.d, f.env, f.refs, e.refs, r, c, f.rows, f.cols, ys, cs);
    let x = mb_decode(m, f.env, f.refs, r, c, f.rows, f.cols);
    let (s1, t1) = (one_mb(s, f, r, c), one_mb(t, e, r, c));
    lemma_planes_stay(s.d, t.d, s1.d, t1.d, f.rows, f.cols, ys, cs);
    assert forall|i: int, j: int| 1 <= i <= f.rows && 1 <= j <= f.cols implies (
    #[trigger] s1.g[i][j]).mbmi.ref_frame == MvReferenceFrame::Intra by {
        assert(s.g[i][j].mbmi.ref_frame == MvReferenceFrame::Intra);
        assert(s.g[r + 1].len() == f.cols + 1);
        if !(i == r + 1 && j == c + 1) {
            assert(s1.g[i][j] == s.g[i][j]);
        }
    }
}

proof fn lemma_row_mbs_same(
    s: RowState,
    t: RowState,
    f: FrameEnv,
    e: FrameEnv,
    r: int,
    n: int,
    ys: int,
    cs: int,
)
    requires
        in_step(s, t, f, e, ys, cs),
        0 <= r < f.rows,
        0 <= n <= f.cols,
        done_same(s.d, t.d, r, 0, f.cols),
    ensures
        in_step(row_mbs(s, f, r, n), row_mbs(t, e, r, n), f, e, ys, cs),
        done_same(row_mbs(s, f, r, n).d, row_mbs(t, e, r, n).d, r, n, f.cols),
    decreases n,
{
    if n > 0 {
        lemma_row_mbs_same(s, t, f, e, r, n - 1, ys, cs);
        lemma_one_mb_same(
            row_mbs(s, f, r, n - 1),
            row_mbs(t, e, r, n - 1),
            f,
            e,
            r,
            n - 1,
            ys,
            cs,
        );
    }
}

proof fn lemma_left_lines_same(d: Yuv, e: Yuv, r: int, rows: int, cols: int, ys: int, cs: int)
    requires
        planes_hold(d, rows, cols, ys, cs),
        yuv_alike(d, e),
        0 <= r < rows,
        1 <= cols,
        rows_same(d, e, r, cols),
    ensures
        yuv_kept(d, e, left_lines(d, r), left_lines(e, r)),
        done_same(left_lines(d, r), left_lines(e, r), r, 0, cols),
{
    reveal(left_lines);
    let (f, g) = (left_lines(d, r), left_lines(e, r));
    let (yr, cr) = (luma_at(r), chroma_at(r));
    let (yh, ch) = (16 * rows + 64, 8 * rows + 32);
    lemma_blit_grown(d.y, e.y, yr, 32 - 1, 16, 1);
    lemma_blit_grown(d.u, e.u, cr, 16 - 1, 8, 1);
    lemma_blit_grown(d.v, e.v, cr, 16 - 1, 8, 1);
    lemma_rect_same(d.y, e.y, f.y, g.y, yr, yr + 16, 31, 32, yh, ys);
    lemma_rect_same(d.u, e.u, f.u, g.u, cr, cr + 8, 15, 16, ch, cs);
    lemma_rect_same(d.v, e.v, f.v, g.v, cr, cr + 8, 15, 16, ch, cs);
    lemma_rows_stay(d, e, f, g, r, rows, cols, ys, cs);
}

proof fn lemma_two_same(p: Pic, q: Pic, r: int, c: int, h: int, w: int)
    requires
        is_rect(p, h, w),
        alike(p, q),
        0 <= r,
        r + 2 <= h,
        1 <= c,
        c + 4 <= w,
        same_on(p, q, r, r + 2, c - 1, c),
    ensures
        grown(p, q, extend_two(p, r, c), extend_two(q, r, c), r, r + 2, c, c + 4),
{
    let s = extend_two(p, r, c);
    let t = extend_two(q, r, c);
    assert forall|i: int, j: int|
        0 <= i < p.len() && 0 <= j < p[i].len() && (p[i][j] == q[i][j] || (r <= i < r + 2 && c <= j
            < c + 4)) implies #[trigger] s[i][j] == t[i][j] by {
        assert(p[i].len() == q[i].len());
        if r <= i < r + 2 {
            assert(p[i][c - 1] == q[i][c - 1]);
            assert(r + (i - r) == i);
        }
    }
}

proof fn lemma_row_end_same(d: Yuv, e: Yuv, r: int, rows: int, cols: int, ys: int, cs: int)
    requires
        planes_hold(d, rows, cols, ys, cs),
        yuv_alike(d, e),
        0 <= r < rows,
        1 <= cols,
        done_same(d, e, r, cols, cols),
    ensures
        yuv_kept(d, e, extend_row_end(d, r, cols), extend_row_end(e, r, cols)),
        rows_same(extend_row_end(d, r, cols), extend_row_end(e, r, cols), r + 1, cols),
{
    reveal(extend_row_end);
    let (f, g) = (extend_row_end(d, r, cols), extend_row_end(e, r, cols));
    let (yr, cr) = (luma_at(r), chroma_at(r));
    let (yc, cc) = (luma_at(cols), chroma_at(cols));
    let (yh, ch) = (16 * rows + 64, 8 * rows + 32);
    lemma_two_same(d.y, e.y, yr + 14, yc, yh, ys);
    lemma_two_same(d.u, e.u, cr + 6, cc, ch, cs);
    lemma_two_same(d.v, e.v, cr + 6, cc, ch, cs);
    lemma_rect_same(d.y, e.y, f.y, g.y, yr + 14, yr + 16, yc, yc + 4, yh, ys);
    lemma_kept(d.u, e.u, f.u, g.u, cr + 6, cr + 8, cc, cc + 4);
    lemma_kept(d.v, e.v, f.v, g.v, cr + 6, cr + 8, cc, cc + 4);
    lemma_done_stays(d, e, f, g, r, cols, rows, cols, ys, cs);
}

proof fn lemma_one_row_same(
    s: RowState,
    t: RowState,
    f: FrameEnv,
    e: FrameEnv,
    r: int,
    ys: int,
    cs: int,
)
    requires
        in_step(s, t, f, e, ys, cs),
        0 <= r < f.rows,
        rows_same(s.d, t.d, r, f.cols),
    ensures
        in_step(one_row(s, f, r), one_row(t, e, r), f, e, ys, cs),
        rows_same(one_row(s, f, r).d, one_row(t, e, r).d, r + 1, f.cols),
{
    reveal(one_row);
    let s1 = RowState { left: no_context(), d: left_lines(s.d, r), ..s };
    let t1 = RowState { left: no_context(), d: left_lines(t.d, r), ..t };
    lemma_left_lines_same(s.d, t.d, r, f.rows, f.cols, ys, cs);
    lemma_planes_stay(s.d, t.d, s1.d, t1.d, f.rows, f.cols, ys, cs);
    lemma_row_mbs_same(s1, t1, f, e, r, f.cols, ys, cs);
    let s2 = row_mbs(s1, f, r, f.cols);
    let t2 = row_mbs(t1, e, r, f.cols);
    lemma_row_end_same(s2.d, t2.d, r, f.rows, f.cols, ys, cs);
    lemma_planes_stay(
        s2.d,
        t2.d,
        extend_row_end(s2.d, r, f.cols),
        extend_row_end(t2.d, r, f.cols),
        f.rows,
        f.cols,
        ys,
        cs,
    );
}

/// Where the lines above row `n` are the same, so are the rows of the frame before it.
proof fn lemma_rows_frame(d: Yuv, e: Yuv, n: int, k: int, cols: int)
    requires
        rows_same(d, e, n, cols),
        0 <= k <= n,
    ensures
        frame_same(d, e, k, cols),
{
}

proof fn lemma_after_row_same(
    f: FrameEnv,
    e: FrameEnv,
    g: ModeGrid,
    d: Yuv,
    b: Yuv,
    r: int,
    ys: int,
    cs: int,
)
    requires
        other_refs(f, e),
        planes_hold(d, f.rows, f.cols, ys, cs),
        yuv_alike(d, b),
        1 <= f.cols,
        0 <= r < f.rows,
        rows_same(d, b, r + 1, f.cols),
    ensures
        yuv_kept(d, b, after_row(f, g, d, r), after_row(e, g, b, r)),
{
    reveal(after_row);
    lemma_yuv_self(d, b);
    if r > 0 {
        if f.level != 0 {
            lemma_rows_frame(d, b, r + 1, r, f.cols);
            lemma_filter_row_same(f, g, d, b, r - 1, ys, cs);
            let (d1, b1) = (filter_row(f, g, d, r - 1), filter_row(f, g, b, r - 1));
            assert(filter_row(e, g, b, r - 1) == b1);
            if r > 1 {
                lemma_planes_stay(d, b, d1, b1, f.rows, f.cols, ys, cs);
                lemma_rows_stay(d, b, d1, b1, r + 1, f.rows, f.cols, ys, cs);
                lemma_rows_frame(d1, b1, r + 1, r - 1, f.cols);
                lemma_left_right_same(d1, b1, r - 2, f.rows, f.cols, ys, cs);
                lemma_yuv_twice(
                    d,
                    b,
                    d1,
                    b1,
                    extend_left_right(d1, r - 2, f.cols),
                    extend_left_right(b1, r - 2, f.cols),
                );
            }
        } else {
            lemma_rows_frame(d, b, r + 1, r, f.cols);
            lemma_left_right_same(d, b, r - 1, f.rows, f.cols, ys, cs);
        }
    }
}

proof fn lemma_all_rows_same(
    s: RowState,
    t: RowState,
    f: FrameEnv,
    e: FrameEnv,
    n: int,
    ys: int,
    cs: int,
)
    requires
        in_step(s, t, f, e, ys, cs),
        0 <= n <= f.rows,
        rows_same(s.d, t.d, 0, f.cols),
    ensures
        in_step(all_rows(s, f, n), all_rows(t, e, n), f, e, ys, cs),
        rows_same(all_rows(s, f, n).d, all_rows(t, e, n).d, n, f.cols),
    decreases n,
{
    if n > 0 {
        let r = n - 1;
        lemma_all_rows_same(s, t, f, e, r, ys, cs);
        let (s1, t1) = (all_rows(s, f, r), all_rows(t, e, r));
        lemma_one_row_same(s1, t1, f, e, r, ys, cs);
        let (u, v) = (one_row(s1, f, r), one_row(t1, e, r));
        lemma_after_row_same(f, e, u.g, u.d, v.d, r, ys, cs);
        let (d2, e2) = (after_row(f, u.g, u.d, r), after_row(e, v.g, v.d, r));
        lemma_planes_stay(u.d, v.d, d2, e2, f.rows, f.cols, ys, cs);
        lemma_rows_stay(u.d, v.d, d2, e2, n, f.rows, f.cols, ys, cs);
    }
}

/// Extending the lines below the frame to both sides leaves the frame as it is.
proof fn lemma_below_same(d: Yuv, e: Yuv, rows: int, cols: int, ys: int, cs: int)
    requires
        planes_hold(d, rows, cols, ys, cs),
        planes_hold(e, rows, cols, ys, cs),
        1 <= rows,
        1 <= cols,
        frame_same(d, e, rows, cols),
    ensures
        frame_same(
            extend_left_right(d, rows, cols),
            extend_left_right(e, rows, cols),
            rows,
            cols,
        ),
        planes_hold(extend_left_right(d, rows, cols), rows, cols, ys, cs),
        planes_hold(extend_left_right(e, rows, cols), rows, cols, ys, cs),
{
    reveal(extend_left_right);
    let (yr, cr) = (luma_at(rows), chroma_at(rows));
    let (yh, ch) = (16 * rows + 64, 8 * rows + 32);
    law_sides_repeat(d.y, yr, 16, 32, 16 * cols, yh, ys);
    law_sides_repeat(e.y, yr, 16, 32, 16 * cols, yh, ys);
    law_sides_repeat(d.u, cr, 8, 16, 8 * cols, ch, cs);
    law_sides_repeat(e.u, cr, 8, 16, 8 * cols, ch, cs);
    law_sides_repeat(d.v, cr, 8, 16, 8 * cols, ch, cs);
    law_sides_repeat(e.v, cr, 8, 16, 8 * cols, ch, cs);
    let (f, g) = (extend_left_right(d, rows, cols), extend_left_right(e, rows, cols));
    assert forall|i: int, j: int| 32 <= i < yr && 32 <= j < luma_at(cols) implies #[trigger] f.y[i][j]
        == g.y[i][j] by {
        assert(d.y[i][j] == e.y[i][j]);
        assert(g.y[i][j] == e.y[i][j]);
    }
    assert forall|i: int, j: int|
        16 <= i < cr && 16 <= j < chroma_at(cols) implies #[trigger] f.u[i][j] == g.u[i][j] by {
        assert(d.u[i][j] == e.u[i][j]);
        assert(g.u[i][j] == e.u[i][j]);
    }
    assert forall|i: int, j: int|
        16 <= i < cr && 16 <= j < chroma_at(cols) implies #[trigger] f.v[i][j] == g.v[i][j] by {
        assert(d.v[i][j] == e.v[i][j]);
        assert(g.v[i][j] == e.v[i][j]);
    }
}

/// Extending a plane upwards and downwards leaves the frame as it is.
proof fn lemma_inside(p: Pic, b: int, n: int, w: int, s: int)
    requires
        is_rect(p, n + 2 * b, s),
        1 <= b,
        1 <= n,
        1 <= w,
        2 * b + w <= s,
    ensures
        forall|i: int, j: int|
            b <= i < b + n && b <= j < b + w ==> #[trigger] extend_down(
                extend_up(p, b, s),
                b,
                n,
                s,
            )[i][j] == p[i][j],
{
    let up = extend_up(p, b, s);
    let q = extend_down(up, b, n, s);
    assert forall|i: int, j: int| b <= i < b + n && b <= j < b + w implies #[trigger] q[i][j]
        == p[i][j] by {
        assert(up[i] == p[i]);
        assert(q[i] == up[i]);
    }
}

proof fn lemma_whole_same(d: Yuv, e: Yuv, rows: int, cols: int, ys: int, cs: int)
    requires
        planes_hold(d, rows, cols, ys, cs),
        planes_hold(e, rows, cols, ys, cs),
        1 <= rows,
        1 <= cols,
        frame_same(d, e, rows, cols),
    ensures
        frame_same(extend_bottom(extend_top(d), rows), extend_bottom(extend_top(e), rows), rows, cols),
{
    reveal(extend_top);
    reveal(extend_bottom);
    let (f, g) = (extend_bottom(extend_top(d), rows), extend_bottom(extend_top(e), rows));
    assert(d.y[0].len() == ys && e.y[0].len() == ys);
    assert(d.u[0].len() == cs && e.u[0].len() == cs);
    assert(d.v[0].len() == cs && e.v[0].len() == cs);
    lemma_inside(d.y, 32, 16 * rows, 16 * cols, ys);
    lemma_inside(e.y, 32, 16 * rows, 16 * cols, ys);
    lemma_inside(d.u, 16, 8 * rows, 8 * cols, cs);
    lemma_inside(e.u, 16, 8 * rows, 8 * cols, cs);
    lemma_inside(d.v, 16, 8 * rows, 8 * cols, cs);
    lemma_inside(e.v, 16, 8 * rows, 8 * cols, cs);
    assert(extend_top(d).y[0].len() == ys && extend_top(e).y[0].len() == ys);
    assert(extend_top(d).u[0].len() == cs && extend_top(e).u[0].len() == cs);
    assert(extend_top(d).v[0].len() == cs && extend_top(e).v[0].len() == cs);
    assert forall|i: int, j: int|
        32 <= i < luma_at(rows) && 32 <= j < luma_at(cols) implies #[trigger] f.y[i][j] == g.y[i][j] by {
        assert(d.y[i][j] == e.y[i][j]);
        assert(g.y[i][j] == e.y[i][j]);
    }
    assert forall|i: int, j: int|
        16 <= i < chroma_at(rows) && 16 <= j < chroma_at(cols) implies #[trigger] f.u[i][j]
        == g.u[i][j] by {
        assert(d.u[i][j] == e.u[i][j]);
        assert(g.u[i][j] == e.u[i][j]);
    }
    assert forall|i: int, j: int|
        16 <= i < chroma_at(rows) && 16 <= j < chroma_at(cols) implies #[trigger] f.v[i][j]
        == g.v[i][j] by {
        assert(d.v[i][j] == e.v[i][j]);
        assert(g.v[i][j] == e.v[i][j]);
    }
}

/// Two pictures of `rows x cols` macroblocks are the same, borders and all.
pub open spec fn pictures_same(d: Yuv, e: Yuv, rows: int, cols: int) -> bool {
    &&& same_on(d.y, e.y, 0, 16 * rows + 64, 0, 16 * cols + 64)
    &&& same_on(d.u, e.u, 0, 8 * rows + 32, 0, 8 * cols + 32)
    &&& same_on(d.v, e.v, 0, 8 * rows + 32, 0, 8 * cols + 32)
}

proof fn lemma_border_same(p: Pic, q: Pic, b: int, n: int, w: int)
    requires
        1 <= b,
        1 <= n,
        1 <= w,
        border_repeats(p, b, n, w),
        border_repeats(q, b, n, w),
        same_on(p, q, b, b + n, b, b + w),
    ensures
        same_on(p, q, 0, n + 2 * b, 0, w + 2 * b),
{
    assert forall|i: int, j: int| 0 <= i < n + 2 * b && 0 <= j < w + 2 * b implies #[trigger] p[i][j]
        == q[i][j] by {
        let (k, l) = (clamp_int(i, b, b + n - 1), clamp_int(j, b, b + w - 1));
        assert(p[i][j] == p[k][l]);
        assert(q[i][j] == q[k][l]);
    }
}

proof fn lemma_after_rows_same(
    f: FrameEnv,
    e: FrameEnv,
    g: ModeGrid,
    d: Yuv,
    b: Yuv,
    ys: int,
    cs: int,
)
    requires
        other_refs(f, e),
        1 <= f.rows,
        1 <= f.cols,
        planes_hold(d, f.rows, f.cols, ys, cs),
        yuv_alike(d, b),
        frame_same(d, b, f.rows, f.cols),
    ensures
        frame_same(after_rows(f, g, d), after_rows(e, g, b), f.rows, f.cols),
{
    reveal(after_rows);
    let (rows, cols) = (f.rows, f.cols);
    if f.level != 0 {
        lemma_filter_row_same(f, g, d, b, rows - 1, ys, cs);
        let (d1, b1) = (filter_row(f, g, d, rows - 1), filter_row(f, g, b, rows - 1));
        assert(filter_row(e, g, b, rows - 1) == b1);
        lemma_frame_stays(d, b, d1, b1, rows, rows, cols, ys, cs);
        let k = if rows >= 2 {
            rows - 2
        } else {
            0
        };
        lemma_left_right_same(d1, b1, k, rows, cols, ys, cs);
        let (d2, b2) = (extend_left_right(d1, k, cols), extend_left_right(b1, k, cols));
        lemma_frame_stays(d1, b1, d2, b2, rows, rows, cols, ys, cs);
        lemma_both_hold(d2, b2, rows, cols, ys, cs);
        let (d3, b3) = (extend_left_right(d2, k + 1, cols), extend_left_right(b2, k + 1, cols));
        if rows >= 2 {
            lemma_left_right_same(d2, b2, k + 1, rows, cols, ys, cs);
            lemma_frame_stays(d2, b2, d3, b3, rows, rows, cols, ys, cs);
            lemma_both_hold(d3, b3, rows, cols, ys, cs);
        } else {
            lemma_below_same(d2, b2, rows, cols, ys, cs);
        }
        lemma_whole_same(d3, b3, rows, cols, ys, cs);
    } else {
        lemma_left_right_same(d, b, rows - 1, rows, cols, ys, cs);
        let d1 = extend_left_right(d, rows - 1, cols);
        let b1 = extend_left_right(b, rows - 1, cols);
        lemma_frame_stays(d, b, d1, b1, rows, rows, cols, ys, cs);
        lemma_both_hold(d1, b1, rows, cols, ys, cs);
        lemma_whole_same(d1, b1, rows, cols, ys, cs);
    }
}

proof fn lemma_both_hold(d: Yuv, e: Yuv, rows: int, cols: int, ys: int, cs: int)
    requires
        planes_hold(d, rows, cols, ys, cs),
        yuv_alike(d, e),
    ensures
        planes_hold(e, rows, cols, ys, cs),
{
    lemma_rect_stays(d.y, e.y, 16 * rows + 64, ys);
    lemma_rect_stays(d.u, e.u, 8 * rows + 32, cs);
    lemma_rect_stays(d.v, e.v, 8 * rows + 32, cs);
}

proof fn lemma_top_lines_same(d: Yuv, e: Yuv, rows: int, cols: int, ys: int, cs: int)
    requires
        planes_hold(d, rows, cols, ys, cs),
        yuv_alike(d, e),
        1 <= rows,
        1 <= cols,
    ensures
        yuv_kept(d, e, top_lines(d, cols), top_lines(e, cols)),
        rows_same(top_lines(d, cols), top_lines(e, cols), 0, cols),
{
    reveal(top_lines);
    let (f, g) = (top_lines(d, cols), top_lines(e, cols));
    let (yn, cn) = (16 * cols + 5, 8 * cols + 5);
    lemma_blit_grown(d.y, e.y, 32 - 1, 32 - 1, 1, yn);
    lemma_blit_grown(d.u, e.u, 16 - 1, 16 - 1, 1, cn);
    lemma_blit_grown(d.v, e.v, 16 - 1, 16 - 1, 1, cn);
    lemma_rect_same(d.y, e.y, f.y, g.y, 31, 32, 31, 31 + yn, 16 * rows + 64, ys);
    lemma_rect_same(d.u, e.u, f.u, g.u, 15, 16, 15, 15 + cn, 8 * rows + 32, cs);
    lemma_rect_same(d.v, e.v, f.v, g.v, 15, 16, 15, 15 + cn, 8 * rows + 32, cs);
}

/// A frame whose macroblocks are all predicted from the frame itself stands alone: what becomes
/// of it depends neither on the reference frames nor on the picture that its buffer held before.
pub proof fn law_intra_frame_alone(
    s: RowState,
    t: RowState,
    f: FrameEnv,
    e: FrameEnv,
    ys: int,
    cs: int,
)
    requires
        other_picture(s, t),
        other_refs(f, e),
        1 <= f.rows,
        1 <= f.cols,
        planes_hold(s.d, f.rows, f.cols, ys, cs),
        planes_hold(t.d, f.rows, f.cols, ys, cs),
        is_rect(s.g, f.rows + 1, f.cols + 1),
        all_intra(s.g, f.rows, f.cols),
    ensures
        other_picture(frame_rows(s, f), frame_rows(t, e)),
        pictures_same(frame_rows(s, f).d, frame_rows(t, e).d, f.rows, f.cols),
{
    law_decoded_border(s, f, ys, cs);
    law_decoded_border(t, e, ys, cs);
    reveal(frame_rows);
    let (rows, cols) = (f.rows, f.cols);
    let s1 = RowState { d: top_lines(s.d, cols), ..s };
    let t1 = RowState { d: top_lines(t.d, cols), ..t };
    lemma_top_lines_same(s.d, t.d, rows, cols, ys, cs);
    lemma_planes_stay(s.d, t.d, s1.d, t1.d, rows, cols, ys, cs);
    lemma_all_rows_same(s1, t1, f, e, rows, ys, cs);
    let (u, v) = (all_rows(s1, f, rows), all_rows(t1, e, rows));
    lemma_rows_frame(u.d, v.d, rows, rows, cols);
    lemma_after_rows_same(f, e, u.g, u.d, v.d, ys, cs);
    let (x, y) = (frame_rows(s, f).d, frame_rows(t, e).d);
    lemma_border_same(x.y, y.y, 32, 16 * rows, 16 * cols);
    lemma_border_same(x.u, y.u, 16, 8 * rows, 8 * cols);
    lemma_border_same(x.v, y.v, 16, 8 * rows, 8 * cols);
}

proof fn lemma_kf_submodes(s: BoolState, mi: ModeInfo, above: ModeInfo, left: ModeInfo, n: int)
    ensures
        kf_submodes(s, mi, above, left, n).0.mbmi == mi.mbmi,
    decreases n,
{
    if n > 0 {
        lemma_kf_submodes(s, mi, above, left, n - 1);
    }
}

proof fn lemma_key_modes(
    t: BoolState,
    mi: ModeInfo,
    above: ModeInfo,
    left: ModeInfo,
    aboveleft: ModeInfo,
    env: ModeEnv,
    e: MbEdges,
)
    requires
        env.frame_type == FrameType::Key,
    ensures
        mb_modes(t, mi, above, left, aboveleft, env, e).0.mbmi.ref_frame
            == MvReferenceFrame::Intra,
{
    reveal(mb_modes);
    reveal(kf_modes);
    let (seg, t1) = segment_of(t, mi, env);
    let (skip, t2) = get_skip(t1, env);
    let m = ModeInfo {
        mbmi: MbModeInfo {
            segment_id: seg as u8,
            mb_skip_coeff: skip,
            is_4x4: false,
            ..mi.mbmi
        },
        ..mi
    };
    let (y, s1) = get_kf_ymode(t2);
    let m1 = ModeInfo {
        mbmi: MbModeInfo { ref_frame: MvReferenceFrame::Intra, mode: y, ..m.mbmi },
        ..m
    };
    lemma_kf_submodes(
        s1,
        ModeInfo { mbmi: MbModeInfo { is_4x4: true, ..m1.mbmi }, ..m1 },
        above,
        left,
        16,
    );
}

/// The first `r` rows, and the first `c` macroblocks of the next one, are predicted from their
/// own frame.
spec fn first_intra(g: ModeGrid, cols: int, r: int, c: int) -> bool {
    forall|i: int, j: int|
        1 <= i && 1 <= j <= cols && (i <= r || (i == r + 1 && j <= c)) ==> (
        #[trigger] g[i][j]).mbmi.ref_frame == MvReferenceFrame::Intra
}

proof fn lemma_modes_row(
    t: BoolState,
    g: ModeGrid,
    env: ModeEnv,
    rows: int,
    cols: int,
    r: int,
    n: int,
)
    requires
        env.frame_type == FrameType::Key,
        is_rect(g, rows + 1, cols + 1),
        0 <= r < rows,
        0 <= n <= cols,
        first_intra(g, cols, r, 0),
    ensures
        is_rect(modes_row(t, g, env, rows, cols, r, n).0, rows + 1, cols + 1),
        first_intra(modes_row(t, g, env, rows, cols, r, n).0, cols, r, n),
    decreases n,
{
    if n > 0 {
        let (h, u) = modes_row(t, g, env, rows, cols, r, n - 1);
        lemma_modes_row(t, g, env, rows, cols, r, n - 1);
        let x = edges_at(r, n - 1, rows, cols);
        lemma_key_modes(u, h[r + 1][n], h[r][n], h[r + 1][n - 1], h[r][n - 1], env, x);
        let k = modes_row(t, g, env, rows, cols, r, n).0;
        assert(h[r + 1].len() == cols + 1);
        assert forall|i: int, j: int|
            1 <= i && 1 <= j <= cols && (i <= r || (i == r + 1 && j <= n)) implies (
        #[trigger] k[i][j]).mbmi.ref_frame == MvReferenceFrame::Intra by {
            if !(i == r + 1 && j == n) {
                assert(k[i][j] == h[i][j]);
            }
        }
    }
}

proof fn lemma_modes_rows(t: BoolState, g: ModeGrid, env: ModeEnv, rows: int, cols: int, n: int)
    requires
        env.frame_type == FrameType::Key,
        is_rect(g, rows + 1, cols + 1),
        0 <= cols,
        0 <= n <= rows,
    ensures
        is_rect(modes_rows(t, g, env, rows, cols, n).0, rows + 1, cols + 1),
        first_intra(modes_rows(t, g, env, rows, cols, n).0, cols, n, 0),
    decreases n,
{
    if n > 0 {
        let (h, u) = modes_rows(t, g, env, rows, cols, n - 1);
        lemma_modes_rows(t, g, env, rows, cols, n - 1);
        lemma_modes_row(u, h, env, rows, cols, n - 1, cols);
    }
}

/// All macroblocks of a key frame are predicted from the frame itself.
pub proof fn law_key_frame_intra(p: Vp8dComp, g: ModeGrid, t: BoolState)
    requires
        p.common.frame_type == FrameType::Key,
        p.common.mb_rows >= 0,
        p.common.mb_cols >= 0,
        is_rect(g, p.common.mb_rows + 1, p.common.mb_cols + 1),
    ensures
        all_intra(frame_modes(p, g, t).0, p.common.mb_rows as int, p.common.mb_cols as int),
        is_rect(frame_modes(p, g, t).0, p.common.mb_rows + 1, p.common.mb_cols + 1),
{
    reveal(mode_header);
    let (env, u) = mode_header(t, env_of(p));
    let rows = p.common.mb_rows as int;
    lemma_modes_rows(u, g, env, rows, p.common.mb_cols as int, rows);
}

/// `q` is `p` with other frame buffers.
pub open spec fn other_buffers(p: Vp8dComp, q: Vp8dComp) -> bool {
    q == (Vp8dComp { common: Vp8Common { yv12_fb: q.common.yv12_fb, ..p.common }, ..p })
}

/// A key frame can be decoded without the frames before it: two decoders that differ in the
/// contents of their frame buffers only make the same of it. `t` reads the modes, `g` has those
/// of the frame before, and `ts` reads the coefficients.
pub proof fn law_key_frame_alone(
    p: Vp8dComp,
    q: Vp8dComp,
    g: ModeGrid,
    t: BoolState,
    ts: Seq<BoolState>,
    ys: int,
    cs: int,
)
    requires
        p.common.frame_type == FrameType::Key,
        other_buffers(p, q),
        p.common.mb_rows >= 1,
        p.common.mb_cols >= 1,
        is_rect(g, p.common.mb_rows + 1, p.common.mb_cols + 1),
        planes_hold(
            frame_buffer(p, 0).planes@,
            p.common.mb_rows as int,
            p.common.mb_cols as int,
            ys,
            cs,
        ),
        planes_hold(
            frame_buffer(q, 0).planes@,
            p.common.mb_rows as int,
            p.common.mb_cols as int,
            ys,
            cs,
        ),
    ensures
        ({
            let x = rows_end(modes_known(p, t), frame_modes(p, g, t).0, cleared_above(p), ts);
            let y = rows_end(modes_known(q, t), frame_modes(q, g, t).0, cleared_above(q), ts);
            &&& other_picture(x, y)
            &&& pictures_same(x.d, y.d, p.common.mb_rows as int, p.common.mb_cols as int)
        }),
{
    reveal(rows_end);
    law_key_frame_intra(p, g, t);
    let (p1, q1) = (modes_known(p, t), modes_known(q, t));
    let modes = frame_modes(p, g, t).0;
    assert(env_of(q) == env_of(p));
    assert(frame_modes(q, g, t).0 == modes);
    assert(cleared_above(q) =~= cleared_above(p));
    let s = rows_start(p1, modes, cleared_above(p), ts);
    let u = rows_start(q1, modes, cleared_above(p), ts);
    let f = frame_env(filter_started(p1));
    let e = frame_env(filter_started(q1));
    assert(other_picture(s, u));
    assert(f.corrupted[0] == 0 && e.corrupted[0] == 0);
    assert(other_refs(f, e));
    law_intra_frame_alone(s, u, f, e, ys, cs);
}

} // verus!
