//! The modes of all macroblocks of a frame.

use crate::dboolhuff::{
    law_literal_bounded, law_literals_join, read_bool, read_literal, BoolState, Vp8Reader,
};
use crate::grid::{is_rect, put, Grid};
use crate::intramode::cell_ok;
use crate::mbmodes::{decode_mb_mode_mvs, inter_ok, mb_modes, ModeEnv};
use crate::tables::{MvContext, Prob, VP8_MV_UPDATE_PROBS};
use crate::treereader::{vp8_read, vp8_read_bit, vp8_read_literal};
use crate::types::{
    edges_at, mb_edges, FrameContext, FrameType, MbEdges, ModeInfo, Vp8Common, Vp8dComp,
};
use crate::vp8_loopfilter::{grid_holds, ModeGrid};
use vstd::arithmetic::power2::{lemma2_to64, pow2};
use vstd::array::spec_array_update;
use vstd::prelude::*;

verus! {

/// Reads new values for some of the first `n` probabilities of a motion vector component.
pub open spec fn mv_context(t: BoolState, p: MvContext, up: MvContext, n: int) -> (
    MvContext,
    BoolState,
)
    decreases n,
{
    if n <= 0 {
        (p, t)
    } else {
        let (q, u) = mv_context(t, p, up, n - 1);
        let (b, u1) = read_bool(u, up[n - 1] as int);
        if b != 0 {
            let (x, u2) = read_literal(u1, 7);
            (
                spec_array_update(
                    q,
                    n - 1,
                    if x != 0 {
                        (2 * x) as u8
                    } else {
                        1
                    },
                ),
                u2,
            )
        } else {
            (q, u1)
        }
    }
}

/// Reads new values for some of the probabilities of both motion vector components.
#[verifier::opaque]
pub open spec fn mv_contexts(t: BoolState, mvc: [MvContext; 2]) -> ([MvContext; 2], BoolState) {
    let (a, u) = mv_context(t, mvc[0], VP8_MV_UPDATE_PROBS[0], 19);
    let (b, v) = mv_context(u, mvc[1], VP8_MV_UPDATE_PROBS[1], 19);
    (spec_array_update(spec_array_update(mvc, 0, a), 1, b), v)
}

fn read_mvcontext(bc: &mut Vp8Reader<'_>, p: &mut MvContext, up: &MvContext)
    requires
        old(bc).wf(),
    ensures
        final(bc).wf(),
        (*final(p), final(bc)@) == mv_context(old(bc)@, *old(p), *up, 19),
{
    let ghost t0 = bc@;
    let ghost p0 = *p;
    let mut i: usize = 0;
    while i < 19
        invariant
            i <= 19,
            bc.wf(),
            (*p, bc@) == mv_context(t0, p0, *up, i as int),
        decreases 19 - i,
    {
        if vp8_read(bc, up[i] as i32) != 0 {
            let x: i32 = vp8_read_literal(bc, 7);
            proof {
                lemma2_to64();
            }
            p[i] = if x != 0 {
                (2 * x) as u8
            } else {
                1
            };
        }
        i += 1;
    }
}

/// Reads new values for some of the probabilities of motion vectors.
pub fn read_mvcontexts(bc: &mut Vp8Reader<'_>, mvc: &mut [MvContext; 2])
    requires
        old(bc).wf(),
    ensures
        final(bc).wf(),
        (*final(mvc), final(bc)@) == mv_contexts(old(bc)@, *old(mvc)),
{
    proof {
        reveal(mv_contexts);
    }
    let up: [MvContext; 2] = VP8_MV_UPDATE_PROBS;
    let mut a: MvContext = mvc[0];
    let mut b: MvContext = mvc[1];
    read_mvcontext(bc, &mut a, &up[0]);
    read_mvcontext(bc, &mut b, &up[1]);
    mvc[0] = a;
    mvc[1] = b;
}

/// Reads the first `n` of four luma mode probabilities.
pub open spec fn ymode_probs(t: BoolState, p: [Prob; 4], n: int) -> ([Prob; 4], BoolState)
    decreases n,
{
    if n <= 0 {
        (p, t)
    } else {
        let (q, u) = ymode_probs(t, p, n - 1);
        let (x, v) = read_literal(u, 8);
        (spec_array_update(q, n - 1, x as u8), v)
    }
}

/// Reads the first `n` of three chroma mode probabilities.
pub open spec fn uv_mode_probs(t: BoolState, p: [Prob; 3], n: int) -> ([Prob; 3], BoolState)
    decreases n,
{
    if n <= 0 {
        (p, t)
    } else {
        let (q, u) = uv_mode_probs(t, p, n - 1);
        let (x, v) = read_literal(u, 8);
        (spec_array_update(q, n - 1, x as u8), v)
    }
}

/// Reads new mode probabilities, if there are any.
#[verifier::opaque]
pub open spec fn mode_probs(t: BoolState, fc: FrameContext) -> (FrameContext, BoolState) {
    let (b, t1) = read_bool(t, 128);
    let (y, t2) = if b != 0 {
        ymode_probs(t1, fc.ymode_prob, 4)
    } else {
        (fc.ymode_prob, t1)
    };
    let (c, t3) = read_bool(t2, 128);
    let (uv, t4) = if c != 0 {
        uv_mode_probs(t3, fc.uv_mode_prob, 3)
    } else {
        (fc.uv_mode_prob, t3)
    };
    let (mvc, t5) = mv_contexts(t4, fc.mvc);
    (FrameContext { ymode_prob: y, uv_mode_prob: uv, mvc, ..fc }, t5)
}

fn read_mode_probs(bc: &mut Vp8Reader<'_>, fc: &mut FrameContext)
    requires
        old(bc).wf(),
    ensures
        final(bc).wf(),
        (*final(fc), final(bc)@) == mode_probs(old(bc)@, *old(fc)),
{
    proof {
        reveal(mode_probs);
        lemma2_to64();
    }
    if vp8_read_bit(bc) != 0 {
        let ghost t1 = bc@;
        let mut i: usize = 0;
        while i < 4
            invariant
                i <= 4,
                bc.wf(),
                pow2(8) == 256,
                (fc.ymode_prob, bc@) == ymode_probs(t1, old(fc).ymode_prob, i as int),
                *fc == (FrameContext { ymode_prob: fc.ymode_prob, ..*old(fc) }),
            decreases 4 - i,
        {
            fc.ymode_prob[i] = vp8_read_literal(bc, 8) as u8;
            i += 1;
        }
    }
    let ghost f1 = *fc;
    if vp8_read_bit(bc) != 0 {
        let ghost t1 = bc@;
        let mut i: usize = 0;
        while i < 3
            invariant
                i <= 3,
                bc.wf(),
                pow2(8) == 256,
                (fc.uv_mode_prob, bc@) == uv_mode_probs(t1, f1.uv_mode_prob, i as int),
                *fc == (FrameContext { uv_mode_prob: fc.uv_mode_prob, ..f1 }),
            decreases 3 - i,
        {
            fc.uv_mode_prob[i] = vp8_read_literal(bc, 8) as u8;
            i += 1;
        }
    }
    read_mvcontexts(bc, &mut fc.mvc);
}

/// Reads what is said for all macroblocks before their modes.
#[verifier::opaque]
pub open spec fn mode_header(t: BoolState, env: ModeEnv) -> (ModeEnv, BoolState) {
    let (no_skip, t1) = read_bool(t, 128);
    let (skip, t2) = if no_skip != 0 {
        read_literal(t1, 8)
    } else {
        (0, t1)
    };
    let e = ModeEnv { mb_no_coeff_skip: no_skip as i32, prob_skip_false: skip as u8, ..env };
    if env.frame_type == FrameType::Key {
        (e, t2)
    } else {
        let (pi, t3) = read_literal(t2, 8);
        let (pl, t4) = read_literal(t3, 8);
        let (pg, t5) = read_literal(t4, 8);
        let (fc, t6) = mode_probs(t5, env.fc);
        (
            ModeEnv {
                prob_intra: pi as u8,
                prob_last: pl as u8,
                prob_gf: pg as u8,
                fc,
                ..e
            },
            t6,
        )
    }
}

/// Reads what is said for all macroblocks before their modes.
pub fn mb_mode_mv_init(bc: &mut Vp8Reader<'_>, env: &mut ModeEnv)
    requires
        old(bc).wf(),
    ensures
        final(bc).wf(),
        (*final(env), final(bc)@) == mode_header(old(bc)@, *old(env)),
        final(env).mb_no_coeff_skip == 0 || final(env).mb_no_coeff_skip == 1,
        final(env).frame_type == old(env).frame_type,
        *final(env) == (ModeEnv {
            mb_no_coeff_skip: final(env).mb_no_coeff_skip,
            prob_skip_false: final(env).prob_skip_false,
            prob_intra: final(env).prob_intra,
            prob_last: final(env).prob_last,
            prob_gf: final(env).prob_gf,
            fc: final(env).fc,
            ..*old(env)
        }),
{
    proof {
        reveal(mode_header);
        lemma2_to64();
    }
    env.mb_no_coeff_skip = vp8_read_bit(bc);
    env.prob_skip_false = 0;
    if env.mb_no_coeff_skip != 0 {
        env.prob_skip_false = vp8_read_literal(bc, 8) as u8;
    }
    if env.frame_type != FrameType::Key {
        env.prob_intra = vp8_read_literal(bc, 8) as u8;
        env.prob_last = vp8_read_literal(bc, 8) as u8;
        env.prob_gf = vp8_read_literal(bc, 8) as u8;
        read_mode_probs(bc, &mut env.fc);
    }
}

/// Every macroblock's modes are such.
pub open spec fn cells_ok(g: ModeGrid) -> bool {
    forall|r: int, c: int|
        0 <= r < g.len() && 0 <= c < g[r].len() ==> cell_ok(#[trigger] g[r][c])
}

/// Vectors that may lead further outside the frame are marked as such in the first `r` rows
/// and in the first `c` macroblocks of the next one.
pub open spec fn reach_ok(g: ModeGrid, rows: int, cols: int, r: int, c: int) -> bool {
    forall|i: int, j: int|
        1 <= i <= rows && 1 <= j <= cols && (i <= r || (i == r + 1 && j <= c)) ==> inter_ok(
            #[trigger] g[i][j],
            edges_at(i - 1, j - 1, rows, cols),
        )
}

/// Reads the modes of the first `n` macroblocks of row `r`.
pub open spec fn modes_row(
    t: BoolState,
    g: ModeGrid,
    env: ModeEnv,
    rows: int,
    cols: int,
    r: int,
    n: int,
) -> (ModeGrid, BoolState)
    decreases n,
{
    if n <= 0 {
        (g, t)
    } else {
        let (h, u) = modes_row(t, g, env, rows, cols, r, n - 1);
        let (m, v) = mb_modes(
            u,
            h[r + 1][n],
            h[r][n],
            h[r + 1][n - 1],
            h[r][n - 1],
            env,
            edges_at(r, n - 1, rows, cols),
        );
        (put(h, r + 1, n, m), v)
    }
}

/// Reads the modes of the macroblocks of the first `n` rows.
pub open spec fn modes_rows(t: BoolState, g: ModeGrid, env: ModeEnv, rows: int, cols: int, n: int) -> (
    ModeGrid,
    BoolState,
)
    decreases n,
{
    if n <= 0 {
        (g, t)
    } else {
        let (h, u) = modes_rows(t, g, env, rows, cols, n - 1);
        modes_row(u, h, env, rows, cols, n - 1, cols)
    }
}

fn read_mode(
    bc: &mut Vp8Reader<'_>,
    mip: &mut Grid<ModeInfo>,
    env: &ModeEnv,
    rows: usize,
    cols: usize,
    r: usize,
    c: usize,
)
    requires
        old(bc).wf(),
        r < rows <= 1024,
        c < cols <= 1024,
        grid_holds(*old(mip), rows as int, cols as int),
        cells_ok(old(mip)@),
        reach_ok(old(mip)@, rows as int, cols as int, r as int, c as int),
    ensures
        final(bc).wf(),
        grid_holds(*final(mip), rows as int, cols as int),
        cells_ok(final(mip)@),
        reach_ok(final(mip)@, rows as int, cols as int, r as int, c + 1),
        ({
            let h = old(mip)@;
            let (m, v) = mb_modes(
                old(bc)@,
                h[r + 1][c + 1],
                h[r as int][c + 1],
                h[r + 1][c as int],
                h[r as int][c as int],
                *env,
                edges_at(r as int, c as int, rows as int, cols as int),
            );
            final(mip)@ == put(h, r + 1, c + 1, m) && final(bc)@ == v
        }),
{
    let ghost h = mip@;
    proof {
        mip.lemma_rect();
    }
    let mut mi: ModeInfo = mip.get(r + 1, c + 1);
    let above: ModeInfo = mip.get(r, c + 1);
    let left: ModeInfo = mip.get(r + 1, c);
    let aboveleft: ModeInfo = mip.get(r, c);
    let e: MbEdges = mb_edges(r, c, rows, cols);
    assert(cell_ok(h[r + 1][c + 1]) && cell_ok(h[r as int][c + 1]) && cell_ok(h[r + 1][c as int]));
    decode_mb_mode_mvs(bc, &mut mi, &above, &left, &aboveleft, env, &e);
    mip.set(r + 1, c + 1, mi);
    proof {
        let g = mip@;
        assert forall|i: int, j: int| 0 <= i < g.len() && 0 <= j < g[i].len() implies cell_ok(
            #[trigger] g[i][j],
        ) by {
            if !(i == r + 1 && j == c + 1) {
                assert(g[i][j] == h[i][j]);
                assert(h[i].len() == g[i].len());
            }
        }
        assert forall|i: int, j: int|
            1 <= i <= rows && 1 <= j <= cols && (i <= r || (i == r + 1 && j <= c + 1)) implies inter_ok(
            #[trigger] g[i][j],
            edges_at(i - 1, j - 1, rows as int, cols as int),
        ) by {
            if !(i == r + 1 && j == c + 1) {
                assert(g[i][j] == h[i][j]);
            }
        }
    }
}

fn read_modes_row(
    bc: &mut Vp8Reader<'_>,
    mip: &mut Grid<ModeInfo>,
    env: &ModeEnv,
    rows: usize,
    cols: usize,
    r: usize,
)
    requires
        old(bc).wf(),
        r < rows <= 1024,
        1 <= cols <= 1024,
        grid_holds(*old(mip), rows as int, cols as int),
        cells_ok(old(mip)@),
        reach_ok(old(mip)@, rows as int, cols as int, r as int, 0),
    ensures
        final(bc).wf(),
        grid_holds(*final(mip), rows as int, cols as int),
        cells_ok(final(mip)@),
        reach_ok(final(mip)@, rows as int, cols as int, r + 1, 0),
        (final(mip)@, final(bc)@) == modes_row(
            old(bc)@,
            old(mip)@,
            *env,
            rows as int,
            cols as int,
            r as int,
            cols as int,
        ),
{
    let ghost t0 = bc@;
    let ghost g0 = mip@;
    let mut c: usize = 0;
    while c < cols
        invariant
            c <= cols,
            r < rows <= 1024,
            cols <= 1024,
            bc.wf(),
            grid_holds(*mip, rows as int, cols as int),
            cells_ok(mip@),
            reach_ok(mip@, rows as int, cols as int, r as int, c as int),
            (mip@, bc@) == modes_row(
                t0,
                g0,
                *env,
                rows as int,
                cols as int,
                r as int,
                c as int,
            ),
        decreases cols - c,
    {
        read_mode(bc, mip, env, rows, cols, r, c);
        c += 1;
    }
}

/// Reads the modes of all macroblocks.
pub fn read_modes(
    bc: &mut Vp8Reader<'_>,
    mip: &mut Grid<ModeInfo>,
    env: &ModeEnv,
    rows: usize,
    cols: usize,
)
    requires
        old(bc).wf(),
        1 <= rows <= 1024,
        1 <= cols <= 1024,
        grid_holds(*old(mip), rows as int, cols as int),
        cells_ok(old(mip)@),
    ensures
        final(bc).wf(),
        grid_holds(*final(mip), rows as int, cols as int),
        cells_ok(final(mip)@),
        reach_ok(final(mip)@, rows as int, cols as int, rows as int, 0),
        (final(mip)@, final(bc)@) == modes_rows(
            old(bc)@,
            old(mip)@,
            *env,
            rows as int,
            cols as int,
            rows as int,
        ),
{
    let ghost t0 = bc@;
    let ghost g0 = mip@;
    let mut r: usize = 0;
    while r < rows
        invariant
            r <= rows <= 1024,
            1 <= cols <= 1024,
            bc.wf(),
            grid_holds(*mip, rows as int, cols as int),
            cells_ok(mip@),
            reach_ok(mip@, rows as int, cols as int, r as int, 0),
            (mip@, bc@) == modes_rows(t0, g0, *env, rows as int, cols as int, r as int),
        decreases rows - r,
    {
        read_modes_row(bc, mip, env, rows, cols, r);
        r += 1;
    }
}

/// What a decoder knows about the modes of macroblocks.
pub open spec fn env_of(pbi: Vp8dComp) -> ModeEnv {
    ModeEnv {
        frame_type: pbi.common.frame_type,
        segmentation_enabled: pbi.mb.segmentation_enabled,
        update_mb_segmentation_map: pbi.mb.update_mb_segmentation_map,
        mb_segment_tree_probs: pbi.mb.mb_segment_tree_probs,
        mb_no_coeff_skip: pbi.common.mb_no_coeff_skip,
        prob_skip_false: pbi.prob_skip_false,
        prob_intra: pbi.prob_intra,
        prob_last: pbi.prob_last,
        prob_gf: pbi.prob_gf,
        fc: pbi.common.fc,
        ref_frame_sign_bias: pbi.common.ref_frame_sign_bias,
    }
}

/// The modes of the macroblocks fit the size of the frame.
pub open spec fn modes_fit(cm: Vp8Common) -> bool {
    &&& 1 <= cm.mb_rows <= 1024
    &&& 1 <= cm.mb_cols <= 1024
    &&& grid_holds(cm.mip, cm.mb_rows as int, cm.mb_cols as int)
    &&& cells_ok(cm.mip@)
}

/// Reads the modes of all macroblocks of a frame, and what is said for all of them before that.
pub fn vp8_decode_mode_mvs(pbi: &mut Vp8dComp, bc: &mut Vp8Reader<'_>)
    requires
        old(bc).wf(),
        modes_fit(old(pbi).common),
    ensures
        final(bc).wf(),
        modes_fit(final(pbi).common),
        reach_ok(
            final(pbi).common.mip@,
            final(pbi).common.mb_rows as int,
            final(pbi).common.mb_cols as int,
            final(pbi).common.mb_rows as int,
            0,
        ),
        ({
            let (env, t) = mode_header(old(bc)@, env_of(*old(pbi)));
            let rows = old(pbi).common.mb_rows as int;
            let cols = old(pbi).common.mb_cols as int;
            &&& (final(pbi).common.mip@, final(bc)@) == modes_rows(
                t,
                old(pbi).common.mip@,
                env,
                rows,
                cols,
                rows,
            )
            &&& *final(pbi) == (Vp8dComp {
                prob_skip_false: env.prob_skip_false,
                prob_intra: env.prob_intra,
                prob_last: env.prob_last,
                prob_gf: env.prob_gf,
                common: Vp8Common {
                    mb_no_coeff_skip: env.mb_no_coeff_skip,
                    fc: env.fc,
                    mip: final(pbi).common.mip,
                    ..old(pbi).common
                },
                ..*old(pbi)
            })
            &&& env.mb_no_coeff_skip == 0 || env.mb_no_coeff_skip == 1
        }),
{
    let mut env = ModeEnv {
        frame_type: pbi.common.frame_type,
        segmentation_enabled: pbi.mb.segmentation_enabled,
        update_mb_segmentation_map: pbi.mb.update_mb_segmentation_map,
        mb_segment_tree_probs: pbi.mb.mb_segment_tree_probs,
        mb_no_coeff_skip: pbi.common.mb_no_coeff_skip,
        prob_skip_false: pbi.prob_skip_false,
        prob_intra: pbi.prob_intra,
        prob_last: pbi.prob_last,
        prob_gf: pbi.prob_gf,
        fc: pbi.common.fc,
        ref_frame_sign_bias: pbi.common.ref_frame_sign_bias,
    };
    mb_mode_mv_init(bc, &mut env);
    pbi.common.mb_no_coeff_skip = env.mb_no_coeff_skip;
    pbi.prob_skip_false = env.prob_skip_false;
    pbi.prob_intra = env.prob_intra;
    pbi.prob_last = env.prob_last;
    pbi.prob_gf = env.prob_gf;
    pbi.common.fc = env.fc;
    let rows: usize = pbi.common.mb_rows as usize;
    let cols: usize = pbi.common.mb_cols as usize;
    read_modes(bc, &mut pbi.common.mip, &env, rows, cols);
}

proof fn lemma_flag(t: BoolState, prob: int)
    ensures
        read_bool(t, prob).0 == 0 || read_bool(t, prob).0 == 1,
{
    reveal(read_bool);
}

/// Probability number `k` of a motion vector component stays as it was or is replaced: by twice the
/// seven bits that follow, or by one where they are zero, so that it is never zero.
pub proof fn law_mv_prob(t: BoolState, p: MvContext, up: MvContext, n: int, k: int)
    requires
        0 <= k < n <= 19,
    ensures
        ({
            let u = mv_context(t, p, up, k).1;
            let (b, v) = read_bool(u, up[k] as int);
            let x = read_literal(v, 7).0;
            &&& b == 0 ==> mv_context(t, p, up, n).0[k] == p[k]
            &&& b == 1 && x == 0 ==> mv_context(t, p, up, n).0[k] == 1
            &&& b == 1 && x > 0 ==> mv_context(t, p, up, n).0[k] == 2 * x
            &&& b == 0 || b == 1
            &&& 0 <= x <= 127
        }),
    decreases n,
{
    let u = mv_context(t, p, up, k).1;
    let v = read_bool(u, up[k] as int).1;
    lemma_flag(u, up[k] as int);
    law_literal_bounded(v, 7);
    lemma2_to64();
    if k < n - 1 {
        law_mv_prob(t, p, up, n - 1, k);
    } else {
        lemma_mv_later(t, p, up, k, k);
    }
}

proof fn lemma_mv_later(t: BoolState, p: MvContext, up: MvContext, n: int, k: int)
    requires
        0 <= n <= k < 19,
    ensures
        mv_context(t, p, up, n).0[k] == p[k],
    decreases n,
{
    if n > 0 {
        lemma_mv_later(t, p, up, n - 1, k);
    }
}

/// What is said before the modes of the macroblocks is said anew for each frame but for the
/// probabilities, which last: a frame without the flag for skipped macroblocks has none. A key
/// frame says nothing of other reference frames, and changes no probability of modes or vectors.
pub proof fn law_mode_header_anew(t: BoolState, a: ModeEnv, b: ModeEnv)
    requires
        a.frame_type == b.frame_type,
    ensures
        ({
            let (x, u) = mode_header(t, a);
            let (y, v) = mode_header(t, b);
            let (flag, t1) = read_bool(t, 128);
            &&& x.mb_no_coeff_skip == flag && y.mb_no_coeff_skip == flag
            &&& x.prob_skip_false == y.prob_skip_false
            &&& flag == 0 ==> x.prob_skip_false == 0
            &&& flag == 1 ==> x.prob_skip_false == read_literal(t1, 8).0
            &&& a.frame_type == FrameType::Key ==> {
                &&& u == v
                &&& x.fc == a.fc
                &&& x.prob_intra == a.prob_intra
                &&& x.prob_last == a.prob_last
                &&& x.prob_gf == a.prob_gf
            }
            &&& a.frame_type == FrameType::Inter ==> {
                &&& x.prob_intra == y.prob_intra
                &&& x.prob_last == y.prob_last
                &&& x.prob_gf == y.prob_gf
                &&& a.fc == b.fc ==> x.fc == y.fc && u == v
                &&& x.fc.bmode_prob == a.fc.bmode_prob
                &&& x.fc.coef_probs == a.fc.coef_probs
                &&& x.fc.sub_mv_ref_prob == a.fc.sub_mv_ref_prob
            }
            &&& x == (ModeEnv {
                mb_no_coeff_skip: x.mb_no_coeff_skip,
                prob_skip_false: x.prob_skip_false,
                prob_intra: x.prob_intra,
                prob_last: x.prob_last,
                prob_gf: x.prob_gf,
                fc: x.fc,
                ..a
            })
        }),
{
    reveal(mode_header);
    reveal(mode_probs);
    lemma2_to64();
    lemma_flag(t, 128);
    law_literal_bounded(read_bool(t, 128).1, 8);
}

/// New probabilities of luma and chroma modes come as a whole or not at all: without the flag all
/// of them stay, and with it each is the eight bits in its place.
pub proof fn law_mode_probs_last(t: BoolState, fc: FrameContext)
    ensures
        ({
            let (x, u) = mode_probs(t, fc);
            let (b, t1) = read_bool(t, 128);
            let t2 = if b == 0 {
                t1
            } else {
                read_literal(t1, 32).1
            };
            let (c, t3) = read_bool(t2, 128);
            &&& b == 0 ==> x.ymode_prob == fc.ymode_prob
            &&& b == 1 ==> forall|k: int|
                0 <= k < 4 ==> #[trigger] x.ymode_prob[k] == read_literal(
                    read_literal(t1, (8 * k) as nat).1,
                    8,
                ).0
            &&& c == 0 ==> x.uv_mode_prob == fc.uv_mode_prob
            &&& c == 1 ==> forall|k: int|
                0 <= k < 3 ==> #[trigger] x.uv_mode_prob[k] == read_literal(
                    read_literal(t3, (8 * k) as nat).1,
                    8,
                ).0
        }),
{
    reveal(mode_probs);
    let (b, t1) = read_bool(t, 128);
    lemma_flag(t, 128);
    if b != 0 {
        lemma_ymode_probs(t1, fc.ymode_prob, 4);
    }
    let t2 = if b != 0 {
        ymode_probs(t1, fc.ymode_prob, 4).1
    } else {
        t1
    };
    lemma_flag(t2, 128);
    let t3 = read_bool(t2, 128).1;
    lemma_uv_mode_probs(t3, fc.uv_mode_prob, 3);
}

proof fn lemma_ymode_probs(t: BoolState, p: [Prob; 4], n: int)
    requires
        0 <= n <= 4,
    ensures
        ymode_probs(t, p, n).1 == read_literal(t, (8 * n) as nat).1,
        forall|k: int|
            0 <= k < n ==> #[trigger] ymode_probs(t, p, n).0[k] == read_literal(
                read_literal(t, (8 * k) as nat).1,
                8,
            ).0,
    decreases n,
{
    if n > 0 {
        lemma_ymode_probs(t, p, n - 1);
        let u = ymode_probs(t, p, n - 1).1;
        law_literal_bounded(u, 8);
        lemma2_to64();
        law_literals_join(t, (8 * (n - 1)) as nat, 8);
        assert((8 * (n - 1)) as nat + 8 == (8 * n) as nat);
        let a = ymode_probs(t, p, n - 1).0;
        let b = ymode_probs(t, p, n).0;
        assert forall|k: int| 0 <= k < n implies #[trigger] b[k] == read_literal(
            read_literal(t, (8 * k) as nat).1,
            8,
        ).0 by {
            if k < n - 1 {
                assert(b[k] == a[k]);
            }
        }
    }
}

proof fn lemma_uv_mode_probs(t: BoolState, p: [Prob; 3], n: int)
    requires
        0 <= n <= 3,
    ensures
        uv_mode_probs(t, p, n).1 == read_literal(t, (8 * n) as nat).1,
        forall|k: int|
            0 <= k < n ==> #[trigger] uv_mode_probs(t, p, n).0[k] == read_literal(
                read_literal(t, (8 * k) as nat).1,
                8,
            ).0,
    decreases n,
{
    if n > 0 {
        lemma_uv_mode_probs(t, p, n - 1);
        let u = uv_mode_probs(t, p, n - 1).1;
        law_literal_bounded(u, 8);
        lemma2_to64();
        law_literals_join(t, (8 * (n - 1)) as nat, 8);
        assert((8 * (n - 1)) as nat + 8 == (8 * n) as nat);
        let a = uv_mode_probs(t, p, n - 1).0;
        let b = uv_mode_probs(t, p, n).0;
        assert forall|k: int| 0 <= k < n implies #[trigger] b[k] == read_literal(
            read_literal(t, (8 * k) as nat).1,
            8,
        ).0 by {
            if k < n - 1 {
                assert(b[k] == a[k]);
            }
        }
    }
}

proof fn lemma_cells_row(
    t: BoolState,
    g: ModeGrid,
    env: ModeEnv,
    rows: int,
    cols: int,
    r: int,
    n: int,
)
    requires
        is_rect(g, rows + 1, cols + 1),
        0 <= r < rows,
        0 <= n <= cols,
    ensures
        ({
            let h = modes_row(t, g, env, rows, cols, r, n).0;
            &&& is_rect(h, rows + 1, cols + 1)
            &&& forall|i: int, j: int|
                0 <= i <= rows && 0 <= j <= cols && (i != r + 1 || j == 0 || j > n)
                    ==> #[trigger] h[i][j] == g[i][j]
        }),
    decreases n,
{
    if n > 0 {
        lemma_cells_row(t, g, env, rows, cols, r, n - 1);
        let h = modes_row(t, g, env, rows, cols, r, n - 1).0;
        assert(h[r + 1].len() == cols + 1);
    }
}

proof fn lemma_cell_in_row(
    t: BoolState,
    g: ModeGrid,
    env: ModeEnv,
    rows: int,
    cols: int,
    r: int,
    n: int,
    c: int,
)
    requires
        is_rect(g, rows + 1, cols + 1),
        0 <= r < rows,
        0 <= c < n <= cols,
    ensures
        ({
            let h = modes_row(t, g, env, rows, cols, r, n).0;
            let u = modes_row(t, g, env, rows, cols, r, c).1;
            h[r + 1][c + 1] == mb_modes(
                u,
                g[r + 1][c + 1],
                h[r][c + 1],
                h[r + 1][c],
                h[r][c],
                env,
                edges_at(r, c, rows, cols),
            ).0
        }),
    decreases n,
{
    lemma_cells_row(t, g, env, rows, cols, r, n);
    lemma_cells_row(t, g, env, rows, cols, r, n - 1);
    let h = modes_row(t, g, env, rows, cols, r, n).0;
    let k = modes_row(t, g, env, rows, cols, r, n - 1).0;
    assert(k[r + 1].len() == cols + 1);
    assert(h[r][c + 1] == g[r][c + 1] && k[r][c + 1] == g[r][c + 1]);
    assert(h[r][c] == g[r][c] && k[r][c] == g[r][c]);
    if c < n - 1 {
        lemma_cell_in_row(t, g, env, rows, cols, r, n - 1, c);
    } else {
        assert(k[r + 1][n] == g[r + 1][n]);
    }
}

proof fn lemma_cells_rows(t: BoolState, g: ModeGrid, env: ModeEnv, rows: int, cols: int, n: int)
    requires
        is_rect(g, rows + 1, cols + 1),
        0 <= cols,
        0 <= n <= rows,
    ensures
        ({
            let h = modes_rows(t, g, env, rows, cols, n).0;
            &&& is_rect(h, rows + 1, cols + 1)
            &&& forall|i: int, j: int|
                0 <= i <= rows && 0 <= j <= cols && (i == 0 || j == 0 || i > n)
                    ==> #[trigger] h[i][j] == g[i][j]
        }),
    decreases n,
{
    if n > 0 {
        lemma_cells_rows(t, g, env, rows, cols, n - 1);
        let (h, u) = modes_rows(t, g, env, rows, cols, n - 1);
        lemma_cells_row(u, h, env, rows, cols, n - 1, cols);
    }
}

/// The modes of a frame are read row by row and from left to right in each row, each macroblock
/// once: with its own modes of the frame before, those of its neighbours above, to the left and
/// between them as they are in this frame, and its own distances from the edges. What lies outside
/// the frame stays as it was.
pub proof fn law_modes_in_order(
    t: BoolState,
    g: ModeGrid,
    env: ModeEnv,
    rows: int,
    cols: int,
    n: int,
    r: int,
    c: int,
)
    requires
        is_rect(g, rows + 1, cols + 1),
        0 <= r < n <= rows,
        0 <= c < cols,
    ensures
        ({
            let h = modes_rows(t, g, env, rows, cols, n).0;
            let (k, u) = modes_rows(t, g, env, rows, cols, r);
            let v = modes_row(u, k, env, rows, cols, r, c).1;
            h[r + 1][c + 1] == mb_modes(
                v,
                g[r + 1][c + 1],
                h[r][c + 1],
                h[r + 1][c],
                h[r][c],
                env,
                edges_at(r, c, rows, cols),
            ).0
        }),
        forall|i: int, j: int|
            0 <= i <= rows && 0 <= j <= cols && (i == 0 || j == 0) ==> #[trigger] modes_rows(
                t,
                g,
                env,
                rows,
                cols,
                n,
            ).0[i][j] == g[i][j],
    decreases n,
{
    lemma_cells_rows(t, g, env, rows, cols, n);
    lemma_cells_rows(t, g, env, rows, cols, n - 1);
    let (k, u) = modes_rows(t, g, env, rows, cols, n - 1);
    let h = modes_rows(t, g, env, rows, cols, n).0;
    lemma_cells_row(u, k, env, rows, cols, n - 1, cols);
    if r < n - 1 {
        law_modes_in_order(t, g, env, rows, cols, n - 1, r, c);
        assert(h[r + 1][c + 1] == k[r + 1][c + 1] && h[r][c + 1] == k[r][c + 1] && h[r + 1][c]
            == k[r + 1][c] && h[r][c] == k[r][c]);
    } else {
        lemma_cell_in_row(u, k, env, rows, cols, r, cols, c);
        assert(k[r + 1][c + 1] == g[r + 1][c + 1]);
    }
}

} // verus!
