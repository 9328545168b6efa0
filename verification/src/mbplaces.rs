//! What holds of a macroblock wherever it lies: which pixels its parts change, and by how much.

use crate::arith::clip;
use crate::dequantize::{dequantized, scaled, zeroed};
use crate::dequantizer::{qindex_of, steps};
use crate::detokenize::{law_token_total, Coeffs, TokenState};
use crate::framerows::{frame_env, filter_started, rows_end, rows_start};
use crate::dboolhuff::{overrun, BoolState};
use crate::idct_blk::{add_block, add_blocks, Residual};
use crate::idctllm::{dc_residual, idct_at, set_dcs, walsh, walsh_at, walsh_dc};
use crate::intramode::intra_b;
use crate::intrapred::{b_pixel, square_pixel};
use crate::macroblock::{
    luma_residual, mb_decode, mb_intra, mb_residual, mb_steps, mb_tokens, second_order,
    subblocks, MbEnv, MbState, RefPics,
};
use crate::mbrows::{all_rows, frame_rows, one_row, FrameEnv, RowState};
use crate::reconinter::{chroma_at, luma_at};
use crate::reconintra::{edge_of, left_of, shape_of};
use crate::reconintra4x4::intra4;
use crate::setupintrarecon::top_lines;
use crate::types::{
    BModeInfo, EntropyContextPlanes, Macroblockd, MbModeInfo, MbPredictionMode, ModeInfo,
    Vp8Common, Vp8dComp, Yuv,
};
use crate::vp8_loopfilter::ModeGrid;
use vstd::prelude::*;

verus! {

/// What block `blk` adds to the pixel in its row `a` and column `b`: the inverse transform of its
/// coefficients, each times its step, or the same for all pixels where there is the first one only.
pub open spec fn added_at(q: Coeffs, dq: [i16; 16], eob: int, blk: int, a: int, b: int) -> int {
    if eob > 1 {
        idct_at(dequantized(q, 16 * blk, dq), a, b) as int
    } else {
        dc_residual(scaled(q[16 * blk], dq[0]) as int)
    }
}

proof fn lemma_zeroed(q: Coeffs, base: int, n: int, i: int)
    requires
        0 <= base,
        base + n <= 400,
        0 <= i < 400,
    ensures
        zeroed(q, base, n)[i] == (if base <= i < base + n {
            0
        } else {
            q[i]
        }),
    decreases n,
{
    if n > 0 {
        lemma_zeroed(q, base, n - 1, i);
    }
}

proof fn lemma_blocks_coeffs(
    s: Residual,
    dq: [i16; 16],
    eobs: [i8; 25],
    first: int,
    across: int,
    n: int,
    r0: int,
    c0: int,
    i: int,
)
    requires
        0 <= first,
        0 <= n,
        first + n <= 24,
        0 <= i < 400,
        i < 16 * first || 16 * (first + n) <= i,
    ensures
        add_blocks(s, dq, eobs, first, across, n, r0, c0).q[i] == s.q[i],
    decreases n,
{
    if n > 0 {
        let k = n - 1;
        lemma_blocks_coeffs(s, dq, eobs, first, across, k, r0, c0, i);
        let u = add_blocks(s, dq, eobs, first, across, k, r0, c0);
        lemma_zeroed(u.q, 16 * (first + k), 16, i);
        lemma_zeroed(u.q, 16 * (first + k), 2, i);
    }
}

/// Adding a block changes its own sixteen pixels, each by what the block adds there, and no others.
pub proof fn law_block_adds(
    s: Residual,
    dq: [i16; 16],
    blk: int,
    eob: int,
    r0: int,
    c0: int,
    i: int,
    j: int,
)
    requires
        0 <= i < s.p.len(),
        0 <= j < s.p[i].len(),
    ensures
        ({
            let p = add_block(s, dq, blk, eob, r0, c0).p;
            &&& p.len() == s.p.len()
            &&& p[i].len() == s.p[i].len()
            &&& p[i][j] == (if r0 <= i < r0 + 4 && c0 <= j < c0 + 4 {
                clip(s.p[i][j] + added_at(s.q, dq, eob, blk, i - r0, j - c0))
            } else {
                s.p[i][j]
            })
        }),
{
}

proof fn lemma_place(k: int, i: int, j: int, across: int)
    requires
        across == 2 || across == 4,
        0 <= k < across * across,
        0 <= i < 4 * across,
        0 <= j < 4 * across,
    ensures
        4 * (k / across) <= i < 4 * (k / across) + 4 && 4 * (k % across) <= j < 4 * (k % across)
            + 4 <==> k == across * (i / 4) + j / 4,
{
    if across == 2 {
        assert(k / 2 == i / 4 && k % 2 == j / 4 <==> k == 2 * (i / 4) + j / 4);
    } else {
        assert(k / 4 == i / 4 && k % 4 == j / 4 <==> k == 4 * (i / 4) + j / 4);
    }
}

/// The pixel in row `i` and column `j` of a square of blocks gets what the block at its place adds,
/// and every block adds what its own coefficients say, whatever the other blocks hold.
pub proof fn law_blocks_add(
    s: Residual,
    dq: [i16; 16],
    eobs: [i8; 25],
    first: int,
    across: int,
    n: int,
    r0: int,
    c0: int,
    i: int,
    j: int,
)
    requires
        across == 2 || across == 4,
        0 <= n <= across * across,
        0 <= first,
        first + across * across <= 24,
        0 <= i < 4 * across,
        0 <= j < 4 * across,
        0 <= r0,
        0 <= c0,
        r0 + i < s.p.len(),
        c0 + j < s.p[r0 + i].len(),
    ensures
        ({
            let p = add_blocks(s, dq, eobs, first, across, n, r0, c0).p;
            let k = across * (i / 4) + j / 4;
            &&& p.len() == s.p.len()
            &&& p[r0 + i].len() == s.p[r0 + i].len()
            &&& p[r0 + i][c0 + j] == (if k < n {
                clip(
                    s.p[r0 + i][c0 + j] + added_at(
                        s.q,
                        dq,
                        eobs[first + k] as int,
                        first + k,
                        i % 4,
                        j % 4,
                    ),
                )
            } else {
                s.p[r0 + i][c0 + j]
            })
        }),
    decreases n,
{
    if n > 0 {
        let k = n - 1;
        law_blocks_add(s, dq, eobs, first, across, k, r0, c0, i, j);
        let u = add_blocks(s, dq, eobs, first, across, k, r0, c0);
        let (r, c) = (r0 + 4 * (k / across), c0 + 4 * (k % across));
        let blk = first + k;
        law_block_adds(u, dq, blk, eobs[blk] as int, r, c, r0 + i, c0 + j);
        lemma_place(k, i, j, across);
        if k == across * (i / 4) + j / 4 {
            assert forall|x: int| 16 * blk <= x < 16 * blk + 16 implies u.q[x] == s.q[x] by {
                lemma_blocks_coeffs(s, dq, eobs, first, across, k, r0, c0, x);
            }
            assert(dequantized(u.q, 16 * blk, dq) =~= dequantized(s.q, 16 * blk, dq));
            assert(u.q[16 * blk] == s.q[16 * blk]);
            assert(r0 + i - r == i % 4 && c0 + j - c == j % 4) by {
                if across == 2 {
                    assert(k / 2 == i / 4 && k % 2 == j / 4);
                } else {
                    assert(k / 4 == i / 4 && k % 4 == j / 4);
                }
            }
        }
    }
}

proof fn lemma_set_dcs(q: Coeffs, n: int, f: spec_fn(int) -> i16, i: int)
    requires
        0 <= n <= 16,
        0 <= i < 400,
    ensures
        set_dcs(q, n, f)[i] == (if i % 16 == 0 && i < 16 * n {
            f(i / 16)
        } else {
            q[i]
        }),
    decreases n,
{
    if n > 0 {
        lemma_set_dcs(q, n - 1, f, i);
    }
}

/// The second order block gives every luma block its first coefficient, block by block in rows of
/// four: all of them the same where it has a first coefficient only. It is used up by that, and
/// nothing else changes.
pub proof fn law_second_order(mb: Macroblockd, i: int)
    requires
        0 <= i < 400,
    ensures
        ({
            let q = second_order(mb);
            let dc = scaled(mb.qcoeff[384], mb.dequant_y2[0]) as int;
            let all = dequantized(mb.qcoeff, 384, mb.dequant_y2);
            &&& i < 256 && i % 16 == 0 && mb.eobs[24] > 1 ==> q[i] == walsh_at(
                all,
                i / 64,
                (i / 16) % 4,
            )
            &&& i < 256 && i % 16 == 0 && mb.eobs[24] <= 1 ==> q[i] == ((dc + 3) / 8) as i16
            &&& i < 256 && i % 16 != 0 ==> q[i] == mb.qcoeff[i]
            &&& 256 <= i < 384 ==> q[i] == mb.qcoeff[i]
            &&& 384 <= i && mb.eobs[24] > 1 ==> q[i] == 0
            &&& 384 <= i < 386 ==> q[i] == 0
        }),
{
    let all = dequantized(mb.qcoeff, 384, mb.dequant_y2);
    let dc = scaled(mb.qcoeff[384], mb.dequant_y2[0]) as int;
    let a = walsh(mb.qcoeff, all);
    let b = walsh_dc(mb.qcoeff, dc);
    lemma_zeroed(a, 384, 16, i);
    lemma_zeroed(b, 384, 2, i);
    lemma_set_dcs(mb.qcoeff, 16, |k: int| walsh_at(all, k / 4, k % 4), i);
    lemma_set_dcs(mb.qcoeff, 16, |k: int| ((dc + 3) / 8) as i16, i);
    assert((i / 16) / 4 == i / 64);
}

/// What is left of the residual after prediction is added wherever the macroblock lies: the four
/// blocks of each chroma plane to its eight rows and columns. A macroblock without coefficients
/// stays as predicted.
pub proof fn law_chroma_residual(
    mb: Macroblockd,
    mi: ModeInfo,
    d: Yuv,
    r: int,
    c: int,
    i: int,
    j: int,
)
    requires
        0 <= r,
        0 <= c,
        0 <= i < 8,
        0 <= j < 8,
        16 + 8 * r + i < d.u.len(),
        16 + 8 * c + j < d.u[16 + 8 * r + i].len(),
        16 + 8 * r + i < d.v.len(),
        16 + 8 * c + j < d.v[16 + 8 * r + i].len(),
    ensures
        mi.mbmi.mb_skip_coeff ==> mb_residual(mb, mi, d, r, c) == (mb, d),
        !mi.mbmi.mb_skip_coeff ==> {
            let e = mb_residual(mb, mi, d, r, c).1;
            let (y, x) = (16 + 8 * r + i, 16 + 8 * c + j);
            let k = 2 * (i / 4) + j / 4;
            &&& e.u[y][x] == clip(
                d.u[y][x] + added_at(
                    mb.qcoeff,
                    mb.dequant_uv,
                    mb.eobs[16 + k] as int,
                    16 + k,
                    i % 4,
                    j % 4,
                ),
            )
            &&& e.v[y][x] == clip(
                d.v[y][x] + added_at(
                    mb.qcoeff,
                    mb.dequant_uv,
                    mb.eobs[20 + k] as int,
                    20 + k,
                    i % 4,
                    j % 4,
                ),
            )
        },
{
    reveal(mb_residual);
    if !mi.mbmi.mb_skip_coeff {
        let y = if mi.mbmi.mode != MbPredictionMode::BPred {
            luma_residual(mb, mi.mbmi.mode, d, r, c)
        } else {
            Residual { p: d.y, q: mb.qcoeff }
        };
        assert forall|x: int| 256 <= x < 384 implies y.q[x] == mb.qcoeff[x] by {
            law_second_order(mb, x);
            lemma_blocks_coeffs(
                Residual { p: d.y, q: second_order(mb) },
                mb.dequant_y1_dc,
                mb.eobs,
                0,
                4,
                16,
                luma_at(r),
                luma_at(c),
                x,
            );
            lemma_blocks_coeffs(
                Residual { p: d.y, q: mb.qcoeff },
                mb.dequant_y1,
                mb.eobs,
                0,
                4,
                16,
                luma_at(r),
                luma_at(c),
                x,
            );
        }
        let (r0, c0) = (chroma_at(r), chroma_at(c));
        let us = Residual { p: d.u, q: y.q };
        let u = add_blocks(us, mb.dequant_uv, mb.eobs, 16, 2, 4, r0, c0);
        let vs = Residual { p: d.v, q: u.q };
        law_blocks_add(us, mb.dequant_uv, mb.eobs, 16, 2, 4, r0, c0, i, j);
        law_blocks_add(vs, mb.dequant_uv, mb.eobs, 20, 2, 4, r0, c0, i, j);
        let k = 2 * (i / 4) + j / 4;
        assert forall|x: int| 320 <= x < 384 implies u.q[x] == mb.qcoeff[x] by {
            lemma_blocks_coeffs(us, mb.dequant_uv, mb.eobs, 16, 2, 4, r0, c0, x);
        }
        assert(dequantized(y.q, 16 * (16 + k), mb.dequant_uv) =~= dequantized(
            mb.qcoeff,
            16 * (16 + k),
            mb.dequant_uv,
        ));
        assert(dequantized(u.q, 16 * (20 + k), mb.dequant_uv) =~= dequantized(
            mb.qcoeff,
            16 * (20 + k),
            mb.dequant_uv,
        ));
    }
}

/// The luma residual of a macroblock with several vectors comes from its own blocks, and that of
/// any other one without subblock modes from blocks whose first coefficients the second order block
/// gives.
pub proof fn law_luma_residual(
    mb: Macroblockd,
    mi: ModeInfo,
    d: Yuv,
    r: int,
    c: int,
    i: int,
    j: int,
)
    requires
        !mi.mbmi.mb_skip_coeff,
        0 <= r,
        0 <= c,
        0 <= i < 16,
        0 <= j < 16,
        32 + 16 * r + i < d.y.len(),
        32 + 16 * c + j < d.y[32 + 16 * r + i].len(),
    ensures
        ({
            let e = mb_residual(mb, mi, d, r, c).1;
            let (y, x) = (32 + 16 * r + i, 32 + 16 * c + j);
            let k = 4 * (i / 4) + j / 4;
            &&& mi.mbmi.mode == MbPredictionMode::BPred ==> e.y == d.y
            &&& mi.mbmi.mode == MbPredictionMode::SplitMv ==> e.y[y][x] == clip(
                d.y[y][x] + added_at(
                    mb.qcoeff,
                    mb.dequant_y1,
                    mb.eobs[k] as int,
                    k,
                    i % 4,
                    j % 4,
                ),
            )
            &&& mi.mbmi.mode != MbPredictionMode::BPred && mi.mbmi.mode
                != MbPredictionMode::SplitMv ==> e.y[y][x] == clip(
                d.y[y][x] + added_at(
                    second_order(mb),
                    mb.dequant_y1_dc,
                    mb.eobs[k] as int,
                    k,
                    i % 4,
                    j % 4,
                ),
            )
        }),
{
    reveal(mb_residual);
    let (r0, c0) = (luma_at(r), luma_at(c));
    law_blocks_add(
        Residual { p: d.y, q: second_order(mb) },
        mb.dequant_y1_dc,
        mb.eobs,
        0,
        4,
        16,
        r0,
        c0,
        i,
        j,
    );
    law_blocks_add(
        Residual { p: d.y, q: mb.qcoeff },
        mb.dequant_y1,
        mb.eobs,
        0,
        4,
        16,
        r0,
        c0,
        i,
        j,
    );
}

/// A macroblock that is predicted from its own frame takes the pixels next to it wherever it lies,
/// those above unless it is in the first row and those to the left unless it is in the first
/// column.
pub proof fn law_intra_pixels(
    mb: Macroblockd,
    mi: ModeInfo,
    d: Yuv,
    r: int,
    c: int,
    i: int,
    j: int,
    x: int,
    y: int,
)
    requires
        0 <= r,
        0 <= c,
        0 <= i < 16,
        0 <= j < 16,
        32 + 16 * r + i < d.y.len(),
        32 + 16 * c + j < d.y[32 + 16 * r + i].len(),
        0 <= y < 8,
        0 <= x < 8,
        16 + 8 * r + y < d.u.len(),
        16 + 8 * c + x < d.u[16 + 8 * r + y].len(),
        16 + 8 * r + y < d.v.len(),
        16 + 8 * c + x < d.v[16 + 8 * r + y].len(),
    ensures
        ({
            let e = mb_intra(mb, mi, d, r, c).1;
            let (a, b) = (32 + 16 * r, 32 + 16 * c);
            let (m, n) = (16 + 8 * r, 16 + 8 * c);
            let uv = shape_of(mi.mbmi.uv_mode, r != 0, c != 0);
            &&& mi.mbmi.mode != MbPredictionMode::BPred ==> e.y[a + i][b + j] == square_pixel(
                16,
                shape_of(mi.mbmi.mode, r != 0, c != 0),
                edge_of(d.y, a, b, 16),
                left_of(d.y, a, b, 16),
                i,
                j,
            )
            &&& e.u[m + y][n + x] == square_pixel(
                8,
                uv,
                edge_of(d.u, m, n, 8),
                left_of(d.u, m, n, 8),
                y,
                x,
            )
            &&& e.v[m + y][n + x] == square_pixel(
                8,
                uv,
                edge_of(d.v, m, n, 8),
                left_of(d.v, m, n, 8),
                y,
                x,
            )
        }),
{
    reveal(mb_intra);
}

/// What is read for a macroblock has nothing to do with where it lies or with what the picture
/// holds: the reader, the contexts and the modes come out the same.
pub proof fn law_tokens_anywhere(
    s: MbState,
    t: MbState,
    env: MbEnv,
    a: RefPics,
    b: RefPics,
    r: int,
    c: int,
    rows: int,
    cols: int,
    y: int,
    x: int,
)
    requires
        t == (MbState { d: t.d, ..s }),
    ensures
        ({
            let u = mb_decode(s, env, a, r, c, rows, cols);
            let v = mb_decode(t, env, b, y, x, rows, cols);
            u.t == v.t && u.above == v.above && u.left == v.left && u.mi == v.mi
        }),
{
    reveal(mb_decode);
    reveal(mb_tokens);
}

/// A macroblock without coefficients reads nothing and clears its contexts, but a split one leaves
/// the second order context alone; after the end of the data nothing is read, and contexts stay.
pub proof fn law_nothing_to_read(
    s: MbState,
    env: MbEnv,
    refs: RefPics,
    r: int,
    c: int,
    rows: int,
    cols: int,
    k: int,
)
    requires
        0 <= k < 9,
    ensures
        ({
            let u = mb_decode(s, env, refs, r, c, rows, cols);
            &&& s.mi.mbmi.mb_skip_coeff ==> {
                &&& u.t == s.t
                &&& u.mi == s.mi
                &&& k < 8 || !s.mi.mbmi.is_4x4 ==> u.above.ctx[k] == 0 && u.left.ctx[k] == 0
                &&& k == 8 && s.mi.mbmi.is_4x4 ==> u.above.ctx[k] == s.above.ctx[k]
                    && u.left.ctx[k] == s.left.ctx[k]
            }
            &&& !s.mi.mbmi.mb_skip_coeff && overrun(s.t) ==> {
                &&& u.t == s.t
                &&& u.mi == s.mi
                &&& u.above == s.above
                &&& u.left == s.left
            }
        }),
{
    reveal(mb_decode);
    reveal(mb_tokens);
}

/// The steps of a macroblock are those of its own segment where the frame has segments, and else
/// those that were set for the frame.
pub proof fn law_steps_by_segment(mb: Macroblockd, mi: ModeInfo, env: MbEnv)
    ensures
        mb.segmentation_enabled == 0 ==> mb_steps(mb, mi, env) == mb,
        mb.segmentation_enabled != 0 ==> {
            let q = qindex_of(mb, env.base, mi.mbmi.segment_id as int);
            let m = mb_steps(mb, mi, env);
            &&& m.dequant_y1 == steps(env.y1[q][0], env.y1[q][1])
            &&& m.dequant_y1_dc == steps(1, env.y1[q][1])
            &&& m.dequant_y2 == steps(env.y2[q][0], env.y2[q][1])
            &&& m.dequant_uv == steps(env.uv[q][0], env.uv[q][1])
        },
{
}

/// Every row starts without contexts to its left, whatever the row before left behind.
pub proof fn law_row_starts_anew(s: RowState, f: FrameEnv, r: int, left: EntropyContextPlanes)
    ensures
        one_row(RowState { left, ..s }, f, r) == one_row(s, f, r),
{
    reveal(one_row);
}

/// A frame starts without contexts to the left of its first row, whatever the frame before left
/// behind.
pub proof fn law_frame_starts_anew(
    p: Vp8dComp,
    q: Vp8dComp,
    g: ModeGrid,
    above: Seq<EntropyContextPlanes>,
    ts: Seq<BoolState>,
)
    requires
        q == (Vp8dComp {
            common: Vp8Common { left_context: q.common.left_context, ..p.common },
            ..p
        }),
        p.common.mb_rows >= 1,
    ensures
        rows_end(p, g, above, ts) == rows_end(q, g, above, ts),
{
    reveal(rows_end);
    reveal(frame_rows);
    let f = frame_env(filter_started(p));
    assert(frame_env(filter_started(q)) == f);
    let s = rows_start(p, g, above, ts);
    let s1 = RowState { d: top_lines(s.d, f.cols), ..s };
    lemma_rows_anew(s1, f, f.rows, q.common.left_context);
}

proof fn lemma_rows_anew(s: RowState, f: FrameEnv, n: int, left: EntropyContextPlanes)
    requires
        1 <= n,
    ensures
        all_rows(RowState { left, ..s }, f, n) == all_rows(s, f, n),
    decreases n,
{
    let t = RowState { left, ..s };
    if n == 1 {
        assert(all_rows(s, f, 0) == s);
        assert(all_rows(t, f, 0) == t);
        law_row_starts_anew(s, f, 0, left);
    } else {
        lemma_rows_anew(s, f, n - 1, left);
    }
}

/// The subblock that is predicted and completed in step `k` of a macroblock with subblock modes:
/// each of its pixels is what its mode makes of the pixels around it as they are then, and what its
/// coefficients add.
pub proof fn law_subblock_step(
    s: Residual,
    dq: [i16; 16],
    eobs: [i8; 25],
    bmi: [BModeInfo; 16],
    r0: int,
    c0: int,
    k: int,
    i: int,
    j: int,
)
    requires
        0 <= k < 16,
        0 <= i < subblocks(s, dq, eobs, bmi, r0, c0, k).p.len(),
        0 <= j < subblocks(s, dq, eobs, bmi, r0, c0, k).p[i].len(),
    ensures
        ({
            let u = subblocks(s, dq, eobs, bmi, r0, c0, k);
            let v = subblocks(s, dq, eobs, bmi, r0, c0, k + 1);
            let (r, c) = (r0 + 4 * (k / 4), c0 + 4 * (k % 4));
            let pred = b_pixel(
                intra_b(bmi[k]),
                edge_of(u.p, r, c, 8),
                left_of(u.p, r, c, 4),
                i - r,
                j - c,
            );
            &&& v.p.len() == u.p.len()
            &&& v.p[i].len() == u.p[i].len()
            &&& v.p[i][j] == (if r <= i < r + 4 && c <= j < c + 4 {
                if eobs[k] == 0 {
                    pred
                } else {
                    clip(pred + added_at(u.q, dq, eobs[k] as int, k, i - r, j - c))
                }
            } else {
                u.p[i][j]
            })
        }),
{
    let u = subblocks(s, dq, eobs, bmi, r0, c0, k);
    let (r, c) = (r0 + 4 * (k / 4), c0 + 4 * (k % 4));
    let w = Residual { p: intra4(u.p, r, c, intra_b(bmi[k])), ..u };
    law_block_adds(w, dq, k, eobs[k] as int, r, c, i, j);
}

proof fn lemma_subblock_coeffs(
    s: Residual,
    dq: [i16; 16],
    eobs: [i8; 25],
    bmi: [BModeInfo; 16],
    r0: int,
    c0: int,
    n: int,
    x: int,
)
    requires
        0 <= n <= 16,
        16 * n <= x < 400,
    ensures
        subblocks(s, dq, eobs, bmi, r0, c0, n).q[x] == s.q[x],
    decreases n,
{
    if n > 0 {
        lemma_subblock_coeffs(s, dq, eobs, bmi, r0, c0, n - 1, x);
        let u = subblocks(s, dq, eobs, bmi, r0, c0, n - 1);
        lemma_zeroed(u.q, 16 * (n - 1), 16, x);
        lemma_zeroed(u.q, 16 * (n - 1), 2, x);
    }
}

/// A subblock that is done is done: nothing that is predicted or added for later subblocks changes
/// its pixels, and each takes its own coefficients.
pub proof fn law_subblocks_stay(
    s: Residual,
    dq: [i16; 16],
    eobs: [i8; 25],
    bmi: [BModeInfo; 16],
    r0: int,
    c0: int,
    k: int,
    n: int,
    i: int,
    j: int,
    x: int,
)
    requires
        0 <= k < n <= 16,
        0 <= r0,
        0 <= c0,
        r0 + 16 <= s.p.len(),
        forall|m: int| 0 <= m < s.p.len() ==> c0 + 16 <= (#[trigger] s.p[m]).len(),
        4 * (k / 4) <= i < 4 * (k / 4) + 4,
        4 * (k % 4) <= j < 4 * (k % 4) + 4,
        16 * k <= x < 400,
    ensures
        subblocks(s, dq, eobs, bmi, r0, c0, n).p[r0 + i][c0 + j] == subblocks(
            s,
            dq,
            eobs,
            bmi,
            r0,
            c0,
            k + 1,
        ).p[r0 + i][c0 + j],
        subblocks(s, dq, eobs, bmi, r0, c0, k).q[x] == s.q[x],
    decreases n,
{
    lemma_subblock_coeffs(s, dq, eobs, bmi, r0, c0, k, x);
    if k < n - 1 {
        let m = n - 1;
        law_subblocks_stay(s, dq, eobs, bmi, r0, c0, k, m, i, j, x);
        lemma_subblock_sizes(s, dq, eobs, bmi, r0, c0, m, r0 + i);
        law_subblock_step(s, dq, eobs, bmi, r0, c0, m, r0 + i, c0 + j);
        assert(m / 4 != k / 4 || m % 4 != k % 4);
    }
}

proof fn lemma_subblock_sizes(
    s: Residual,
    dq: [i16; 16],
    eobs: [i8; 25],
    bmi: [BModeInfo; 16],
    r0: int,
    c0: int,
    n: int,
    i: int,
)
    requires
        0 <= n <= 16,
        0 <= i < s.p.len(),
    ensures
        subblocks(s, dq, eobs, bmi, r0, c0, n).p.len() == s.p.len(),
        subblocks(s, dq, eobs, bmi, r0, c0, n).p[i].len() == s.p[i].len(),
    decreases n,
{
    if n > 0 {
        lemma_subblock_sizes(s, dq, eobs, bmi, r0, c0, n - 1, i);
    }
}

/// A macroblock whose coefficients are read counts afterwards as one without them exactly where no
/// block has any. Nothing else of its modes changes.
pub proof fn law_skip_follows_coefficients(
    s: MbState,
    env: MbEnv,
    refs: RefPics,
    r: int,
    c: int,
    rows: int,
    cols: int,
)
    requires
        !s.mi.mbmi.mb_skip_coeff,
        !overrun(s.t),
    ensures
        ({
            let e = mb_tokens(s, env.fc).mb.eobs;
            let m = mb_decode(s, env, refs, r, c, rows, cols).mi;
            let first: int = if s.mi.mbmi.is_4x4 {
                0
            } else {
                1
            };
            &&& m.mbmi.mb_skip_coeff <==> {
                &&& forall|i: int| 0 <= i < 16 ==> #[trigger] e[i] == first
                &&& forall|i: int| 16 <= i < 24 ==> #[trigger] e[i] == 0
                &&& s.mi.mbmi.is_4x4 || e[24] == 0
            }
            &&& m == (ModeInfo {
                mbmi: MbModeInfo { mb_skip_coeff: m.mbmi.mb_skip_coeff, ..s.mi.mbmi },
                ..s.mi
            })
        }),
{
    reveal(mb_decode);
    reveal(mb_tokens);
    law_token_total(
        TokenState {
            above: s.above,
            left: s.left,
            q: s.mb.qcoeff,
            eobs: s.mb.eobs,
            total: 0,
            s: s.t,
        },
        env.fc.coef_probs,
        s.mi.mbmi.is_4x4,
    );
}

/// A macroblock without coefficients is what its prediction makes of it.
pub proof fn law_prediction_alone(mb: Macroblockd, mi: ModeInfo, d: Yuv, r: int, c: int)
    requires
        mi.mbmi.mb_skip_coeff,
    ensures
        mb_residual(mb, mi, d, r, c) == (mb, d),
{
    reveal(mb_residual);
}

} // verus!
