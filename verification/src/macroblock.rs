//! The reconstruction of one macroblock.

use crate::dboolhuff::{overrun, vp8dx_bool_error, BoolState, Vp8Reader};
use crate::dequantize::{clear_coeffs, dequantized, scale, scaled, vp8_dequantize_b_c, zeroed};
use crate::dequantizer::{qindex_of, vp8_mb_init_dequantizer, with_steps, StepTable};
use crate::detokenize::{
    cleared, law_contexts_stay_flags, token_mb, vp8_decode_mb_tokens,
    vp8_reset_mb_tokens_context, Coeffs, TokenState,
};
use crate::grid::Plane;
use crate::idct_blk::{
    add_block, add_blocks, add_one_block, vp8_dequant_idct_add_uv_block_c,
    vp8_dequant_idct_add_y_block_c, Residual,
};
use crate::idctllm::{vp8_short_inv_walsh4x4_1_c, vp8_short_inv_walsh4x4_c, walsh, walsh_dc};
use crate::intramode::intra_b;
use crate::mbmodes::inter_ok;
use crate::reconinter::{chroma_at, inter_mb, luma_at, mask_ok, vp8_build_inter_predictors_mb};
use crate::reconintra::{
    intra_square, vp8_build_intra_predictors_mbuv_s, vp8_build_intra_predictors_mby_s,
};
use crate::reconintra4x4::{down_copy, intra4, intra_prediction_down_copy, vp8_intra4x4_predict};
use crate::types::{
    edges_at, mb_edges, BModeInfo, BPredictionMode, EntropyContextPlanes, FrameContext,
    FramePlanes, Macroblockd, MbEdges, MbModeInfo, MbPredictionMode, ModeInfo, MvReferenceFrame,
    Yuv,
};
use vstd::array::spec_array_fill_for_copy_type;
use vstd::prelude::*;

verus! {

/// What the decoding of a macroblock works on: the reader of its coefficients, the contexts
/// above and to the left, its working area, its modes, and the picture.
#[verifier::ext_equal]
pub struct MbState {
    pub t: BoolState,
    pub above: EntropyContextPlanes,
    pub left: EntropyContextPlanes,
    pub mb: Macroblockd,
    pub mi: ModeInfo,
    pub d: Yuv,
}

/// The pictures of the reference frames.
pub struct RefPics {
    pub last: Yuv,
    pub golden: Yuv,
    pub altref: Yuv,
}

/// The picture of one reference frame.
pub open spec fn ref_pic(refs: RefPics, f: MvReferenceFrame) -> Yuv {
    match f {
        MvReferenceFrame::Golden => refs.golden,
        MvReferenceFrame::Altref => refs.altref,
        _ => refs.last,
    }
}

/// What a frame gives to all of its macroblocks: its probabilities and its quantizer steps.
pub struct MbEnv {
    pub fc: FrameContext,
    pub y1: StepTable,
    pub y2: StepTable,
    pub uv: StepTable,
    pub base: int,
}

/// Reads the coefficients of a macroblock. Nothing is read where it has none, or after the end
/// of the data.
#[verifier::opaque]
pub open spec fn mb_tokens(s: MbState, fc: FrameContext) -> MbState {
    if s.mi.mbmi.mb_skip_coeff {
        MbState {
            above: cleared(s.above, s.mi.mbmi.is_4x4),
            left: cleared(s.left, s.mi.mbmi.is_4x4),
            ..s
        }
    } else if !overrun(s.t) {
        let u = token_mb(
            TokenState {
                above: s.above,
                left: s.left,
                q: s.mb.qcoeff,
                eobs: s.mb.eobs,
                total: 0,
                s: s.t,
            },
            fc.coef_probs,
            s.mi.mbmi.is_4x4,
        );
        MbState {
            t: u.s,
            above: u.above,
            left: u.left,
            mb: Macroblockd { qcoeff: u.q, eobs: u.eobs, ..s.mb },
            mi: ModeInfo {
                mbmi: MbModeInfo { mb_skip_coeff: u.total == 0, ..s.mi.mbmi },
                ..s.mi
            },
            ..s
        }
    } else {
        s
    }
}

/// Sets the quantizer steps where they can differ from macroblock to macroblock.
pub open spec fn mb_steps(mb: Macroblockd, mi: ModeInfo, env: MbEnv) -> Macroblockd {
    if mb.segmentation_enabled != 0 {
        with_steps(
            mb,
            env.y1,
            env.y2,
            env.uv,
            qindex_of(mb, env.base, mi.mbmi.segment_id as int),
        )
    } else {
        mb
    }
}

/// The first `n` subblocks of the macroblock at `(r0, c0)`, each predicted from its neighbours
/// and completed by its residual before the next one.
pub open spec fn subblocks(
    s: Residual,
    dq: [i16; 16],
    eobs: [i8; 25],
    bmi: [BModeInfo; 16],
    r0: int,
    c0: int,
    n: int,
) -> Residual
    decreases n,
{
    if n <= 0 {
        s
    } else {
        let k = n - 1;
        let u = subblocks(s, dq, eobs, bmi, r0, c0, k);
        let r = r0 + 4 * (k / 4);
        let c = c0 + 4 * (k % 4);
        let v = Residual { p: intra4(u.p, r, c, intra_b(bmi[k])), ..u };
        if eobs[k] != 0 {
            add_block(v, dq, k, eobs[k] as int, r, c)
        } else {
            v
        }
    }
}

/// The end positions of the blocks; there are none in a macroblock without coefficients.
pub open spec fn eobs_of(mb: Macroblockd, skip: bool) -> [i8; 25] {
    if skip {
        spec_array_fill_for_copy_type::<i8, 25>(0)
    } else {
        mb.eobs
    }
}

/// The macroblock in row `r` and column `c` predicted from its neighbours in the same frame.
/// Where every subblock has a mode of its own, the luma residual is added too.
#[verifier::opaque]
pub open spec fn mb_intra(mb: Macroblockd, mi: ModeInfo, d: Yuv, r: int, c: int) -> (
    Macroblockd,
    Yuv,
) {
    let up = r > 0;
    let left = c > 0;
    let u = intra_square(d.u, chroma_at(r), chroma_at(c), 8, mi.mbmi.uv_mode, up, left);
    let v = intra_square(d.v, chroma_at(r), chroma_at(c), 8, mi.mbmi.uv_mode, up, left);
    if mi.mbmi.mode != MbPredictionMode::BPred {
        (
            mb,
            Yuv {
                y: intra_square(d.y, luma_at(r), luma_at(c), 16, mi.mbmi.mode, up, left),
                u,
                v,
            },
        )
    } else {
        let eobs = eobs_of(mb, mi.mbmi.mb_skip_coeff);
        let s = subblocks(
            Residual { p: down_copy(d.y, luma_at(r), luma_at(c)), q: mb.qcoeff },
            mb.dequant_y1,
            eobs,
            mi.bmi,
            luma_at(r),
            luma_at(c),
            16,
        );
        (Macroblockd { eobs, qcoeff: s.q, ..mb }, Yuv { y: s.p, u, v })
    }
}

/// The luma DC coefficients from the second order block, which is cleared.
pub open spec fn second_order(mb: Macroblockd) -> Coeffs {
    if mb.eobs[24] > 1 {
        zeroed(walsh(mb.qcoeff, dequantized(mb.qcoeff, 384, mb.dequant_y2)), 384, 16)
    } else {
        zeroed(
            walsh_dc(mb.qcoeff, scaled(mb.qcoeff[384], mb.dequant_y2[0]) as int),
            384,
            2,
        )
    }
}

/// Adds the luma residual of a macroblock in row `r` and column `c` that is predicted as a
/// whole or has several vectors.
pub open spec fn luma_residual(
    mb: Macroblockd,
    mode: MbPredictionMode,
    d: Yuv,
    r: int,
    c: int,
) -> Residual {
    if mode != MbPredictionMode::SplitMv {
        add_blocks(
            Residual { p: d.y, q: second_order(mb) },
            mb.dequant_y1_dc,
            mb.eobs,
            0,
            4,
            16,
            luma_at(r),
            luma_at(c),
        )
    } else {
        add_blocks(
            Residual { p: d.y, q: mb.qcoeff },
            mb.dequant_y1,
            mb.eobs,
            0,
            4,
            16,
            luma_at(r),
            luma_at(c),
        )
    }
}

/// Adds what is left of the residual to the macroblock in row `r` and column `c`.
#[verifier::opaque]
pub open spec fn mb_residual(mb: Macroblockd, mi: ModeInfo, d: Yuv, r: int, c: int) -> (
    Macroblockd,
    Yuv,
) {
    if mi.mbmi.mb_skip_coeff {
        (mb, d)
    } else {
        let y = if mi.mbmi.mode != MbPredictionMode::BPred {
            luma_residual(mb, mi.mbmi.mode, d, r, c)
        } else {
            Residual { p: d.y, q: mb.qcoeff }
        };
        let u = add_blocks(
            Residual { p: d.u, q: y.q },
            mb.dequant_uv,
            mb.eobs,
            16,
            2,
            4,
            chroma_at(r),
            chroma_at(c),
        );
        let v = add_blocks(
            Residual { p: d.v, q: u.q },
            mb.dequant_uv,
            mb.eobs,
            20,
            2,
            4,
            chroma_at(r),
            chroma_at(c),
        );
        (Macroblockd { qcoeff: v.q, ..mb }, Yuv { y: y.p, u: u.p, v: v.p })
    }
}

/// Predicts the macroblock in row `r` and column `c`.
pub open spec fn mb_predict(
    mb: Macroblockd,
    mi: ModeInfo,
    d: Yuv,
    refs: RefPics,
    r: int,
    c: int,
    rows: int,
    cols: int,
) -> (Macroblockd, Yuv) {
    if mi.mbmi.ref_frame == MvReferenceFrame::Intra {
        mb_intra(mb, mi, d, r, c)
    } else {
        (
            mb,
            inter_mb(
                mb.subpixel_predict,
                mb.fullpixel_mask == -8,
                mi,
                edges_at(r, c, rows, cols),
                ref_pic(refs, mi.mbmi.ref_frame),
                d,
                r,
                c,
            ),
        )
    }
}

/// Decodes the macroblock in row `r` and column `c` of `rows x cols`.
#[verifier::opaque]
pub open spec fn mb_decode(
    s: MbState,
    env: MbEnv,
    refs: RefPics,
    r: int,
    c: int,
    rows: int,
    cols: int,
) -> MbState {
    let s1 = mb_tokens(s, env.fc);
    let mb2 = mb_steps(s1.mb, s1.mi, env);
    let (mb3, d3) = mb_predict(mb2, s1.mi, s1.d, refs, r, c, rows, cols);
    let (mb4, d4) = mb_residual(mb3, s1.mi, d3, r, c);
    MbState { mb: mb4, d: d4, ..s1 }
}

/// Reads the coefficients of a macroblock.
fn read_tokens(
    fc: &FrameContext,
    above_slot: &mut EntropyContextPlanes,
    left_context: &mut EntropyContextPlanes,
    xd: &mut Macroblockd,
    mi: &mut ModeInfo,
    bc: &mut Vp8Reader<'_>,
    Ghost(d): Ghost<Yuv>,
)
    requires
        old(bc).wf(),
        old(above_slot).ok(),
        old(left_context).ok(),
    ensures
        final(bc).wf(),
        final(above_slot).ok(),
        final(left_context).ok(),
        (MbState {
            t: final(bc)@,
            above: *final(above_slot),
            left: *final(left_context),
            mb: *final(xd),
            mi: *final(mi),
            d,
        }) == mb_tokens(
            MbState {
                t: old(bc)@,
                above: *old(above_slot),
                left: *old(left_context),
                mb: *old(xd),
                mi: *old(mi),
                d,
            },
            *fc,
        ),
        *final(mi) == (ModeInfo {
            mbmi: MbModeInfo { mb_skip_coeff: final(mi).mbmi.mb_skip_coeff, ..old(mi).mbmi },
            ..*old(mi)
        }),
        *final(xd) == (Macroblockd {
            qcoeff: final(xd).qcoeff,
            eobs: final(xd).eobs,
            ..*old(xd)
        }),
{
    proof {
        reveal(mb_tokens);
    }
    if mi.mbmi.mb_skip_coeff {
        vp8_reset_mb_tokens_context(above_slot, left_context, mi);
        proof {
            law_contexts_stay_flags(*old(above_slot), 0, 0, mi.mbmi.is_4x4);
            law_contexts_stay_flags(*old(left_context), 0, 0, mi.mbmi.is_4x4);
        }
    } else if vp8dx_bool_error(bc) == 0 {
        let eobtotal: i32 = vp8_decode_mb_tokens(
            above_slot,
            left_context,
            fc,
            &mut xd.qcoeff,
            &mut xd.eobs,
            mi,
            bc,
        );
        mi.mbmi.mb_skip_coeff = eobtotal == 0;
    }
}

/// Predicts and completes the subblocks of a macroblock one by one.
fn predict_subblocks(
    xd: &mut Macroblockd,
    mi: &ModeInfo,
    dst: &mut Plane,
    r0: usize,
    c0: usize,
)
    requires
        1 <= r0,
        1 <= c0,
        r0 + 16 <= old(dst).spec_rows(),
        c0 + 20 <= old(dst).spec_stride(),
    ensures
        *final(xd) == (Macroblockd { qcoeff: final(xd).qcoeff, ..*old(xd) }),
        (Residual { p: final(dst)@, q: final(xd).qcoeff }) == subblocks(
            Residual { p: old(dst)@, q: old(xd).qcoeff },
            old(xd).dequant_y1,
            old(xd).eobs,
            mi.bmi,
            r0 as int,
            c0 as int,
            16,
        ),
        final(dst).spec_rows() == old(dst).spec_rows(),
        final(dst).spec_stride() == old(dst).spec_stride(),
{
    let mut i: usize = 0;
    let dq: [i16; 16] = xd.dequant_y1;
    let eobs: [i8; 25] = xd.eobs;
    while i < 16
        invariant
            i <= 16,
            1 <= r0,
            1 <= c0,
            r0 + 16 <= dst.spec_rows(),
            c0 + 20 <= dst.spec_stride(),
            dst.spec_rows() == old(dst).spec_rows(),
            dst.spec_stride() == old(dst).spec_stride(),
            dq == old(xd).dequant_y1,
            eobs == old(xd).eobs,
            *xd == (Macroblockd { qcoeff: xd.qcoeff, ..*old(xd) }),
            (Residual { p: dst@, q: xd.qcoeff }) == subblocks(
                Residual { p: old(dst)@, q: old(xd).qcoeff },
                dq,
                eobs,
                mi.bmi,
                r0 as int,
                c0 as int,
                i as int,
            ),
        decreases 16 - i,
    {
        let b_mode: BPredictionMode = match mi.bmi[i] {
            BModeInfo::Intra(m) => m,
            BModeInfo::Mv(_) => BPredictionMode::DcPred,
        };
        let r: usize = r0 + 4 * (i / 4);
        let c: usize = c0 + 4 * (i % 4);
        vp8_intra4x4_predict(dst, r, c, b_mode);
        if eobs[i] != 0 {
            add_one_block(&mut xd.qcoeff, &dq, i, eobs[i], dst, r, c);
        }
        i += 1;
    }
}

/// Predicts a macroblock from its neighbours.
fn predict_intra(
    xd: &mut Macroblockd,
    mi: &ModeInfo,
    dst: &mut FramePlanes,
    r: usize,
    c: usize,
    rows: usize,
    cols: usize,
)
    requires
        r < rows,
        c < cols,
        old(dst).holds(rows as int, cols as int),
    ensures
        (*final(xd), final(dst)@) == mb_intra(*old(xd), *mi, old(dst)@, r as int, c as int),
        final(dst).sized_as(old(dst)),
        *final(xd) == (Macroblockd {
            qcoeff: final(xd).qcoeff,
            eobs: final(xd).eobs,
            ..*old(xd)
        }),
{
    proof {
        reveal(mb_intra);
    }
    let up: bool = r > 0;
    let left: bool = c > 0;
    vp8_build_intra_predictors_mbuv_s(
        up,
        left,
        mi,
        &mut dst.u,
        &mut dst.v,
        16 + 8 * r,
        16 + 8 * c,
    );
    if mi.mbmi.mode != MbPredictionMode::BPred {
        vp8_build_intra_predictors_mby_s(up, left, mi, &mut dst.y, 32 + 16 * r, 32 + 16 * c);
    } else {
        if mi.mbmi.mb_skip_coeff {
            xd.eobs = [0i8; 25];
        }
        intra_prediction_down_copy(&mut dst.y, 32 + 16 * r, 32 + 16 * c);
        predict_subblocks(xd, mi, &mut dst.y, 32 + 16 * r, 32 + 16 * c);
    }
}

/// Gives the luma blocks their DC coefficients from the second order block.
fn spread_second_order(xd: &mut Macroblockd)
    ensures
        *final(xd) == (Macroblockd { qcoeff: second_order(*old(xd)), ..*old(xd) }),
{
    if xd.eobs[24] > 1 {
        let dq: [i16; 16] = vp8_dequantize_b_c(&xd.qcoeff, 384, &xd.dequant_y2);
        vp8_short_inv_walsh4x4_c(&dq, &mut xd.qcoeff);
        clear_coeffs(&mut xd.qcoeff, 384, 16);
    } else {
        let dc: i16 = scale(xd.qcoeff[384], xd.dequant_y2[0]);
        vp8_short_inv_walsh4x4_1_c(dc, &mut xd.qcoeff);
        clear_coeffs(&mut xd.qcoeff, 384, 2);
    }
}

/// Adds what is left of a macroblock's residual.
fn add_residual(
    xd: &mut Macroblockd,
    mi: &ModeInfo,
    dst: &mut FramePlanes,
    r: usize,
    c: usize,
    rows: usize,
    cols: usize,
)
    requires
        r < rows,
        c < cols,
        old(dst).holds(rows as int, cols as int),
    ensures
        (*final(xd), final(dst)@) == mb_residual(*old(xd), *mi, old(dst)@, r as int, c as int),
        final(dst).sized_as(old(dst)),
        *final(xd) == (Macroblockd { qcoeff: final(xd).qcoeff, ..*old(xd) }),
{
    proof {
        reveal(mb_residual);
    }
    if mi.mbmi.mb_skip_coeff {
        return ;
    }
    let eobs: [i8; 25] = xd.eobs;
    if mi.mbmi.mode != MbPredictionMode::BPred {
        let mut dq: [i16; 16] = xd.dequant_y1;
        if mi.mbmi.mode != MbPredictionMode::SplitMv {
            spread_second_order(xd);
            dq = xd.dequant_y1_dc;
        }
        vp8_dequant_idct_add_y_block_c(
            &mut xd.qcoeff,
            &dq,
            &mut dst.y,
            32 + 16 * r,
            32 + 16 * c,
            &eobs,
        );
    }
    let dq_uv: [i16; 16] = xd.dequant_uv;
    vp8_dequant_idct_add_uv_block_c(
        &mut xd.qcoeff,
        &dq_uv,
        &mut dst.u,
        &mut dst.v,
        16 + 8 * r,
        16 + 8 * c,
        &eobs,
    );
}

/// The reference frames of the frame being decoded.
pub struct RefFrames<'a> {
    pub last: &'a FramePlanes,
    pub golden: &'a FramePlanes,
    pub altref: &'a FramePlanes,
}

impl<'a> RefFrames<'a> {
    /// Their pictures.
    pub open spec fn view(&self) -> RefPics {
        RefPics { last: self.last@, golden: self.golden@, altref: self.altref@ }
    }

    /// All hold `rows x cols` macroblocks.
    pub open spec fn hold(&self, rows: int, cols: int) -> bool {
        &&& self.last.holds(rows, cols)
        &&& self.golden.holds(rows, cols)
        &&& self.altref.holds(rows, cols)
    }

    /// One of them.
    fn pick(&self, f: MvReferenceFrame) -> (p: &'a FramePlanes)
        ensures
            p@ == ref_pic(self@, f),
            forall|rows: int, cols: int|
                self.hold(rows, cols) ==> #[trigger] p.holds(rows, cols),
    {
        match f {
            MvReferenceFrame::Golden => self.golden,
            MvReferenceFrame::Altref => self.altref,
            _ => self.last,
        }
    }
}

/// Decodes the macroblock in row `r` and column `c` of `rows x cols`: reads its coefficients,
/// predicts it and adds the residual.
pub fn decode_macroblock(
    fc: &FrameContext,
    above_slot: &mut EntropyContextPlanes,
    left_context: &mut EntropyContextPlanes,
    y1_dequant: &StepTable,
    y2_dequant: &StepTable,
    uv_dequant: &StepTable,
    base_qindex: i32,
    xd: &mut Macroblockd,
    mi: &mut ModeInfo,
    bc: &mut Vp8Reader<'_>,
    refs: &RefFrames<'_>,
    dst: &mut FramePlanes,
    r: usize,
    c: usize,
    rows: usize,
    cols: usize,
)
    requires
        old(bc).wf(),
        old(above_slot).ok(),
        old(left_context).ok(),
        0 <= base_qindex <= 127,
        old(mi).mbmi.segment_id < 4,
        mask_ok(old(xd).fullpixel_mask),
        r < rows,
        c < cols,
        old(dst).holds(rows as int, cols as int),
        refs.hold(rows as int, cols as int),
        inter_ok(*old(mi), edges_at(r as int, c as int, rows as int, cols as int)),
    ensures
        final(bc).wf(),
        final(above_slot).ok(),
        final(left_context).ok(),
        final(dst).sized_as(old(dst)),
        (MbState {
            t: final(bc)@,
            above: *final(above_slot),
            left: *final(left_context),
            mb: *final(xd),
            mi: *final(mi),
            d: final(dst)@,
        }) == mb_decode(
            MbState {
                t: old(bc)@,
                above: *old(above_slot),
                left: *old(left_context),
                mb: *old(xd),
                mi: *old(mi),
                d: old(dst)@,
            },
            MbEnv {
                fc: *fc,
                y1: *y1_dequant,
                y2: *y2_dequant,
                uv: *uv_dequant,
                base: base_qindex as int,
            },
            refs@,
            r as int,
            c as int,
            rows as int,
            cols as int,
        ),
        *final(mi) == (ModeInfo {
            mbmi: MbModeInfo { mb_skip_coeff: final(mi).mbmi.mb_skip_coeff, ..old(mi).mbmi },
            ..*old(mi)
        }),
        *final(xd) == (Macroblockd {
            qcoeff: final(xd).qcoeff,
            eobs: final(xd).eobs,
            dequant_y1: final(xd).dequant_y1,
            dequant_y1_dc: final(xd).dequant_y1_dc,
            dequant_y2: final(xd).dequant_y2,
            dequant_uv: final(xd).dequant_uv,
            ..*old(xd)
        }),
{
    proof {
        reveal(mb_decode);
    }
    read_tokens(fc, above_slot, left_context, xd, mi, bc, Ghost(dst@));
    if xd.segmentation_enabled != 0 {
        vp8_mb_init_dequantizer(y1_dequant, y2_dequant, uv_dequant, base_qindex, xd, mi);
    }
    if mi.mbmi.ref_frame == MvReferenceFrame::Intra {
        predict_intra(xd, mi, dst, r, c, rows, cols);
    } else {
        let e: MbEdges = mb_edges(r, c, rows, cols);
        let pre: &FramePlanes = refs.pick(mi.mbmi.ref_frame);
        assert(pre.holds(rows as int, cols as int));
        assert(mi.bmi == old(mi).bmi);
        vp8_build_inter_predictors_mb(
            xd.subpixel_predict,
            xd.fullpixel_mask,
            mi,
            &e,
            pre,
            dst,
            r,
            c,
            rows,
            cols,
        );
    }
    add_residual(xd, mi, dst, r, c, rows, cols);
}

} // verus!
