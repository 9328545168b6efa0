//! The probabilities of prediction modes.

use crate::tables::{Prob, SUB_MV_REF_PROB, VP8_BMODE_PROB, VP8_UV_MODE_PROB, VP8_YMODE_PROB};
use crate::types::{zero_mv, FrameContext, Mv, Vp8Common};
use vstd::prelude::*;

verus! {

/// What is known of the vectors to the left and above of a subblock.
#[derive(Clone, Copy, PartialEq, Eq, Structural, Debug)]
pub enum SumvfrefT {
    SubmvrefNormal,
    SubmvrefLeftZed,
    SubmvrefAboveZed,
    SubmvrefLeftAboveSame,
    SubmvrefLeftAboveZed,
}

pub const SUBMVREF_NORMAL: i32 = 0;

pub const SUBMVREF_LEFT_ZED: i32 = 1;

pub const SUBMVREF_ABOVE_ZED: i32 = 2;

pub const SUBMVREF_LEFT_ABOVE_SAME: i32 = 3;

pub const SUBMVREF_LEFT_ABOVE_ZED: i32 = 4;

/// What is known of two neighbouring vectors.
pub open spec fn mv_context_of(l: Mv, a: Mv) -> SumvfrefT {
    if l == a && l == zero_mv() {
        SumvfrefT::SubmvrefLeftAboveZed
    } else if l == a {
        SumvfrefT::SubmvrefLeftAboveSame
    } else if a == zero_mv() {
        SumvfrefT::SubmvrefAboveZed
    } else if l == zero_mv() {
        SumvfrefT::SubmvrefLeftZed
    } else {
        SumvfrefT::SubmvrefNormal
    }
}

/// The number of a context.
pub open spec fn mv_context_number(c: SumvfrefT) -> int {
    match c {
        SumvfrefT::SubmvrefNormal => 0,
        SumvfrefT::SubmvrefLeftZed => 1,
        SumvfrefT::SubmvrefAboveZed => 2,
        SumvfrefT::SubmvrefLeftAboveSame => 3,
        SumvfrefT::SubmvrefLeftAboveZed => 4,
    }
}

/// The number of what is known of the vectors `l` to the left and `a` above.
pub fn vp8_mv_cont(l: &Mv, a: &Mv) -> (c: i32)
    ensures
        c == mv_context_number(mv_context_of(*l, *a)),
{
    let lez: bool = l.row == 0 && l.col == 0;
    let aez: bool = a.row == 0 && a.col == 0;
    let lea: bool = *l == *a;
    if lea && lez {
        return SUBMVREF_LEFT_ABOVE_ZED;
    }
    if lea {
        return SUBMVREF_LEFT_ABOVE_SAME;
    }
    if aez {
        return SUBMVREF_ABOVE_ZED;
    }
    if lez {
        return SUBMVREF_LEFT_ZED;
    }
    SUBMVREF_NORMAL
}

/// Probabilities with the default ones for the modes of macroblocks.
pub open spec fn default_mode_probs(fc: FrameContext) -> FrameContext {
    FrameContext {
        ymode_prob: VP8_YMODE_PROB,
        uv_mode_prob: VP8_UV_MODE_PROB,
        sub_mv_ref_prob: SUB_MV_REF_PROB,
        ..fc
    }
}

/// Sets the probabilities of the modes of macroblocks to the default ones.
pub fn vp8_init_mbmode_probs(x: &mut Vp8Common)
    ensures
        *final(x) == (Vp8Common { fc: default_mode_probs(old(x).fc), ..*old(x) }),
{
    x.fc.ymode_prob = VP8_YMODE_PROB;
    x.fc.uv_mode_prob = VP8_UV_MODE_PROB;
    x.fc.sub_mv_ref_prob = SUB_MV_REF_PROB;
}

/// Sets the probabilities of subblock modes to the default ones.
pub fn vp8_default_bmode_probs(dest: &mut [Prob; 9])
    ensures
        *final(dest) == VP8_BMODE_PROB,
{
    *dest = VP8_BMODE_PROB;
}

/// What is known of two neighbouring vectors: whether they are the same, and which of them is none.
pub proof fn law_mv_contexts(l: Mv, a: Mv)
    ensures
        ({
            let n = mv_context_number(mv_context_of(l, a));
            let no_l = l.row == 0 && l.col == 0;
            let no_a = a.row == 0 && a.col == 0;
            let same = l.row == a.row && l.col == a.col;
            &&& n == 4 <==> no_l && no_a
            &&& n == 3 <==> same && !no_l
            &&& n == 2 <==> no_a && !no_l
            &&& n == 1 <==> no_l && !no_a
            &&& n == 0 <==> !same && !no_l && !no_a
        }),
{
}

} // verus!
