//! The probabilities of coefficients.

use crate::tables::DEFAULT_COEF_PROBS;
use crate::types::{FrameContext, Vp8Common};
use vstd::prelude::*;

verus! {

pub const ZERO_TOKEN: i32 = 0;

pub const ONE_TOKEN: i32 = 1;

pub const TWO_TOKEN: i32 = 2;

pub const THREE_TOKEN: i32 = 3;

pub const FOUR_TOKEN: i32 = 4;

pub const DCT_VAL_CATEGORY1: i32 = 5;

pub const DCT_VAL_CATEGORY2: i32 = 6;

pub const DCT_VAL_CATEGORY3: i32 = 7;

pub const DCT_VAL_CATEGORY4: i32 = 8;

pub const DCT_VAL_CATEGORY5: i32 = 9;

pub const DCT_VAL_CATEGORY6: i32 = 10;

pub const DCT_EOB_TOKEN: i32 = 11;

/// Sets the probabilities of coefficients to those that every key frame starts with.
pub fn vp8_default_coef_probs(pc: &mut Vp8Common)
    ensures
        *final(pc) == (Vp8Common {
            fc: FrameContext { coef_probs: DEFAULT_COEF_PROBS, ..old(pc).fc },
            ..*old(pc)
        }),
{
    pc.fc.coef_probs = DEFAULT_COEF_PROBS;
}

} // verus!
