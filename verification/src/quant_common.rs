//! Quantizer steps.

use crate::arith::{clamp_int, lemma_shr};
use crate::tables::{AC_QLOOKUP, DC_QLOOKUP};
use vstd::prelude::*;

verus! {

/// The quantizer index after an adjustment.
pub open spec fn q_index(q: int, delta: int) -> int {
    clamp_int(q + delta, 0, 127)
}

/// The step of the luma DC coefficients.
#[verifier::opaque]
pub open spec fn dc_step(q: int, delta: int) -> int {
    DC_QLOOKUP[q_index(q, delta)] as int
}

/// The step of the second order DC coefficient.
#[verifier::opaque]
pub open spec fn dc2_step(q: int, delta: int) -> int {
    2 * DC_QLOOKUP[q_index(q, delta)]
}

/// The step of the chroma DC coefficients.
#[verifier::opaque]
pub open spec fn dc_uv_step(q: int, delta: int) -> int {
    let s = DC_QLOOKUP[q_index(q, delta)] as int;
    if s > 132 {
        132
    } else {
        s
    }
}

/// The step of the AC coefficients.
#[verifier::opaque]
pub open spec fn ac_step(q: int, delta: int) -> int {
    AC_QLOOKUP[q_index(q, delta)] as int
}

/// The step of the second order AC coefficients: 155 hundredths of the plain one.
#[verifier::opaque]
pub open spec fn ac2_step(q: int, delta: int) -> int {
    let s = (AC_QLOOKUP[q_index(q, delta)] * 155) / 100;
    if s < 8 {
        8
    } else {
        s
    }
}

/// The steps of the tables lie between 4 and 284.
proof fn lemma_steps()
    ensures
        forall|i: int| 0 <= i < 128 ==> 4 <= #[trigger] DC_QLOOKUP[i] <= 157,
        forall|i: int| 0 <= i < 128 ==> 4 <= #[trigger] AC_QLOOKUP[i] <= 284,
{
}

fn clamp_qindex(QIndex: i32, Delta: i32) -> (q: usize)
    requires
        i32::MIN <= QIndex + Delta <= i32::MAX,
    ensures
        q == q_index(QIndex as int, Delta as int),
        q < 128,
{
    let mut q: i32 = QIndex + Delta;
    if q > 127 {
        q = 127;
    } else if q < 0 {
        q = 0;
    }
    q as usize
}

/// The step of the luma DC coefficients.
pub fn vp8_dc_quant(QIndex: i32, Delta: i32) -> (s: i32)
    requires
        i32::MIN <= QIndex + Delta <= i32::MAX,
    ensures
        s == dc_step(QIndex as int, Delta as int),
        4 <= s <= 157,
{
    proof {
        reveal(dc_step);
        lemma_steps();
    }
    DC_QLOOKUP[clamp_qindex(QIndex, Delta)]
}

/// The step of the second order DC coefficient.
pub fn vp8_dc2quant(QIndex: i32, Delta: i32) -> (s: i32)
    requires
        i32::MIN <= QIndex + Delta <= i32::MAX,
    ensures
        s == dc2_step(QIndex as int, Delta as int),
        8 <= s <= 314,
{
    proof {
        reveal(dc2_step);
        lemma_steps();
    }
    DC_QLOOKUP[clamp_qindex(QIndex, Delta)] * 2
}

/// The step of the chroma DC coefficients.
pub fn vp8_dc_uv_quant(QIndex: i32, Delta: i32) -> (s: i32)
    requires
        i32::MIN <= QIndex + Delta <= i32::MAX,
    ensures
        s == dc_uv_step(QIndex as int, Delta as int),
        4 <= s <= 132,
{
    proof {
        reveal(dc_uv_step);
        lemma_steps();
    }
    let mut retval: i32 = DC_QLOOKUP[clamp_qindex(QIndex, Delta)];
    if retval > 132 {
        retval = 132;
    }
    retval
}

/// The step of the luma AC coefficients.
pub fn vp8_ac_yquant(QIndex: i32) -> (s: i32)
    ensures
        s == ac_step(QIndex as int, 0),
        4 <= s <= 284,
{
    proof {
        reveal(ac_step);
        lemma_steps();
    }
    AC_QLOOKUP[clamp_qindex(QIndex, 0)]
}

/// The step of the second order AC coefficients.
pub fn vp8_ac2quant(QIndex: i32, Delta: i32) -> (s: i32)
    requires
        i32::MIN <= QIndex + Delta <= i32::MAX,
    ensures
        s == ac2_step(QIndex as int, Delta as int),
        8 <= s <= 440,
{
    proof {
        reveal(ac2_step);
        lemma_steps();
    }
    let x: i32 = AC_QLOOKUP[clamp_qindex(QIndex, Delta)];
    proof {
        lemma_shr((x * 101581) as i32);
        assert((x * 101581) / 65536 == (x * 155) / 100);
    }
    let mut retval: i32 = (x * 101581) >> 16;
    if retval < 8 {
        retval = 8;
    }
    retval
}

/// The step of the chroma AC coefficients.
pub fn vp8_ac_uv_quant(QIndex: i32, Delta: i32) -> (s: i32)
    requires
        i32::MIN <= QIndex + Delta <= i32::MAX,
    ensures
        s == ac_step(QIndex as int, Delta as int),
        4 <= s <= 284,
{
    proof {
        reveal(ac_step);
        lemma_steps();
    }
    AC_QLOOKUP[clamp_qindex(QIndex, Delta)]
}

/// A larger index never has a smaller step.
pub proof fn law_steps_grow(q1: int, q2: int, delta: int)
    requires
        q1 <= q2,
    ensures
        dc_step(q1, delta) <= dc_step(q2, delta),
        dc2_step(q1, delta) <= dc2_step(q2, delta),
        dc_uv_step(q1, delta) <= dc_uv_step(q2, delta),
        ac_step(q1, delta) <= ac_step(q2, delta),
        ac2_step(q1, delta) <= ac2_step(q2, delta),
{
    reveal(dc_step);
    reveal(dc2_step);
    reveal(dc_uv_step);
    reveal(ac_step);
    reveal(ac2_step);
    let a = q_index(q1, delta);
    let b = q_index(q2, delta);
    lemma_sorted(a, b);
}

/// The tables are sorted.
proof fn lemma_sorted(a: int, b: int)
    requires
        0 <= a <= b < 128,
    ensures
        DC_QLOOKUP[a] <= DC_QLOOKUP[b],
        AC_QLOOKUP[a] <= AC_QLOOKUP[b],
    decreases b - a,
{
    if a < b {
        lemma_sorted(a, b - 1);
        lemma_next(b - 1);
    }
}

proof fn lemma_next(i: int)
    requires
        0 <= i < 127,
    ensures
        DC_QLOOKUP[i] <= DC_QLOOKUP[i + 1],
        AC_QLOOKUP[i] <= AC_QLOOKUP[i + 1],
{
    assert(forall|k: int| 0 <= k < 127 ==> #[trigger] DC_QLOOKUP[k] <= DC_QLOOKUP[k + 1]);
    assert(forall|k: int| 0 <= k < 127 ==> #[trigger] AC_QLOOKUP[k] <= AC_QLOOKUP[k + 1]);
}

} // verus!
