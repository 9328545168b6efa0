//! Dequantization, alone and together with the inverse transform.

use crate::detokenize::Coeffs;
use crate::grid::Plane;
use crate::idctllm::{idct_add, law_added_in_place, pixels_at, vp8_short_idct4x4llm_c, Pixels};
use vstd::array::spec_array_update;
use vstd::prelude::*;

verus! {

/// The product of a coefficient and its step, in sixteen bits.
pub open spec fn scaled(q: i16, step: i16) -> i16 {
    (q * step) as i16
}

/// The sixteen coefficients from `base` on, each times its step.
pub open spec fn dequantized(q: Coeffs, base: int, dq: [i16; 16]) -> Seq<i16> {
    Seq::new(16, |i: int| scaled(q[base + i], dq[i]))
}

/// `q` with `n` coefficients from `base` on set to zero.
pub open spec fn zeroed(q: Coeffs, base: int, n: int) -> Coeffs
    decreases n,
{
    if n <= 0 {
        q
    } else {
        spec_array_update(zeroed(q, base, n - 1), base + n - 1, 0i16)
    }
}

/// Multiplies a coefficient by its step.
pub fn scale(q: i16, step: i16) -> (r: i16)
    ensures
        r == scaled(q, step),
{
    assert(-32768 * 32768 <= q * step <= 32768 * 32768) by (nonlinear_arith)
        requires
            -32768 <= q <= 32767,
            -32768 <= step <= 32767,
    ;
    (q as i32 * step as i32) as i16
}

/// Sets `n` coefficients from `base` on to zero.
pub fn clear_coeffs(q: &mut Coeffs, base: usize, n: usize)
    requires
        base + n <= 400,
    ensures
        *final(q) == zeroed(*old(q), base as int, n as int),
{
    let mut i: usize = 0;
    while i < n
        invariant
            i <= n,
            base + n <= 400,
            *q == zeroed(*old(q), base as int, i as int),
        decreases n - i,
    {
        q[base + i] = 0;
        i += 1;
    }
}

/// Multiplies the sixteen coefficients from `base` on by their steps.
pub fn vp8_dequantize_b_c(qcoeff: &Coeffs, base: usize, DQC: &[i16; 16]) -> (dqcoeff: [i16; 16])
    requires
        base + 16 <= 400,
    ensures
        dqcoeff@ == dequantized(*qcoeff, base as int, *DQC),
{
    let mut out: [i16; 16] = [0; 16];
    let mut i: usize = 0;
    while i < 16
        invariant
            i <= 16,
            base + 16 <= 400,
            forall|k: int| 0 <= k < i ==> #[trigger] out[k] == scaled(qcoeff[base + k], DQC[k]),
        decreases 16 - i,
    {
        out[i] = scale(qcoeff[base + i], DQC[i]);
        i += 1;
    }
    assert(out@ =~= dequantized(*qcoeff, base as int, *DQC));
    out
}

/// Dequantizes the block of coefficients from `base` on, adds its residual to the 4x4 block
/// at `(r0, c0)` and clears the coefficients.
pub fn vp8_dequant_idct_add_c(
    input: &mut Coeffs,
    base: usize,
    dq: &[i16; 16],
    dest: &mut Plane,
    r0: usize,
    c0: usize,
)
    requires
        base + 16 <= 400,
        r0 + 4 <= old(dest).spec_rows(),
        c0 + 4 <= old(dest).spec_stride(),
    ensures
        final(dest)@ == idct_add(
            old(dest)@,
            r0 as int,
            c0 as int,
            dequantized(*old(input), base as int, *dq),
        ),
        *final(input) == zeroed(*old(input), base as int, 16),
        final(dest).spec_rows() == old(dest).spec_rows(),
        final(dest).spec_stride() == old(dest).spec_stride(),
{
    let block: [i16; 16] = vp8_dequantize_b_c(input, base, dq);
    let pred: Pixels = pixels_at(dest, r0, c0);
    proof {
        law_added_in_place(dest@, r0 as int, c0 as int, pred, block@, 0);
    }
    vp8_short_idct4x4llm_c(&block, &pred, dest, r0, c0);
    clear_coeffs(input, base, 16);
}

/// A coefficient is multiplied by its own step, where the product fits in sixteen bits.
pub proof fn law_scaled(q: Coeffs, base: int, dq: [i16; 16], i: int)
    requires
        0 <= i < 16,
        i16::MIN <= q[base + i] * dq[i] <= i16::MAX,
    ensures
        dequantized(q, base, dq)[i] == q[base + i] * dq[i],
        dequantized(q, base, dq).len() == 16,
{
}

/// Just the coefficients that were used are zero afterwards.
pub proof fn law_zeroed(q: Coeffs, base: int, n: int, i: int)
    requires
        0 <= base,
        0 <= n,
        base + n <= 400,
        0 <= i < 400,
    ensures
        zeroed(q, base, n)[i] == (if base <= i < base + n {
            0
        } else {
            q[i]
        }),
    decreases n,
{
    if n > 0 {
        law_zeroed(q, base, n - 1, i);
    }
}

} // verus!
