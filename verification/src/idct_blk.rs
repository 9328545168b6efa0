//! Residuals of whole macroblocks.

use crate::dequantize::{clear_coeffs, dequantized, scale, scaled, vp8_dequant_idct_add_c, zeroed};
use crate::detokenize::Coeffs;
use crate::grid::{Pic, Plane};
use crate::idctllm::{
    dc_add, idct_add, law_added_in_place, pixels_at, vp8_dc_only_idct_add_c, Pixels,
};
use vstd::prelude::*;

verus! {

/// A plane and the coefficients that are still to be added to it.
pub struct Residual {
    pub p: Pic,
    pub q: Coeffs,
}

/// Adds block `blk`, whose last coefficient is before position `eob`, to the 4x4 block at
/// `(r0, c0)`, and clears it.
pub open spec fn add_block(
    s: Residual,
    dq: [i16; 16],
    blk: int,
    eob: int,
    r0: int,
    c0: int,
) -> Residual {
    let base = 16 * blk;
    if eob > 1 {
        Residual {
            p: idct_add(s.p, r0, c0, dequantized(s.q, base, dq)),
            q: zeroed(s.q, base, 16),
        }
    } else {
        Residual {
            p: dc_add(s.p, r0, c0, scaled(s.q[base], dq[0]) as int),
            q: zeroed(s.q, base, 2),
        }
    }
}

/// Adds `n` blocks from number `first` on, `across` of them in a row, to the square at
/// `(r0, c0)`.
pub open spec fn add_blocks(
    s: Residual,
    dq: [i16; 16],
    eobs: [i8; 25],
    first: int,
    across: int,
    n: int,
    r0: int,
    c0: int,
) -> Residual
    decreases n,
{
    if n <= 0 {
        s
    } else {
        let k = n - 1;
        add_block(
            add_blocks(s, dq, eobs, first, across, k, r0, c0),
            dq,
            first + k,
            eobs[first + k] as int,
            r0 + 4 * (k / across),
            c0 + 4 * (k % across),
        )
    }
}

/// Adds one block to a plane.
pub fn add_one_block(
    q: &mut Coeffs,
    dq: &[i16; 16],
    blk: usize,
    eob: i8,
    dst: &mut Plane,
    r0: usize,
    c0: usize,
)
    requires
        blk < 25,
        r0 + 4 <= old(dst).spec_rows(),
        c0 + 4 <= old(dst).spec_stride(),
    ensures
        (Residual { p: final(dst)@, q: *final(q) }) == add_block(
            Residual { p: old(dst)@, q: *old(q) },
            *dq,
            blk as int,
            eob as int,
            r0 as int,
            c0 as int,
        ),
        final(dst).spec_rows() == old(dst).spec_rows(),
        final(dst).spec_stride() == old(dst).spec_stride(),
{
    if eob > 1 {
        vp8_dequant_idct_add_c(q, blk * 16, dq, dst, r0, c0);
    } else {
        let dc: i16 = scale(q[blk * 16], dq[0]);
        let pred: Pixels = pixels_at(dst, r0, c0);
        proof {
            law_added_in_place(dst@, r0 as int, c0 as int, pred, Seq::empty(), dc as int);
        }
        vp8_dc_only_idct_add_c(dc, &pred, dst, r0, c0);
        clear_coeffs(q, blk * 16, 2);
    }
}

/// Adds the sixteen luma blocks to the square at `(r0, c0)`.
pub fn vp8_dequant_idct_add_y_block_c(
    q: &mut Coeffs,
    dq: &[i16; 16],
    dst: &mut Plane,
    r0: usize,
    c0: usize,
    eobs: &[i8; 25],
)
    requires
        r0 + 16 <= old(dst).spec_rows(),
        c0 + 16 <= old(dst).spec_stride(),
    ensures
        (Residual { p: final(dst)@, q: *final(q) }) == add_blocks(
            Residual { p: old(dst)@, q: *old(q) },
            *dq,
            *eobs,
            0,
            4,
            16,
            r0 as int,
            c0 as int,
        ),
        final(dst).spec_rows() == old(dst).spec_rows(),
        final(dst).spec_stride() == old(dst).spec_stride(),
{
    let mut k: usize = 0;
    while k < 16
        invariant
            k <= 16,
            r0 + 16 <= dst.spec_rows(),
            c0 + 16 <= dst.spec_stride(),
            dst.spec_rows() == old(dst).spec_rows(),
            dst.spec_stride() == old(dst).spec_stride(),
            (Residual { p: dst@, q: *q }) == add_blocks(
                Residual { p: old(dst)@, q: *old(q) },
                *dq,
                *eobs,
                0,
                4,
                k as int,
                r0 as int,
                c0 as int,
            ),
        decreases 16 - k,
    {
        add_one_block(q, dq, k, eobs[k], dst, r0 + 4 * (k / 4), c0 + 4 * (k % 4));
        k += 1;
    }
}

/// Adds four chroma blocks from number `first` on to the square at `(r0, c0)`.
fn add_chroma(
    q: &mut Coeffs,
    dq: &[i16; 16],
    first: usize,
    dst: &mut Plane,
    r0: usize,
    c0: usize,
    eobs: &[i8; 25],
)
    requires
        first <= 20,
        r0 + 8 <= old(dst).spec_rows(),
        c0 + 8 <= old(dst).spec_stride(),
    ensures
        (Residual { p: final(dst)@, q: *final(q) }) == add_blocks(
            Residual { p: old(dst)@, q: *old(q) },
            *dq,
            *eobs,
            first as int,
            2,
            4,
            r0 as int,
            c0 as int,
        ),
        final(dst).spec_rows() == old(dst).spec_rows(),
        final(dst).spec_stride() == old(dst).spec_stride(),
{
    let mut k: usize = 0;
    while k < 4
        invariant
            k <= 4,
            first <= 20,
            r0 + 8 <= dst.spec_rows(),
            c0 + 8 <= dst.spec_stride(),
            dst.spec_rows() == old(dst).spec_rows(),
            dst.spec_stride() == old(dst).spec_stride(),
            (Residual { p: dst@, q: *q }) == add_blocks(
                Residual { p: old(dst)@, q: *old(q) },
                *dq,
                *eobs,
                first as int,
                2,
                k as int,
                r0 as int,
                c0 as int,
            ),
        decreases 4 - k,
    {
        add_one_block(q, dq, first + k, eobs[first + k], dst, r0 + 4 * (k / 2), c0 + 4 * (k % 2));
        k += 1;
    }
}

/// Adds the chroma blocks, four to each plane, to the squares at `(r0, c0)`.
pub fn vp8_dequant_idct_add_uv_block_c(
    q: &mut Coeffs,
    dq: &[i16; 16],
    dst_u: &mut Plane,
    dst_v: &mut Plane,
    r0: usize,
    c0: usize,
    eobs: &[i8; 25],
)
    requires
        r0 + 8 <= old(dst_u).spec_rows(),
        c0 + 8 <= old(dst_u).spec_stride(),
        r0 + 8 <= old(dst_v).spec_rows(),
        c0 + 8 <= old(dst_v).spec_stride(),
    ensures
        ({
            let u = add_blocks(
                Residual { p: old(dst_u)@, q: *old(q) },
                *dq,
                *eobs,
                16,
                2,
                4,
                r0 as int,
                c0 as int,
            );
            let v = add_blocks(
                Residual { p: old(dst_v)@, q: u.q },
                *dq,
                *eobs,
                20,
                2,
                4,
                r0 as int,
                c0 as int,
            );
            &&& final(dst_u)@ == u.p
            &&& final(dst_v)@ == v.p
            &&& *final(q) == v.q
        }),
        final(dst_u).spec_rows() == old(dst_u).spec_rows(),
        final(dst_u).spec_stride() == old(dst_u).spec_stride(),
        final(dst_v).spec_rows() == old(dst_v).spec_rows(),
        final(dst_v).spec_stride() == old(dst_v).spec_stride(),
{
    add_chroma(q, dq, 16, dst_u, r0, c0, eobs);
    add_chroma(q, dq, 20, dst_v, r0, c0, eobs);
}

} // verus!
