//! Decoding of the transform coefficients of a macroblock.

use crate::dboolhuff::{read_bool, vp8dx_decode_bool, BoolDecoder, BoolState};
use crate::tables::{CoefProbs, Prob};
use crate::types::{EntropyContextPlanes, FrameContext, ModeInfo, ECTX_UV, ECTX_Y2};
use vstd::arithmetic::power2::{lemma2_to64, lemma_pow2_adds, pow2};
use vstd::array::{spec_array_fill_for_copy_type, spec_array_update};
use vstd::prelude::*;

verus! {

/// The band of each coefficient position; the entry past the last position is never used.
pub const kBands: [u8; 17] = [0, 1, 2, 3, 6, 4, 5, 6, 6, 6, 6, 6, 6, 6, 6, 7, 0];

/// Probabilities of the extra bits of the four largest categories, ended by a zero.
pub const kCat3456: [[u8; 12]; 4] = [
    [173, 148, 140, 0, 0, 0, 0, 0, 0, 0, 0, 0],
    [176, 155, 140, 135, 0, 0, 0, 0, 0, 0, 0, 0],
    [180, 157, 141, 134, 130, 0, 0, 0, 0, 0, 0, 0],
    [254, 254, 243, 230, 196, 177, 153, 140, 133, 130, 129, 0],
];

/// The order in which the coefficients of a block are coded.
pub const kZigzag: [u8; 16] = [0, 1, 4, 8, 5, 2, 3, 6, 9, 12, 13, 10, 7, 11, 14, 15];

/// The token probabilities of one block type, by band, context and node.
pub type ProbaArray = [[[Prob; 11]; 3]; 8];

/// The coefficients of a macroblock: 25 blocks of 16.
pub type Coeffs = [i16; 400];

/// Reads the extra bits of a category from number `i` on; `acc` is what the bits before say.
pub open spec fn read_extra(s: BoolState, cat: int, i: int, acc: int) -> (int, BoolState)
    decreases 11 - i,
{
    if i >= 11 || kCat3456[cat][i] == 0 {
        (acc, s)
    } else {
        let (bit, t) = read_bool(s, kCat3456[cat][i] as int);
        read_extra(t, cat, i + 1, 2 * acc + bit)
    }
}

/// Reads a magnitude of at least two.
#[verifier::opaque]
pub open spec fn read_large(s: BoolState, p: [Prob; 11]) -> (int, BoolState) {
    let (b3, s3) = read_bool(s, p[3] as int);
    if b3 == 0 {
        let (b4, s4) = read_bool(s3, p[4] as int);
        if b4 == 0 {
            (2, s4)
        } else {
            let (b5, s5) = read_bool(s4, p[5] as int);
            (3 + b5, s5)
        }
    } else {
        let (b6, s6) = read_bool(s3, p[6] as int);
        if b6 == 0 {
            let (b7, s7) = read_bool(s6, p[7] as int);
            if b7 == 0 {
                let (x, t) = read_bool(s7, 159);
                (5 + x, t)
            } else {
                let (x, t) = read_bool(s7, 165);
                let (y, u) = read_bool(t, 145);
                (7 + 2 * x + y, u)
            }
        } else {
            let (b8, s8) = read_bool(s6, p[8] as int);
            let (b9, s9) = read_bool(s8, p[9 + b8] as int);
            let cat = 2 * b8 + b9;
            let (extra, t) = read_extra(s9, cat, 0, 0);
            (extra + 3 + 8 * pow2(cat as nat), t)
        }
    }
}

/// Reads the sign of a coefficient of magnitude `v`.
pub open spec fn read_signed(s: BoolState, v: int) -> (int, BoolState) {
    let (bit, t) = read_bool(s, 128);
    (if bit == 0 {
        v
    } else {
        -v
    }, t)
}

/// Reads a coefficient that is not zero: its value, and whether its magnitude is one.
pub open spec fn read_coeff(s: BoolState, p: [Prob; 11]) -> (int, bool, BoolState) {
    let (b2, s2) = read_bool(s, p[2] as int);
    if b2 == 0 {
        let (v, t) = read_signed(s2, 1);
        (v, true, t)
    } else {
        let (m, s3) = read_large(s2, p);
        let (v, t) = read_signed(s3, m);
        (v, false, t)
    }
}

/// Reads coefficients from position `n` on, the first one without asking whether the block
/// ends there. `p` holds the probabilities of the first token. Gives the position after the
/// last coefficient read.
pub open spec fn read_coeffs_from(
    s: BoolState,
    prob: ProbaArray,
    p: [Prob; 11],
    n: int,
    base: int,
    q: Coeffs,
) -> (int, Coeffs, BoolState)
    decreases 16 - n,
{
    if n >= 16 {
        (16, q, s)
    } else {
        let (b1, s1) = read_bool(s, p[1] as int);
        let band = prob[kBands[n + 1] as int];
        if b1 == 0 {
            read_coeffs_from(s1, prob, band[0], n + 1, base, q)
        } else {
            let (v, one, s2) = read_coeff(s1, p);
            let q2 = spec_array_update(q, base + kZigzag[n], v as i16);
            let p2 = if one {
                band[1]
            } else {
                band[2]
            };
            if n + 1 == 16 {
                (16, q2, s2)
            } else {
                let (more, s3) = read_bool(s2, p2[0] as int);
                if more == 0 {
                    (n + 1, q2, s3)
                } else {
                    read_coeffs_from(s3, prob, p2, n + 1, base, q2)
                }
            }
        }
    }
}

/// Reads the coefficients of a block from position `first` on into the sixteen places from
/// `base` on. Gives the position after the last coefficient, or zero where there are none.
#[verifier::opaque]
pub open spec fn read_coeffs(
    s: BoolState,
    prob: ProbaArray,
    ctx: int,
    first: int,
    base: int,
    q: Coeffs,
) -> (int, Coeffs, BoolState) {
    let p = prob[first][ctx];
    let (any, t) = read_bool(s, p[0] as int);
    if any == 0 {
        (0, q, t)
    } else {
        read_coeffs_from(t, prob, p, first, base, q)
    }
}

fn VP8GetBit(br: &mut BoolDecoder<'_>, probability: u8) -> (bit: i32)
    requires
        old(br).wf(),
    ensures
        final(br).wf(),
        final(br).range <= 254,
        (bit as int, final(br)@) == read_bool(old(br)@, probability as int),
        bit == 0 || bit == 1,
{
    vp8dx_decode_bool(br, probability as i32)
}

/// Reads the sign of `value_to_sign`.
fn GetSigned(br: &mut BoolDecoder<'_>, value_to_sign: i32) -> (v: i32)
    requires
        old(br).wf(),
        value_to_sign > i32::MIN,
    ensures
        final(br).wf(),
        (v as int, final(br)@) == read_signed(old(br)@, value_to_sign as int),
{
    let bit: i32 = vp8dx_decode_bool(br, 128);
    if bit == 0 {
        value_to_sign
    } else {
        -value_to_sign
    }
}

/// Reads a magnitude of at least two.
fn get_large(br: &mut BoolDecoder<'_>, p: &[Prob; 11]) -> (v: i32)
    requires
        old(br).wf(),
    ensures
        final(br).wf(),
        (v as int, final(br)@) == read_large(old(br)@, *p),
        2 <= v <= 2114,
{
    proof {
        reveal(read_large);
        lemma2_to64();
    }
    if VP8GetBit(br, p[3]) == 0 {
        if VP8GetBit(br, p[4]) == 0 {
            2
        } else {
            3 + VP8GetBit(br, p[5])
        }
    } else {
        if VP8GetBit(br, p[6]) == 0 {
            if VP8GetBit(br, p[7]) == 0 {
                5 + VP8GetBit(br, 159)
            } else {
                let x: i32 = VP8GetBit(br, 165);
                let y: i32 = VP8GetBit(br, 145);
                7 + 2 * x + y
            }
        } else {
            let bit1: i32 = VP8GetBit(br, p[8]);
            let bit0: i32 = VP8GetBit(br, p[9 + bit1 as usize]);
            let cat: usize = (2 * bit1 + bit0) as usize;
            let ghost s9 = br@;
            let mut vv: i32 = 0;
            let mut i: usize = 0;
            while i < 11 && kCat3456[cat][i] != 0
                invariant
                    br.wf(),
                    cat < 4,
                    i <= 11,
                    0 <= vv < pow2(i as nat),
                    read_extra(s9, cat as int, 0, 0) == read_extra(br@, cat as int, i as int, vv as int),
                decreases 11 - i,
            {
                proof {
                    lemma_pow2_adds(1, i as nat);
                    lemma_pow2_adds(i as nat, (11 - i) as nat);
                    lemma2_to64();
                    vstd::arithmetic::power2::lemma_pow2_pos((11 - i) as nat);
                    assert(pow2(i as nat) <= 2048) by (nonlinear_arith)
                        requires
                            pow2(i as nat) * pow2((11 - i) as nat) == 2048,
                            pow2((11 - i) as nat) >= 1,
                            pow2(i as nat) >= 0,
                    ;
                }
                let bit: i32 = VP8GetBit(br, kCat3456[cat][i]);
                vv = vv + vv + bit;
                i += 1;
            }
            proof {
                lemma_pow2_adds(i as nat, (11 - i) as nat);
                lemma2_to64();
                vstd::arithmetic::power2::lemma_pow2_pos((11 - i) as nat);
                assert(pow2(i as nat) <= 2048) by (nonlinear_arith)
                    requires
                        pow2(i as nat) * pow2((11 - i) as nat) == 2048,
                        pow2((11 - i) as nat) >= 1,
                        pow2(i as nat) >= 0,
                ;
                assert(pow2(0) == 1 && pow2(1) == 2 && pow2(2) == 4 && pow2(3) == 8);
            }
            let base: i32 = if cat == 0 {
                8
            } else if cat == 1 {
                16
            } else if cat == 2 {
                32
            } else {
                64
            };
            vv + 3 + base
        }
    }
}

/// Reads the coefficients of one block.
fn GetCoeffs(
    br: &mut BoolDecoder<'_>,
    prob: &ProbaArray,
    ctx: i32,
    first: usize,
    base: usize,
    out: &mut Coeffs,
) -> (eob: i32)
    requires
        old(br).wf(),
        0 <= ctx <= 2,
        first <= 1,
        base + 16 <= 400,
    ensures
        final(br).wf(),
        (eob as int, *final(out), final(br)@) == read_coeffs(
            old(br)@,
            *prob,
            ctx as int,
            first as int,
            base as int,
            *old(out),
        ),
        0 <= eob <= 16,
{
    proof {
        reveal(read_coeffs);
    }
    let ghost s0 = br@;
    let ghost q0 = *out;
    let mut n: usize = first;
    let mut band: usize = first;
    let mut node_ctx: usize = ctx as usize;
    if VP8GetBit(br, prob[band][node_ctx][0]) == 0 {
        return 0;
    }
    let ghost p0 = prob[first as int][ctx as int];
    let ghost s1 = br@;
    while n < 16
        invariant
            br.wf(),
            n <= 16,
            band < 8,
            node_ctx < 3,
            base + 16 <= 400,
            s0 == old(br)@,
            q0 == *old(out),
            read_coeffs_from(s1, *prob, p0, first as int, base as int, q0) == read_coeffs_from(
                br@,
                *prob,
                prob[band as int][node_ctx as int],
                n as int,
                base as int,
                *out,
            ),
            read_coeffs(s0, *prob, ctx as int, first as int, base as int, q0)
                == read_coeffs_from(s1, *prob, p0, first as int, base as int, q0),
        decreases 16 - n,
    {
        let p: [Prob; 11] = prob[band][node_ctx];
        let ghost q_in = *out;
        let next_band: usize = kBands[n + 1] as usize;
        assert(next_band < 8);
        if VP8GetBit(br, p[1]) == 0 {
            node_ctx = 0;
        } else {
            let v: i32;
            if VP8GetBit(br, p[2]) == 0 {
                node_ctx = 1;
                v = GetSigned(br, 1);
            } else {
                node_ctx = 2;
                let m: i32 = get_large(br, &p);
                v = GetSigned(br, m);
            }
            let j: usize = kZigzag[n] as usize;
            assert(j < 16);
            out[base + j] = v as i16;
            assert(*out == spec_array_update(q_in, base + kZigzag[n as int], v as i16));
            if n + 1 == 16 {
                return 16;
            }
            if VP8GetBit(br, prob[next_band][node_ctx][0]) == 0 {
                return (n + 1) as i32;
            }
        }
        band = next_band;
        n += 1;
    }
    16
}

/// The state of the token decoder within a macroblock.
pub struct TokenState {
    pub above: EntropyContextPlanes,
    pub left: EntropyContextPlanes,
    pub q: Coeffs,
    pub eobs: [i8; 25],
    pub total: int,
    pub s: BoolState,
}

/// `e` with context `i` telling whether `nonzeros` is positive.
pub open spec fn mark(e: EntropyContextPlanes, i: int, nonzeros: int) -> EntropyContextPlanes {
    EntropyContextPlanes {
        ctx: spec_array_update(
            e.ctx,
            i,
            if nonzeros > 0 {
                1i8
            } else {
                0i8
            },
        ),
    }
}

/// Decodes block `blk`, whose contexts are number `ai` above and number `li` to the left,
/// from coefficient `first` on.
pub open spec fn token_block(
    t: TokenState,
    prob: ProbaArray,
    first: int,
    blk: int,
    ai: int,
    li: int,
) -> TokenState {
    let (n, q, s) = read_coeffs(t.s, prob, t.above.ctx[ai] + t.left.ctx[li], first, 16 * blk, t.q);
    TokenState {
        above: mark(t.above, ai, n),
        left: mark(t.left, li, n),
        q,
        eobs: spec_array_update(t.eobs, blk, (n + first) as i8),
        total: t.total + n + first,
        s,
    }
}

/// Decodes the first `n` luma blocks.
pub open spec fn token_y(t: TokenState, prob: ProbaArray, first: int, n: int) -> TokenState
    decreases n,
{
    if n <= 0 {
        t
    } else {
        token_block(token_y(t, prob, first, n - 1), prob, first, n - 1, (n - 1) % 4, (n - 1) / 4)
    }
}

/// Decodes the first `n` chroma blocks: four of the first plane, then four of the second.
pub open spec fn token_uv(t: TokenState, prob: ProbaArray, n: int) -> TokenState
    decreases n,
{
    if n <= 0 {
        t
    } else {
        let k = n - 1;
        token_block(
            token_uv(t, prob, k),
            prob,
            0,
            16 + k,
            4 + 2 * (k / 4) + k % 2,
            4 + 2 * (k / 4) + (k % 4) / 2,
        )
    }
}

/// Decodes all coefficients of a macroblock. One that is not split has a block of second
/// order coefficients, which stand for the DC coefficients of the luma blocks.
#[verifier::opaque]
pub open spec fn token_mb(
    t: TokenState,
    probs: CoefProbs,
    is_4x4: bool,
) -> TokenState {
    let (u, prob, first) = if is_4x4 {
        (t, probs[3], 0int)
    } else {
        let u = token_block(t, probs[1], 0, 24, 8, 8);
        (TokenState { total: u.total - 16, ..u }, probs[0], 1int)
    };
    token_uv(token_y(u, prob, first, 16), probs[2], 8)
}

/// A macroblock without coefficients clears its contexts; a split one leaves the second order
/// context alone.
pub open spec fn cleared(e: EntropyContextPlanes, is_4x4: bool) -> EntropyContextPlanes {
    let z = spec_array_fill_for_copy_type::<i8, 9>(0);
    EntropyContextPlanes {
        ctx: if is_4x4 {
            spec_array_update(z, 8, e.ctx[8])
        } else {
            z
        },
    }
}

/// Clears the contexts next to a macroblock without coefficients.
pub fn vp8_reset_mb_tokens_context(
    above_slot: &mut EntropyContextPlanes,
    left_context: &mut EntropyContextPlanes,
    mi: &ModeInfo,
)
    ensures
        *final(above_slot) == cleared(*old(above_slot), mi.mbmi.is_4x4),
        *final(left_context) == cleared(*old(left_context), mi.mbmi.is_4x4),
{
    let mut a: [i8; 9] = [0i8; 9];
    let mut l: [i8; 9] = [0i8; 9];
    if mi.mbmi.is_4x4 {
        a[ECTX_Y2] = above_slot.ctx[ECTX_Y2];
        l[ECTX_Y2] = left_context.ctx[ECTX_Y2];
    }
    above_slot.ctx = a;
    left_context.ctx = l;
}

/// Decodes one block and records what it held.
fn decode_block(
    bc: &mut BoolDecoder<'_>,
    prob: &ProbaArray,
    first: usize,
    blk: usize,
    ai: usize,
    li: usize,
    above: &mut EntropyContextPlanes,
    left: &mut EntropyContextPlanes,
    q: &mut Coeffs,
    eobs: &mut [i8; 25],
) -> (n: i32)
    requires
        old(bc).wf(),
        first <= 1,
        blk < 25,
        ai < 9,
        li < 9,
        old(above).ok(),
        old(left).ok(),
    ensures
        final(bc).wf(),
        final(above).ok(),
        final(left).ok(),
        0 <= n <= 17,
        forall|total: int|
            (TokenState {
                above: *final(above),
                left: *final(left),
                q: *final(q),
                eobs: *final(eobs),
                total: total + n,
                s: final(bc)@,
            }) == #[trigger] token_block(
                TokenState {
                    above: *old(above),
                    left: *old(left),
                    q: *old(q),
                    eobs: *old(eobs),
                    total,
                    s: old(bc)@,
                },
                *prob,
                first as int,
                blk as int,
                ai as int,
                li as int,
            ),
{
    assert(0 <= above.ctx[ai as int] <= 1 && 0 <= left.ctx[li as int] <= 1);
    let ctx: i32 = (above.ctx[ai] + left.ctx[li]) as i32;
    let nonzeros: i32 = GetCoeffs(bc, prob, ctx, first, blk * 16, q);
    let flag: i8 = if nonzeros > 0 {
        1
    } else {
        0
    };
    above.ctx[ai] = flag;
    left.ctx[li] = flag;
    let n: i32 = nonzeros + first as i32;
    eobs[blk] = n as i8;
    n
}

/// Decodes the coefficients of a macroblock and gives the sum of the blocks' end positions, less
/// sixteen where there is a block of second order coefficients. It is zero only where there are no
/// coefficients.
pub fn vp8_decode_mb_tokens(
    above_slot: &mut EntropyContextPlanes,
    left_context: &mut EntropyContextPlanes,
    fc: &FrameContext,
    qcoeff: &mut Coeffs,
    eobs: &mut [i8; 25],
    mi: &ModeInfo,
    bc: &mut BoolDecoder<'_>,
) -> (eobtotal: i32)
    requires
        old(bc).wf(),
        old(above_slot).ok(),
        old(left_context).ok(),
    ensures
        final(bc).wf(),
        final(above_slot).ok(),
        final(left_context).ok(),
        (TokenState {
            above: *final(above_slot),
            left: *final(left_context),
            q: *final(qcoeff),
            eobs: *final(eobs),
            total: eobtotal as int,
            s: final(bc)@,
        }) == token_mb(
            TokenState {
                above: *old(above_slot),
                left: *old(left_context),
                q: *old(qcoeff),
                eobs: *old(eobs),
                total: 0,
                s: old(bc)@,
            },
            fc.coef_probs,
            mi.mbmi.is_4x4,
        ),
        eobtotal == ends_sum(*final(eobs), 24) + (if mi.mbmi.is_4x4 {
            0
        } else {
            final(eobs)[24] - 16
        }),
        0 <= eobtotal,
{
    let ghost t0 = TokenState {
        above: *above_slot,
        left: *left_context,
        q: *qcoeff,
        eobs: *eobs,
        total: 0,
        s: bc@,
    };
    let mut total: i32 = 0;
    let mut first: usize = 0;
    let mut kind: usize = 3;
    if !mi.mbmi.is_4x4 {
        let n: i32 = decode_block(
            bc,
            &fc.coef_probs[1],
            0,
            24,
            ECTX_Y2,
            ECTX_Y2,
            above_slot,
            left_context,
            qcoeff,
            eobs,
        );
        total = n - 16;
        first = 1;
        kind = 0;
    }
    let ghost t1 = TokenState {
        above: *above_slot,
        left: *left_context,
        q: *qcoeff,
        eobs: *eobs,
        total: total as int,
        s: bc@,
    };
    let ghost prob = fc.coef_probs[kind as int];
    let mut i: usize = 0;
    while i < 16
        invariant
            i <= 16,
            kind < 4,
            first <= 1,
            prob == fc.coef_probs[kind as int],
            bc.wf(),
            above_slot.ok(),
            left_context.ok(),
            -16 <= total <= 20 * i + 1,
            (TokenState {
                above: *above_slot,
                left: *left_context,
                q: *qcoeff,
                eobs: *eobs,
                total: total as int,
                s: bc@,
            }) == token_y(t1, prob, first as int, i as int),
        decreases 16 - i,
    {
        let n: i32 = decode_block(
            bc,
            &fc.coef_probs[kind],
            first,
            i,
            i % 4,
            i / 4,
            above_slot,
            left_context,
            qcoeff,
            eobs,
        );
        total = total + n;
        i += 1;
    }
    let ghost t2 = token_y(t1, prob, first as int, 16);
    let mut k: usize = 0;
    while k < 8
        invariant
            k <= 8,
            bc.wf(),
            above_slot.ok(),
            left_context.ok(),
            -16 <= total <= 20 * k + 321,
            (TokenState {
                above: *above_slot,
                left: *left_context,
                q: *qcoeff,
                eobs: *eobs,
                total: total as int,
                s: bc@,
            }) == token_uv(t2, fc.coef_probs[2], k as int),
        decreases 8 - k,
    {
        let ai: usize = ECTX_UV + 2 * (k / 4) + k % 2;
        let li: usize = ECTX_UV + 2 * (k / 4) + (k % 4) / 2;
        let n: i32 = decode_block(
            bc,
            &fc.coef_probs[2],
            0,
            16 + k,
            ai,
            li,
            above_slot,
            left_context,
            qcoeff,
            eobs,
        );
        total = total + n;
        k += 1;
    }
    proof {
        law_token_total(t0, fc.coef_probs, mi.mbmi.is_4x4);
        reveal(token_mb);
    }
    total
}

/// After a macroblock's coefficients were decoded, every context is zero or one again, and so
/// it is after the contexts were cleared.
pub proof fn law_contexts_stay_flags(e: EntropyContextPlanes, i: int, nonzeros: int, is_4x4: bool)
    requires
        e.ok(),
        0 <= i < 9,
    ensures
        mark(e, i, nonzeros).ok(),
        cleared(e, is_4x4).ok(),
{
}

/// The sum of the ends of the first `n` blocks.
pub open spec fn ends_sum(eobs: [i8; 25], n: int) -> int
    decreases n,
{
    if n <= 0 {
        0
    } else {
        ends_sum(eobs, n - 1) + eobs[n - 1]
    }
}

proof fn lemma_ends_same(a: [i8; 25], b: [i8; 25], n: int)
    requires
        n <= 25,
        forall|i: int| 0 <= i < n ==> a[i] == b[i],
    ensures
        ends_sum(a, n) == ends_sum(b, n),
    decreases n,
{
    if n > 0 {
        lemma_ends_same(a, b, n - 1);
    }
}

proof fn lemma_coeffs_from(
    s: BoolState,
    prob: ProbaArray,
    p: [Prob; 11],
    n: int,
    base: int,
    q: Coeffs,
)
    requires
        0 <= n <= 15,
    ensures
        n < read_coeffs_from(s, prob, p, n, base, q).0 <= 16,
    decreases 16 - n,
{
    if n < 15 {
        let (b1, s1) = read_bool(s, p[1] as int);
        let band = prob[kBands[n + 1] as int];
        lemma_coeffs_from(s1, prob, band[0], n + 1, base, q);
        let (v, one, s2) = read_coeff(s1, p);
        let q2 = spec_array_update(q, base + kZigzag[n], v as i16);
        let p2 = if one {
            band[1]
        } else {
            band[2]
        };
        let (more, s3) = read_bool(s2, p2[0] as int);
        lemma_coeffs_from(s3, prob, p2, n + 1, base, q2);
    } else {
        reveal_with_fuel(read_coeffs_from, 2);
    }
}

/// What is recorded of one block: its end is at least `first` and at most `first` past the last
/// position, and the ends of other blocks stay.
proof fn lemma_block_end(
    t: TokenState,
    prob: ProbaArray,
    first: int,
    blk: int,
    ai: int,
    li: int,
)
    requires
        0 <= first <= 1,
        0 <= blk < 25,
    ensures
        ({
            let u = token_block(t, prob, first, blk, ai, li);
            &&& first <= u.eobs[blk] <= 16 + first
            &&& u.total == t.total + u.eobs[blk]
            &&& forall|i: int| 0 <= i < 25 && i != blk ==> #[trigger] u.eobs[i] == t.eobs[i]
        }),
{
    reveal(read_coeffs);
    let ctx = t.above.ctx[ai] + t.left.ctx[li];
    let p = prob[first][ctx];
    let (any, s) = read_bool(t.s, p[0] as int);
    lemma_coeffs_from(s, prob, p, first, 16 * blk, t.q);
}

proof fn lemma_y_ends(t: TokenState, prob: ProbaArray, first: int, n: int)
    requires
        0 <= first <= 1,
        0 <= n <= 16,
    ensures
        ({
            let u = token_y(t, prob, first, n);
            &&& u.total == t.total + ends_sum(u.eobs, n)
            &&& ends_sum(u.eobs, n) >= first * n
            &&& ends_sum(u.eobs, n) == first * n ==> forall|i: int|
                0 <= i < n ==> #[trigger] u.eobs[i] == first
            &&& forall|i: int| n <= i < 25 ==> #[trigger] u.eobs[i] == t.eobs[i]
        }),
    decreases n,
{
    if n > 0 {
        let m = n - 1;
        lemma_y_ends(t, prob, first, m);
        let v = token_y(t, prob, first, m);
        let u = token_y(t, prob, first, n);
        lemma_block_end(v, prob, first, m, m % 4, m / 4);
        lemma_ends_same(v.eobs, u.eobs, m);
        assert(first * n == first * m + first) by (nonlinear_arith)
            requires
                n == m + 1,
        ;
    } else {
        assert(first * n == 0) by (nonlinear_arith)
            requires
                n == 0,
        ;
    }
}

proof fn lemma_uv_ends(t: TokenState, prob: ProbaArray, n: int)
    requires
        0 <= n <= 8,
    ensures
        ({
            let u = token_uv(t, prob, n);
            &&& u.total == t.total + ends_sum(u.eobs, 16 + n) - ends_sum(t.eobs, 16)
            &&& ends_sum(u.eobs, 16 + n) >= ends_sum(t.eobs, 16)
            &&& ends_sum(u.eobs, 16 + n) == ends_sum(t.eobs, 16) ==> forall|i: int|
                16 <= i < 16 + n ==> #[trigger] u.eobs[i] == 0
            &&& forall|i: int|
                (0 <= i < 16 || 16 + n <= i < 25) ==> #[trigger] u.eobs[i] == t.eobs[i]
        }),
    decreases n,
{
    if n > 0 {
        let k = n - 1;
        lemma_uv_ends(t, prob, k);
        let v = token_uv(t, prob, k);
        let u = token_uv(t, prob, n);
        lemma_block_end(
            v,
            prob,
            0,
            16 + k,
            4 + 2 * (k / 4) + k % 2,
            4 + 2 * (k / 4) + (k % 4) / 2,
        );
        lemma_ends_same(v.eobs, u.eobs, 16 + k);
    }
}

/// What is given of a macroblock is the sum of the ends of its blocks, less sixteen where it has a
/// block of second order coefficients: the luma blocks then start at their second position. It is
/// never negative, and zero only where no block has a coefficient.
pub proof fn law_token_total(t: TokenState, probs: CoefProbs, is_4x4: bool)
    requires
        t.total == 0,
    ensures
        ({
            let u = token_mb(t, probs, is_4x4);
            let first: int = if is_4x4 {
                0
            } else {
                1
            };
            &&& u.total == ends_sum(u.eobs, 24) + (if is_4x4 {
                0
            } else {
                u.eobs[24] - 16
            })
            &&& u.total >= 0
            &&& u.total == 0 <==> {
                &&& forall|i: int| 0 <= i < 16 ==> #[trigger] u.eobs[i] == first
                &&& forall|i: int| 16 <= i < 24 ==> #[trigger] u.eobs[i] == 0
                &&& is_4x4 || u.eobs[24] == 0
            }
            &&& is_4x4 ==> u.eobs[24] == t.eobs[24]
        }),
{
    reveal(token_mb);
    let w = token_block(t, probs[1], 0, 24, 8, 8);
    lemma_block_end(t, probs[1], 0, 24, 8, 8);
    let (u, prob, first) = if is_4x4 {
        (t, probs[3], 0int)
    } else {
        (TokenState { total: w.total - 16, ..w }, probs[0], 1int)
    };
    lemma_y_ends(u, prob, first, 16);
    let y = token_y(u, prob, first, 16);
    lemma_uv_ends(y, probs[2], 8);
    let z = token_uv(y, probs[2], 8);
    lemma_ends_same(y.eobs, z.eobs, 16);
    if (forall|i: int| 0 <= i < 16 ==> #[trigger] z.eobs[i] == first) && (forall|i: int|
        16 <= i < 24 ==> #[trigger] z.eobs[i] == 0) {
        lemma_ends_known(z.eobs, first, 24);
    }
}

proof fn lemma_ends_known(e: [i8; 25], first: int, n: int)
    requires
        0 <= n <= 24,
        forall|i: int| 0 <= i < 16 ==> #[trigger] e[i] == first,
        forall|i: int| 16 <= i < 24 ==> #[trigger] e[i] == 0,
    ensures
        ends_sum(e, n) == first * (if n < 16 {
            n
        } else {
            16
        }),
    decreases n,
{
    if n > 0 {
        lemma_ends_known(e, first, n - 1);
        if n <= 16 {
            assert(first * n == first * (n - 1) + first) by (nonlinear_arith);
        }
    } else {
        assert(first * n == 0) by (nonlinear_arith)
            requires
                n == 0,
        ;
    }
}

/// The flag of a block: it has coefficients from position `first` on.
pub open spec fn has_coeffs(eob: i8, first: int) -> i8 {
    if eob > first {
        1
    } else {
        0
    }
}

proof fn lemma_block_flags(
    t: TokenState,
    prob: ProbaArray,
    first: int,
    blk: int,
    ai: int,
    li: int,
)
    requires
        0 <= first <= 1,
        0 <= blk < 25,
        0 <= ai < 9,
        0 <= li < 9,
    ensures
        ({
            let u = token_block(t, prob, first, blk, ai, li);
            &&& u.above.ctx[ai] == has_coeffs(u.eobs[blk], first)
            &&& u.left.ctx[li] == has_coeffs(u.eobs[blk], first)
            &&& forall|i: int| 0 <= i < 9 && i != ai ==> #[trigger] u.above.ctx[i] == t.above.ctx[i]
            &&& forall|i: int| 0 <= i < 9 && i != li ==> #[trigger] u.left.ctx[i] == t.left.ctx[i]
            &&& forall|i: int| 0 <= i < 25 && i != blk ==> #[trigger] u.eobs[i] == t.eobs[i]
        }),
{
    reveal(read_coeffs);
    lemma_block_end(t, prob, first, blk, ai, li);
    let ctx = t.above.ctx[ai] + t.left.ctx[li];
    let p = prob[first][ctx];
    let (any, s) = read_bool(t.s, p[0] as int);
    lemma_coeffs_from(s, prob, p, first, 16 * blk, t.q);
}

proof fn lemma_y_flags(t: TokenState, prob: ProbaArray, first: int, n: int)
    requires
        0 <= first <= 1,
        0 <= n <= 16,
    ensures
        ({
            let u = token_y(t, prob, first, n);
            &&& forall|k: int|
                0 <= k < n && k >= n - 4 ==> u.above.ctx[k % 4] == has_coeffs(
                    #[trigger] u.eobs[k],
                    first,
                )
            &&& forall|k: int|
                0 <= k < n && (k % 4 == 3 || k == n - 1) ==> u.left.ctx[k / 4] == has_coeffs(
                    #[trigger] u.eobs[k],
                    first,
                )
            &&& forall|i: int| 4 <= i < 9 ==> #[trigger] u.above.ctx[i] == t.above.ctx[i]
            &&& forall|i: int| 4 <= i < 9 ==> #[trigger] u.left.ctx[i] == t.left.ctx[i]
        }),
    decreases n,
{
    if n > 0 {
        let m = n - 1;
        lemma_y_flags(t, prob, first, m);
        let v = token_y(t, prob, first, m);
        lemma_block_flags(v, prob, first, m, m % 4, m / 4);
        let u = token_y(t, prob, first, n);
        assert forall|k: int| 0 <= k < n && k >= n - 4 implies u.above.ctx[k % 4] == has_coeffs(
            #[trigger] u.eobs[k],
            first,
        ) by {
            if k < m {
                assert(k % 4 != m % 4);
                assert(u.eobs[k] == v.eobs[k]);
                assert(v.above.ctx[k % 4] == has_coeffs(v.eobs[k], first));
            }
        }
        assert forall|k: int|
            0 <= k < n && (k % 4 == 3 || k == n - 1) implies u.left.ctx[k / 4] == has_coeffs(
            #[trigger] u.eobs[k],
            first,
        ) by {
            if k < m {
                assert(k / 4 != m / 4);
                assert(u.eobs[k] == v.eobs[k]);
                assert(v.left.ctx[k / 4] == has_coeffs(v.eobs[k], first));
            }
        }
    }
}

/// After the luma blocks of a macroblock the contexts tell of those at its edges: the four of its
/// last row for the macroblock below, and the four of its last column for the one to the right.
pub proof fn law_luma_contexts(t: TokenState, prob: ProbaArray, first: int, k: int)
    requires
        0 <= first <= 1,
        0 <= k < 4,
    ensures
        ({
            let u = token_y(t, prob, first, 16);
            &&& u.above.ctx[k] == has_coeffs(u.eobs[12 + k], first)
            &&& u.left.ctx[k] == has_coeffs(u.eobs[4 * k + 3], first)
        }),
{
    lemma_y_flags(t, prob, first, 16);
    let u = token_y(t, prob, first, 16);
    let (a, b) = (12 + k, 4 * k + 3);
    assert(u.above.ctx[a % 4] == has_coeffs(u.eobs[a], first));
    assert(u.left.ctx[b / 4] == has_coeffs(u.eobs[b], first));
}

/// The blocks of the chroma planes take turns the same way: the contexts tell of the two blocks of
/// the last row and of the last column of each plane, and luma contexts stay.
pub proof fn law_chroma_contexts(t: TokenState, prob: ProbaArray, k: int)
    requires
        0 <= k < 2,
    ensures
        ({
            let u = token_uv(t, prob, 8);
            &&& u.above.ctx[4 + k] == has_coeffs(u.eobs[18 + k], 0)
            &&& u.left.ctx[4 + k] == has_coeffs(u.eobs[17 + 2 * k], 0)
            &&& u.above.ctx[6 + k] == has_coeffs(u.eobs[22 + k], 0)
            &&& u.left.ctx[6 + k] == has_coeffs(u.eobs[21 + 2 * k], 0)
            &&& forall|i: int| 0 <= i < 4 ==> #[trigger] u.above.ctx[i] == t.above.ctx[i]
            &&& forall|i: int| 0 <= i < 4 ==> #[trigger] u.left.ctx[i] == t.left.ctx[i]
        }),
{
    let u0 = token_uv(t, prob, 0);
    let u1 = token_uv(t, prob, 1);
    let u2 = token_uv(t, prob, 2);
    let u3 = token_uv(t, prob, 3);
    let u4 = token_uv(t, prob, 4);
    let u5 = token_uv(t, prob, 5);
    let u6 = token_uv(t, prob, 6);
    let u7 = token_uv(t, prob, 7);
    lemma_block_flags(u0, prob, 0, 16, 4, 4);
    lemma_block_flags(u1, prob, 0, 17, 5, 4);
    lemma_block_flags(u2, prob, 0, 18, 4, 5);
    lemma_block_flags(u3, prob, 0, 19, 5, 5);
    lemma_block_flags(u4, prob, 0, 20, 6, 6);
    lemma_block_flags(u5, prob, 0, 21, 7, 6);
    lemma_block_flags(u6, prob, 0, 22, 6, 7);
    lemma_block_flags(u7, prob, 0, 23, 7, 7);
    assert(u1 == token_block(u0, prob, 0, 16, 4, 4));
    assert(u2 == token_block(u1, prob, 0, 17, 5, 4));
    assert(u3 == token_block(u2, prob, 0, 18, 4, 5));
    assert(u4 == token_block(u3, prob, 0, 19, 5, 5));
    assert(u5 == token_block(u4, prob, 0, 20, 6, 6));
    assert(u6 == token_block(u5, prob, 0, 21, 7, 6));
    assert(u7 == token_block(u6, prob, 0, 22, 6, 7));
    assert(token_uv(t, prob, 8) == token_block(u7, prob, 0, 23, 7, 7));
}

/// A large coefficient is written as the start of its range and an offset in as many bits as the
/// range needs: 2, 3 and 4 alone, then ranges from 5, 7, 11, 19, 35 and 67 on, the last one of
/// eleven bits.
pub proof fn law_large_coefficient(s: BoolState, p: [Prob; 11])
    ensures
        ({
            let (b3, s3) = read_bool(s, p[3] as int);
            let (b4, s4) = read_bool(s3, p[4] as int);
            let (b6, s6) = read_bool(s3, p[6] as int);
            let (b7, s7) = read_bool(s6, p[7] as int);
            let (b8, s8) = read_bool(s6, p[8] as int);
            let b9 = read_bool(s8, p[9 + b8] as int).0;
            let v = read_large(s, p).0;
            &&& b3 == 0 && b4 == 0 ==> v == 2
            &&& b3 == 0 && b4 == 1 ==> 3 <= v <= 4
            &&& b3 == 1 && b6 == 0 && b7 == 0 ==> 5 <= v <= 6
            &&& b3 == 1 && b6 == 0 && b7 == 1 ==> 7 <= v <= 10
            &&& b3 == 1 && b6 == 1 && b8 == 0 && b9 == 0 ==> 11 <= v <= 18
            &&& b3 == 1 && b6 == 1 && b8 == 0 && b9 == 1 ==> 19 <= v <= 34
            &&& b3 == 1 && b6 == 1 && b8 == 1 && b9 == 0 ==> 35 <= v <= 66
            &&& b3 == 1 && b6 == 1 && b8 == 1 && b9 == 1 ==> 67 <= v <= 2114
            &&& 2 <= v <= 2114
        }),
{
    reveal(read_large);
    let (b3, s3) = read_bool(s, p[3] as int);
    let (b6, s6) = read_bool(s3, p[6] as int);
    let (b8, s8) = read_bool(s6, p[8] as int);
    let (b9, s9) = read_bool(s8, p[9 + b8] as int);
    let (b4, s4) = read_bool(s3, p[4] as int);
    let (b7, s7) = read_bool(s6, p[7] as int);
    lemma_bit(s, p[3] as int);
    lemma_bit(s3, p[4] as int);
    lemma_bit(s3, p[6] as int);
    lemma_bit(s4, p[5] as int);
    lemma_bit(s6, p[7] as int);
    lemma_bit(s6, p[8] as int);
    lemma_bit(s8, p[9 + b8] as int);
    lemma_bit(s7, 159);
    lemma_bit(s7, 165);
    lemma_bit(read_bool(s7, 165).1, 145);
    lemma_extra(s9, 2 * b8 + b9, 0, 0);
    lemma2_to64();
    let cat = 2 * b8 + b9;
    assert(cat == 0 || cat == 1 || cat == 2 || cat == 3);
    assert(pow2(cat as nat) == (if cat == 0 {
        1int
    } else if cat == 1 {
        2
    } else if cat == 2 {
        4
    } else {
        8
    }));
}

proof fn lemma_bit(s: BoolState, prob: int)
    ensures
        read_bool(s, prob).0 == 0 || read_bool(s, prob).0 == 1,
{
    reveal(read_bool);
}

/// How many bits of an offset are left.
spec fn extra_bits(cat: int, i: int) -> nat
    decreases 11 - i,
{
    if i >= 11 || kCat3456[cat][i] == 0 {
        0
    } else {
        1 + extra_bits(cat, i + 1)
    }
}

proof fn lemma_extra_from(s: BoolState, cat: int, i: int, acc: int)
    requires
        0 <= i <= 11,
        0 <= acc,
    ensures
        acc * pow2(extra_bits(cat, i)) <= read_extra(s, cat, i, acc).0 < (acc + 1) * pow2(
            extra_bits(cat, i),
        ),
    decreases 11 - i,
{
    lemma2_to64();
    if !(i >= 11 || kCat3456[cat][i] == 0) {
        let (bit, t) = read_bool(s, kCat3456[cat][i] as int);
        lemma_bit(s, kCat3456[cat][i] as int);
        let n = extra_bits(cat, i + 1);
        let x = 2 * acc + bit;
        lemma_extra_from(t, cat, i + 1, x);
        lemma_pow2_adds(1, n);
        vstd::arithmetic::power2::lemma_pow2_pos(n);
        let w = pow2(n) as int;
        assert(pow2(extra_bits(cat, i)) == 2 * w);
        assert(acc * (2 * w) <= x * w && (x + 1) * w <= (acc + 1) * (2 * w)) by (nonlinear_arith)
            requires
                x == 2 * acc + bit,
                0 <= bit <= 1,
                w > 0,
        ;
    } else {
        assert(acc * 1 == acc && (acc + 1) * 1 == acc + 1);
    }
}

proof fn lemma_extra(s: BoolState, cat: int, i: int, acc: int)
    requires
        0 <= cat < 4,
        i == 0,
        acc == 0,
    ensures
        cat == 0 ==> 0 <= read_extra(s, cat, i, acc).0 < 8,
        cat == 1 ==> 0 <= read_extra(s, cat, i, acc).0 < 16,
        cat == 2 ==> 0 <= read_extra(s, cat, i, acc).0 < 32,
        cat == 3 ==> 0 <= read_extra(s, cat, i, acc).0 < 2048,
{
    lemma_extra_from(s, cat, 0, 0);
    lemma2_to64();
    reveal_with_fuel(extra_bits, 12);
    let t = kCat3456[cat];
    assert(cat == 0 ==> extra_bits(cat, 0) == 3);
    assert(cat == 1 ==> extra_bits(cat, 0) == 4);
    assert(cat == 2 ==> extra_bits(cat, 0) == 5);
    assert(cat == 3 ==> extra_bits(cat, 0) == 11);
}

/// The order in which the coefficients of a block are written visits every place once.
pub proof fn law_zigzag_visits_all(i: int, j: int)
    requires
        0 <= i < 16,
        0 <= j < 16,
    ensures
        kZigzag[i] < 16,
        kZigzag[i] == kZigzag[j] ==> i == j,
        kZigzag[0] == 0,
        i != 0 ==> kZigzag[i] != 0,
{
    assert(i == 0 || i == 1 || i == 2 || i == 3 || i == 4 || i == 5 || i == 6 || i == 7 || i == 8
        || i == 9 || i == 10 || i == 11 || i == 12 || i == 13 || i == 14 || i == 15);
    assert(j == 0 || j == 1 || j == 2 || j == 3 || j == 4 || j == 5 || j == 6 || j == 7 || j == 8
        || j == 9 || j == 10 || j == 11 || j == 12 || j == 13 || j == 14 || j == 15);
}

proof fn lemma_coeffs_local(
    s: BoolState,
    prob: ProbaArray,
    p: [Prob; 11],
    n: int,
    base: int,
    q: Coeffs,
    x: int,
)
    requires
        0 <= n <= 16,
        0 <= base,
        base + 16 <= 400,
        0 <= x < 400,
        x < base || base + 16 <= x || exists|k: int| 0 <= k < n && x == base + #[trigger] kZigzag[k],
    ensures
        read_coeffs_from(s, prob, p, n, base, q).1[x] == q[x],
    decreases 16 - n,
{
    if n < 16 {
        let (b1, s1) = read_bool(s, p[1] as int);
        let band = prob[kBands[n + 1] as int];
        let (v, one, s2) = read_coeff(s1, p);
        let q2 = spec_array_update(q, base + kZigzag[n], v as i16);
        law_zigzag_visits_all(n, n);
        if !(x < base || base + 16 <= x) {
            let k = choose|k: int| 0 <= k < n && x == base + #[trigger] kZigzag[k];
            law_zigzag_visits_all(n, k);
            assert(0 <= k < n + 1 && x == base + kZigzag[k]);
        }
        assert(q2[x] == q[x]);
        let p2 = if one {
            band[1]
        } else {
            band[2]
        };
        let (more, s3) = read_bool(s2, p2[0] as int);
        lemma_coeffs_local(s1, prob, band[0], n + 1, base, q, x);
        lemma_coeffs_local(s3, prob, p2, n + 1, base, q2, x);
        reveal_with_fuel(read_coeffs_from, 2);
    }
}

/// Reading the coefficients of a block touches its own sixteen places only, and leaves alone its
/// first one where it starts with the second.
pub proof fn law_block_reads_own_places(
    t: TokenState,
    prob: ProbaArray,
    first: int,
    blk: int,
    ai: int,
    li: int,
    x: int,
)
    requires
        0 <= first <= 1,
        0 <= blk < 25,
        0 <= x < 400,
        x < 16 * blk || 16 * blk + 16 <= x || (first == 1 && x == 16 * blk),
    ensures
        token_block(t, prob, first, blk, ai, li).q[x] == t.q[x],
{
    reveal(read_coeffs);
    let p = prob[first][t.above.ctx[ai] + t.left.ctx[li]];
    let s = read_bool(t.s, p[0] as int).1;
    law_zigzag_visits_all(0, 0);
    if first == 1 && x == 16 * blk {
        assert(x == 16 * blk + kZigzag[0]);
    }
    lemma_coeffs_local(s, prob, p, first, 16 * blk, t.q, x);
}

/// Each kind of block has probabilities of its own. Chroma blocks have the third table. Luma blocks
/// have the first one and leave out their first coefficient where the macroblock begins with a
/// block of second order coefficients, which has the second one; else they have the last one.
pub proof fn law_probability_tables(t: TokenState, probs: CoefProbs, other: CoefProbs, is_4x4: bool)
    ensures
        probs[2] == other[2] && (if is_4x4 {
            probs[3] == other[3]
        } else {
            probs[0] == other[0] && probs[1] == other[1]
        }) ==> token_mb(t, probs, is_4x4) == token_mb(t, other, is_4x4),
        ({
            let u = token_mb(t, probs, true);
            let (n, q, s) = read_coeffs(
                t.s,
                probs[3],
                t.above.ctx[0] + t.left.ctx[0],
                0,
                0,
                t.q,
            );
            u.eobs[0] == n && u.eobs[24] == t.eobs[24]
        }),
        ({
            let u = token_mb(t, probs, false);
            let (n, q, s) = read_coeffs(
                t.s,
                probs[1],
                t.above.ctx[8] + t.left.ctx[8],
                0,
                384,
                t.q,
            );
            let (m, _, _) = read_coeffs(s, probs[0], t.above.ctx[0] + t.left.ctx[0], 1, 0, q);
            u.eobs[24] == n && u.eobs[0] == m + 1
        }),
{
    reveal(token_mb);
    let w = token_block(t, probs[1], 0, 24, 8, 8);
    lemma_block_end(t, probs[1], 0, 24, 8, 8);
    let v = TokenState { total: w.total - 16, ..w };
    lemma_first_end(v, probs[0], 1, 16);
    lemma_first_end(t, probs[3], 0, 16);
    lemma_y_ends(v, probs[0], 1, 16);
    lemma_y_ends(t, probs[3], 0, 16);
    lemma_uv_ends(token_y(v, probs[0], 1, 16), probs[2], 8);
    lemma_uv_ends(token_y(t, probs[3], 0, 16), probs[2], 8);
    lemma_end_fits(t, probs[1], 0, 24, 8, 8);
    lemma_end_fits(v, probs[0], 1, 0, 0, 0);
    lemma_end_fits(t, probs[3], 0, 0, 0, 0);
}

proof fn lemma_end_fits(t: TokenState, prob: ProbaArray, first: int, blk: int, ai: int, li: int)
    requires
        0 <= first <= 1,
        0 <= blk < 25,
    ensures
        ({
            let n = read_coeffs(
                t.s,
                prob,
                t.above.ctx[ai] + t.left.ctx[li],
                first,
                16 * blk,
                t.q,
            ).0;
            token_block(t, prob, first, blk, ai, li).eobs[blk] == n + first
        }),
{
    lemma_block_end(t, prob, first, blk, ai, li);
}

proof fn lemma_first_end(t: TokenState, prob: ProbaArray, first: int, n: int)
    requires
        0 <= first <= 1,
        1 <= n <= 16,
    ensures
        token_y(t, prob, first, n).eobs[0] == token_block(t, prob, first, 0, 0, 0).eobs[0],
    decreases n,
{
    if n > 1 {
        lemma_first_end(t, prob, first, n - 1);
        let v = token_y(t, prob, first, n - 1);
        lemma_block_end(v, prob, first, n - 1, (n - 1) % 4, (n - 1) / 4);
    } else {
        assert(token_y(t, prob, first, 0) == t);
    }
}

} // verus!
