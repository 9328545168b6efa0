//! The part of the frame header that follows the number of partitions: quantizers, reference
//! frames and probabilities of coefficients.

use crate::dboolhuff::{law_literal_bounded, read_bool, read_literal, BoolState, Vp8Reader};
use crate::dequantizer::{
    delta_q, deltas_ok, get_delta_q, law_adjustment_bits, tables_ok, vp8cx_init_de_quantizer,
};
use crate::tables::{CoefProbs, VP8_COEF_UPDATE_PROBS};
use crate::treereader::{vp8_read, vp8_read_bit, vp8_read_literal};
use crate::types::{FrameType, Vp8Common};
use vstd::arithmetic::power2::{lemma2_to64, pow2};
use vstd::array::spec_array_update;
use vstd::prelude::*;

verus! {

/// Reads the quantizer index and its five adjustments.
#[verifier::opaque]
pub open spec fn quant_header(t: BoolState, cm: Vp8Common) -> (Vp8Common, BoolState) {
    let (q, t1) = read_literal(t, 7);
    let (a, t2) = delta_q(t1);
    let (b, t3) = delta_q(t2);
    let (c, t4) = delta_q(t3);
    let (d, t5) = delta_q(t4);
    let (e, t6) = delta_q(t5);
    (
        Vp8Common {
            base_qindex: q as i32,
            y1dc_delta_q: a as i32,
            y2dc_delta_q: b as i32,
            y2ac_delta_q: c as i32,
            uvdc_delta_q: d as i32,
            uvac_delta_q: e as i32,
            ..cm
        },
        t6,
    )
}

/// `cm` with the step tables of `other`.
pub open spec fn with_tables(cm: Vp8Common, other: Vp8Common) -> Vp8Common {
    Vp8Common {
        y1_dequant: other.y1_dequant,
        y2_dequant: other.y2_dequant,
        uv_dequant: other.uv_dequant,
        ..cm
    }
}

/// Reads the quantizers and brings the step tables up to date.
pub fn read_quant_header(bc: &mut Vp8Reader<'_>, cm: &mut Vp8Common)
    requires
        old(bc).wf(),
        deltas_ok(*old(cm)),
        tables_ok(*old(cm)),
    ensures
        final(bc).wf(),
        deltas_ok(*final(cm)),
        tables_ok(*final(cm)),
        0 <= final(cm).base_qindex <= 127,
        ({
            let (c, t) = quant_header(old(bc)@, *old(cm));
            *final(cm) == with_tables(c, *final(cm)) && final(bc)@ == t
        }),
{
    proof {
        reveal(quant_header);
        lemma2_to64();
    }
    let mut q_update: i32 = 0;
    cm.base_qindex = vp8_read_literal(bc, 7);
    cm.y1dc_delta_q = get_delta_q(bc, cm.y1dc_delta_q, &mut q_update);
    cm.y2dc_delta_q = get_delta_q(bc, cm.y2dc_delta_q, &mut q_update);
    cm.y2ac_delta_q = get_delta_q(bc, cm.y2ac_delta_q, &mut q_update);
    cm.uvdc_delta_q = get_delta_q(bc, cm.uvdc_delta_q, &mut q_update);
    cm.uvac_delta_q = get_delta_q(bc, cm.uvac_delta_q, &mut q_update);
    if q_update != 0 {
        vp8cx_init_de_quantizer(cm);
    }
}

/// Reads which reference frames the frame replaces, and on which side they lie. A key frame
/// replaces all of them without saying so.
#[verifier::opaque]
pub open spec fn ref_header(t: BoolState, cm: Vp8Common) -> (Vp8Common, BoolState) {
    if cm.frame_type == FrameType::Key {
        (cm, t)
    } else {
        let (golden, t1) = read_bool(t, 128);
        let (alt, t2) = read_bool(t1, 128);
        let (to_gf, t3) = if golden == 0 {
            read_literal(t2, 2)
        } else {
            (0, t2)
        };
        let (to_arf, t4) = if alt == 0 {
            read_literal(t3, 2)
        } else {
            (0, t3)
        };
        let (gold_side, t5) = read_bool(t4, 128);
        let (alt_side, t6) = read_bool(t5, 128);
        (
            Vp8Common {
                refresh_golden_frame: golden as i32,
                refresh_alt_ref_frame: alt as i32,
                copy_buffer_to_gf: to_gf as i32,
                copy_buffer_to_arf: to_arf as i32,
                ref_frame_sign_bias: spec_array_update(
                    spec_array_update(cm.ref_frame_sign_bias, 2, gold_side as i32),
                    3,
                    alt_side as i32,
                ),
                ..cm
            },
            t6,
        )
    }
}

/// The flags that say which reference frames are replaced are such.
pub open spec fn ref_flags_ok(cm: Vp8Common) -> bool {
    &&& 0 <= cm.refresh_golden_frame <= 1
    &&& 0 <= cm.refresh_alt_ref_frame <= 1
    &&& 0 <= cm.copy_buffer_to_gf <= 3
    &&& 0 <= cm.copy_buffer_to_arf <= 3
}

/// Reads which reference frames the frame replaces.
pub fn read_ref_header(bc: &mut Vp8Reader<'_>, cm: &mut Vp8Common)
    requires
        old(bc).wf(),
        ref_flags_ok(*old(cm)),
    ensures
        final(bc).wf(),
        (*final(cm), final(bc)@) == ref_header(old(bc)@, *old(cm)),
        ref_flags_ok(*final(cm)),
{
    proof {
        reveal(ref_header);
        lemma2_to64();
    }
    if cm.frame_type == FrameType::Key {
        return ;
    }
    cm.refresh_golden_frame = vp8_read_bit(bc);
    cm.refresh_alt_ref_frame = vp8_read_bit(bc);
    cm.copy_buffer_to_gf = 0;
    if cm.refresh_golden_frame == 0 {
        cm.copy_buffer_to_gf = vp8_read_literal(bc, 2);
    }
    cm.copy_buffer_to_arf = 0;
    if cm.refresh_alt_ref_frame == 0 {
        cm.copy_buffer_to_arf = vp8_read_literal(bc, 2);
    }
    cm.ref_frame_sign_bias[2] = vp8_read_bit(bc);
    cm.ref_frame_sign_bias[3] = vp8_read_bit(bc);
}

/// Reads whether the probabilities are kept for later frames (those so far are saved where
/// not), and whether the frame becomes the last one.
#[verifier::opaque]
pub open spec fn keep_header(t: BoolState, cm: Vp8Common) -> (Vp8Common, BoolState) {
    let (keep, t1) = read_bool(t, 128);
    let (last, t2) = if cm.frame_type == FrameType::Key {
        (1, t1)
    } else {
        read_bool(t1, 128)
    };
    (
        Vp8Common {
            refresh_entropy_probs: keep as i32,
            lfc: if keep == 0 {
                cm.fc
            } else {
                cm.lfc
            },
            refresh_last_frame: last as i32,
            ..cm
        },
        t2,
    )
}

/// Reads whether the probabilities and the frame are kept.
pub fn read_keep_header(bc: &mut Vp8Reader<'_>, cm: &mut Vp8Common)
    requires
        old(bc).wf(),
    ensures
        final(bc).wf(),
        (*final(cm), final(bc)@) == keep_header(old(bc)@, *old(cm)),
        0 <= final(cm).refresh_last_frame <= 1,
{
    proof {
        reveal(keep_header);
    }
    cm.refresh_entropy_probs = vp8_read_bit(bc);
    if cm.refresh_entropy_probs == 0 {
        cm.lfc = cm.fc;
    }
    cm.refresh_last_frame = if cm.frame_type == FrameType::Key {
        1
    } else {
        vp8_read_bit(bc)
    };
}

/// How likely it is that a probability of coefficients stays as it was.
#[verifier::opaque]
pub open spec fn coef_keep_prob(i: int, j: int, k: int, l: int) -> int {
    VP8_COEF_UPDATE_PROBS[i][j][k][l] as int
}

fn coef_update_prob(i: usize, j: usize, k: usize, l: usize) -> (p: i32)
    requires
        i < 4,
        j < 8,
        k < 3,
        l < 11,
    ensures
        p == coef_keep_prob(i as int, j as int, k as int, l as int),
        0 <= p <= 255,
{
    proof {
        reveal(coef_keep_prob);
    }
    VP8_COEF_UPDATE_PROBS[i][j][k][l] as i32
}

/// `p` with one probability replaced.
pub open spec fn with_coef(p: CoefProbs, i: int, j: int, k: int, l: int, v: u8) -> CoefProbs {
    spec_array_update(
        p,
        i,
        spec_array_update(
            p[i],
            j,
            spec_array_update(p[i][j], k, spec_array_update(p[i][j][k], l, v)),
        ),
    )
}

/// Reads new values for some of the first `n` probabilities of coefficients, and tells whether
/// those do not depend on the coefficients before.
pub open spec fn coef_probs(t: BoolState, p: CoefProbs, n: int) -> (CoefProbs, int, BoolState)
    decreases n,
{
    if n <= 0 {
        (p, 1, t)
    } else {
        let m = n - 1;
        let (q, independent, u) = coef_probs(t, p, m);
        let i = m / 264;
        let j = (m / 33) % 8;
        let k = (m / 11) % 3;
        let l = m % 11;
        let (b, u1) = read_bool(u, coef_keep_prob(i, j, k, l));
        let (q1, u2) = if b != 0 {
            let (x, w) = read_literal(u1, 8);
            (with_coef(q, i, j, k, l, x as u8), w)
        } else {
            (q, u1)
        };
        (
            q1,
            if k > 0 && q1[i][j][k][l] != q1[i][j][k - 1][l] {
                0
            } else {
                independent
            },
            u2,
        )
    }
}

/// Reads new probabilities of coefficients and tells whether those do not depend on the
/// coefficients before.
pub fn read_coef_probs(bc: &mut Vp8Reader<'_>, p: &mut CoefProbs) -> (independent: i32)
    requires
        old(bc).wf(),
    ensures
        final(bc).wf(),
        (*final(p), independent as int, final(bc)@) == coef_probs(old(bc)@, *old(p), 1056),
        0 <= independent <= 1,
{
    proof {
        lemma2_to64();
    }
    let ghost t0 = bc@;
    let mut independent: i32 = 1;
    let mut m: usize = 0;
    while m < 1056
        invariant
            m <= 1056,
            bc.wf(),
            pow2(8) == 256,
            0 <= independent <= 1,
            (*p, independent as int, bc@) == coef_probs(t0, *old(p), m as int),
        decreases 1056 - m,
    {
        let i: usize = m / 264;
        let j: usize = (m / 33) % 8;
        let k: usize = (m / 11) % 3;
        let l: usize = m % 11;
        if vp8_read(bc, coef_update_prob(i, j, k, l)) != 0 {
            p[i][j][k][l] = vp8_read_literal(bc, 8) as u8;
        }
        if k > 0 && p[i][j][k][l] != p[i][j][k - 1][l] {
            independent = 0;
        }
        m += 1;
    }
    independent
}

proof fn lemma_flag(t: BoolState, prob: int)
    ensures
        read_bool(t, prob).0 == 0 || read_bool(t, prob).0 == 1,
{
    reveal(read_bool);
}

/// The quantizer part of the header sets the index and all five adjustments anew, whatever they
/// were before, in the order luma DC, second order DC and AC, chroma DC and AC, and touches nothing
/// else.
pub proof fn law_quantizers_anew(t: BoolState, a: Vp8Common, b: Vp8Common)
    ensures
        ({
            let (x, u) = quant_header(t, a);
            let (y, v) = quant_header(t, b);
            let (q, t1) = read_literal(t, 7);
            let (d1, t2) = delta_q(t1);
            let (d2, t3) = delta_q(t2);
            let (d3, t4) = delta_q(t3);
            let (d4, t5) = delta_q(t4);
            let (d5, t6) = delta_q(t5);
            &&& u == v
            &&& u == t6
            &&& x.base_qindex == q && x.base_qindex == y.base_qindex
            &&& x.y1dc_delta_q == d1 && x.y1dc_delta_q == y.y1dc_delta_q
            &&& x.y2dc_delta_q == d2 && x.y2dc_delta_q == y.y2dc_delta_q
            &&& x.y2ac_delta_q == d3 && x.y2ac_delta_q == y.y2ac_delta_q
            &&& x.uvdc_delta_q == d4 && x.uvdc_delta_q == y.uvdc_delta_q
            &&& x.uvac_delta_q == d5 && x.uvac_delta_q == y.uvac_delta_q
            &&& 0 <= x.base_qindex <= 127
            &&& x == (Vp8Common {
                base_qindex: x.base_qindex,
                y1dc_delta_q: x.y1dc_delta_q,
                y2dc_delta_q: x.y2dc_delta_q,
                y2ac_delta_q: x.y2ac_delta_q,
                uvdc_delta_q: x.uvdc_delta_q,
                uvac_delta_q: x.uvac_delta_q,
                ..a
            })
        }),
{
    reveal(quant_header);
    lemma2_to64();
    law_literal_bounded(t, 7);
    let t1 = read_literal(t, 7).1;
    let t2 = delta_q(t1).1;
    let t3 = delta_q(t2).1;
    let t4 = delta_q(t3).1;
    let t5 = delta_q(t4).1;
    law_adjustment_bits(t1);
    law_adjustment_bits(t2);
    law_adjustment_bits(t3);
    law_adjustment_bits(t4);
    law_adjustment_bits(t5);
}

/// Between key frames the header says anew which reference frames are replaced, copied and on which
/// side they lie, whatever held before: a frame that is replaced is not copied to. The golden frame
/// comes before the alternate one, and the side of the last frame never changes. A key frame says
/// nothing about it.
pub proof fn law_references_anew(t: BoolState, a: Vp8Common, b: Vp8Common)
    ensures
        a.frame_type == FrameType::Key ==> ref_header(t, a) == (a, t),
        a.frame_type == FrameType::Inter && b.frame_type == FrameType::Inter ==> {
            let (x, u) = ref_header(t, a);
            let (y, v) = ref_header(t, b);
            &&& u == v
            &&& x.refresh_golden_frame == read_bool(t, 128).0
            &&& x.refresh_alt_ref_frame == read_bool(read_bool(t, 128).1, 128).0
            &&& x.refresh_golden_frame == y.refresh_golden_frame
            &&& x.refresh_alt_ref_frame == y.refresh_alt_ref_frame
            &&& x.copy_buffer_to_gf == y.copy_buffer_to_gf
            &&& x.copy_buffer_to_arf == y.copy_buffer_to_arf
            &&& x.ref_frame_sign_bias[2] == y.ref_frame_sign_bias[2]
            &&& x.ref_frame_sign_bias[3] == y.ref_frame_sign_bias[3]
            &&& x.ref_frame_sign_bias[0] == a.ref_frame_sign_bias[0]
            &&& x.ref_frame_sign_bias[1] == a.ref_frame_sign_bias[1]
            &&& x.refresh_golden_frame == 1 ==> x.copy_buffer_to_gf == 0
            &&& x.refresh_alt_ref_frame == 1 ==> x.copy_buffer_to_arf == 0
            &&& 0 <= x.copy_buffer_to_gf <= 3
            &&& 0 <= x.copy_buffer_to_arf <= 3
            &&& x.refresh_golden_frame == 0 ==> x.copy_buffer_to_gf == read_literal(
                read_bool(read_bool(t, 128).1, 128).1,
                2,
            ).0
            &&& x == (Vp8Common {
                refresh_golden_frame: x.refresh_golden_frame,
                refresh_alt_ref_frame: x.refresh_alt_ref_frame,
                copy_buffer_to_gf: x.copy_buffer_to_gf,
                copy_buffer_to_arf: x.copy_buffer_to_arf,
                ref_frame_sign_bias: x.ref_frame_sign_bias,
                ..a
            })
        },
{
    reveal(ref_header);
    lemma2_to64();
    let t1 = read_bool(t, 128).1;
    let t2 = read_bool(t1, 128).1;
    lemma_flag(t, 128);
    lemma_flag(t1, 128);
    law_literal_bounded(t2, 2);
    law_literal_bounded(read_literal(t2, 2).1, 2);
}

/// Probabilities that are not to be kept are saved before anything else of the frame changes them,
/// and those that are to be kept leave the saved ones alone. A key frame always becomes the last
/// frame.
pub proof fn law_saved_probabilities(t: BoolState, cm: Vp8Common)
    ensures
        ({
            let (c, u) = keep_header(t, cm);
            let (keep, t1) = read_bool(t, 128);
            &&& c.refresh_entropy_probs == keep
            &&& c.fc == cm.fc
            &&& keep == 0 ==> c.lfc == cm.fc
            &&& keep == 1 ==> c.lfc == cm.lfc
            &&& cm.frame_type == FrameType::Key ==> c.refresh_last_frame == 1 && u == t1
            &&& cm.frame_type == FrameType::Inter ==> c.refresh_last_frame == read_bool(
                t1,
                128,
            ).0
            &&& c == (Vp8Common {
                refresh_entropy_probs: c.refresh_entropy_probs,
                lfc: c.lfc,
                refresh_last_frame: c.refresh_last_frame,
                ..cm
            })
        }),
{
    reveal(keep_header);
    lemma_flag(t, 128);
    lemma_flag(read_bool(t, 128).1, 128);
}

/// Where the probabilities of coefficients lie in the order in which they are read.
proof fn lemma_coef_place(m: int, i: int, j: int, k: int, l: int)
    requires
        0 <= i < 4,
        0 <= j < 8,
        0 <= k < 3,
        0 <= l < 11,
        0 <= m < 1056,
    ensures
        0 <= m / 264 < 4,
        m == 264 * i + 33 * j + 11 * k + l <==> m / 264 == i && (m / 33) % 8 == j && (m / 11) % 3
            == k && m % 11 == l,
{
    let (a, b, c, d) = (m / 264, (m / 33) % 8, (m / 11) % 3, m % 11);
    assert(m / 33 == 8 * a + b) by {
        assert(m / 264 == (m / 33) / 8);
    }
    assert(m / 11 == 3 * (m / 33) + c) by {
        assert(m / 33 == (m / 11) / 3);
    }
    assert(m == 264 * a + 33 * b + 11 * c + d);
}

proof fn lemma_coef_later(t: BoolState, p: CoefProbs, n: int, i: int, j: int, k: int, l: int)
    requires
        0 <= i < 4,
        0 <= j < 8,
        0 <= k < 3,
        0 <= l < 11,
        0 <= n <= 264 * i + 33 * j + 11 * k + l,
    ensures
        coef_probs(t, p, n).0[i][j][k][l] == p[i][j][k][l],
    decreases n,
{
    if n > 0 {
        lemma_coef_later(t, p, n - 1, i, j, k, l);
        lemma_coef_place(n - 1, i, j, k, l);
    }
}

/// Each probability of coefficients is read in its turn, by kind of block, band, context and place
/// in the tree: it stays as it was or is replaced by the eight bits that follow, and no other entry
/// of the header has a part in it.
pub proof fn law_coef_prob(t: BoolState, p: CoefProbs, n: int, i: int, j: int, k: int, l: int)
    requires
        0 <= i < 4,
        0 <= j < 8,
        0 <= k < 3,
        0 <= l < 11,
        264 * i + 33 * j + 11 * k + l < n <= 1056,
    ensures
        ({
            let u = coef_probs(t, p, 264 * i + 33 * j + 11 * k + l).2;
            let (b, v) = read_bool(u, VP8_COEF_UPDATE_PROBS[i][j][k][l] as int);
            coef_probs(t, p, n).0[i][j][k][l] == (if b == 0 {
                p[i][j][k][l] as int
            } else {
                read_literal(v, 8).0
            })
        }),
    decreases n,
{
    let m = n - 1;
    lemma_coef_place(m, i, j, k, l);
    if m == 264 * i + 33 * j + 11 * k + l {
        lemma_coef_later(t, p, m, i, j, k, l);
        reveal(coef_keep_prob);
        let u = coef_probs(t, p, m).2;
        let v = read_bool(u, VP8_COEF_UPDATE_PROBS[i][j][k][l] as int).1;
        law_literal_bounded(v, 8);
        lemma2_to64();
    } else {
        law_coef_prob(t, p, m, i, j, k, l);
    }
}

} // verus!
