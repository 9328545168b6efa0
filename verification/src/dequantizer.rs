//! The quantizer steps of a frame and of its macroblocks.

use crate::arith::{clamp_i32, clamp_int};
use crate::dboolhuff::{law_literal_bounded, read_bool, read_literal, BoolState, Vp8Reader};
use crate::quant_common::{
    ac2_step, ac_step, dc2_step, dc_step, dc_uv_step, vp8_ac2quant, vp8_ac_uv_quant,
    vp8_ac_yquant, vp8_dc2quant, vp8_dc_quant, vp8_dc_uv_quant,
};
use crate::tables::{AC_QLOOKUP, DC_QLOOKUP};
use crate::treereader::{vp8_read_bit, vp8_read_literal};
use crate::types::{Macroblockd, ModeInfo, Vp8Common};
use vstd::arithmetic::power2::lemma2_to64;
use vstd::array::{spec_array_fill_for_copy_type, spec_array_update};
use vstd::prelude::*;

verus! {

/// For each quantizer index the DC and the AC step.
pub type StepTable = [[i16; 2]; 128];

/// The adjustments of the quantizer index are small.
pub open spec fn deltas_ok(pc: Vp8Common) -> bool {
    &&& -15 <= pc.y1dc_delta_q <= 15
    &&& -15 <= pc.y2dc_delta_q <= 15
    &&& -15 <= pc.y2ac_delta_q <= 15
    &&& -15 <= pc.uvdc_delta_q <= 15
    &&& -15 <= pc.uvac_delta_q <= 15
}

/// The luma steps of the first `n` quantizer indices follow from the adjustments.
pub open spec fn y1_table(t: StepTable, pc: Vp8Common, n: int) -> bool {
    forall|q: int|
        0 <= q < n ==> (#[trigger] t[q])[0] == dc_step(q, pc.y1dc_delta_q as int) && t[q][1]
            == ac_step(q, 0)
}

/// The second order steps of the first `n` quantizer indices follow from the adjustments.
pub open spec fn y2_table(t: StepTable, pc: Vp8Common, n: int) -> bool {
    forall|q: int|
        0 <= q < n ==> (#[trigger] t[q])[0] == dc2_step(q, pc.y2dc_delta_q as int) && t[q][1]
            == ac2_step(q, pc.y2ac_delta_q as int)
}

/// The chroma steps of the first `n` quantizer indices follow from the adjustments.
pub open spec fn uv_table(t: StepTable, pc: Vp8Common, n: int) -> bool {
    forall|q: int|
        0 <= q < n ==> (#[trigger] t[q])[0] == dc_uv_step(q, pc.uvdc_delta_q as int) && t[q][1]
            == ac_step(q, pc.uvac_delta_q as int)
}

/// The steps of all quantizer indices follow from the adjustments.
pub open spec fn tables_ok(pc: Vp8Common) -> bool {
    &&& y1_table(pc.y1_dequant, pc, 128)
    &&& y2_table(pc.y2_dequant, pc, 128)
    &&& uv_table(pc.uv_dequant, pc, 128)
}

/// Computes the steps of all quantizer indices.
pub fn vp8cx_init_de_quantizer(pc: &mut Vp8Common)
    requires
        deltas_ok(*old(pc)),
    ensures
        tables_ok(*final(pc)),
        *final(pc) == (Vp8Common {
            y1_dequant: final(pc).y1_dequant,
            y2_dequant: final(pc).y2_dequant,
            uv_dequant: final(pc).uv_dequant,
            ..*old(pc)
        }),
{
    let mut q: usize = 0;
    while q < 128
        invariant
            q <= 128,
            deltas_ok(*old(pc)),
            *pc == (Vp8Common {
                y1_dequant: pc.y1_dequant,
                y2_dequant: pc.y2_dequant,
                uv_dequant: pc.uv_dequant,
                ..*old(pc)
            }),
            y1_table(pc.y1_dequant, *pc, q as int),
            y2_table(pc.y2_dequant, *pc, q as int),
            uv_table(pc.uv_dequant, *pc, q as int),
        decreases 128 - q,
    {
        let i: i32 = q as i32;
        pc.y1_dequant[q] = [vp8_dc_quant(i, pc.y1dc_delta_q) as i16, vp8_ac_yquant(i) as i16];
        pc.y2_dequant[q] = [
            vp8_dc2quant(i, pc.y2dc_delta_q) as i16,
            vp8_ac2quant(i, pc.y2ac_delta_q) as i16,
        ];
        pc.uv_dequant[q] = [
            vp8_dc_uv_quant(i, pc.uvdc_delta_q) as i16,
            vp8_ac_uv_quant(i, pc.uvac_delta_q) as i16,
        ];
        q += 1;
    }
}

/// The quantizer index of a macroblock in segment `seg`: where the frame has segments, that of
/// the segment, which stands alone or adjusts the frame's.
pub open spec fn qindex_of(mb: Macroblockd, base: int, seg: int) -> int {
    if mb.segmentation_enabled != 0 {
        clamp_int(
            if mb.mb_segment_abs_delta == 1 {
                mb.segment_feature_data[0][seg] as int
            } else {
                base + mb.segment_feature_data[0][seg]
            },
            0,
            127,
        )
    } else {
        base
    }
}

/// The steps of a block's coefficients: one for the first, and one for the others.
pub open spec fn steps(dc: i16, ac: i16) -> [i16; 16] {
    spec_array_update(spec_array_fill_for_copy_type::<i16, 16>(ac), 0, dc)
}

/// `mb` with the steps for quantizer index `qi`.
pub open spec fn with_steps(
    mb: Macroblockd,
    y1: StepTable,
    y2: StepTable,
    uv: StepTable,
    qi: int,
) -> Macroblockd {
    Macroblockd {
        dequant_y1: steps(y1[qi][0], y1[qi][1]),
        dequant_y1_dc: steps(1, y1[qi][1]),
        dequant_y2: steps(y2[qi][0], y2[qi][1]),
        dequant_uv: steps(uv[qi][0], uv[qi][1]),
        ..mb
    }
}

fn fill_steps(dc: i16, ac: i16) -> (s: [i16; 16])
    ensures
        s == steps(dc, ac),
{
    let mut s: [i16; 16] = [ac; 16];
    s[0] = dc;
    s
}

/// Sets the steps of a macroblock.
pub fn vp8_mb_init_dequantizer(
    y1_dequant: &StepTable,
    y2_dequant: &StepTable,
    uv_dequant: &StepTable,
    base_qindex: i32,
    mb: &mut Macroblockd,
    mi: &ModeInfo,
)
    requires
        mi.mbmi.segment_id < 4,
        0 <= base_qindex <= 127,
    ensures
        *final(mb) == with_steps(
            *old(mb),
            *y1_dequant,
            *y2_dequant,
            *uv_dequant,
            qindex_of(*old(mb), base_qindex as int, mi.mbmi.segment_id as int),
        ),
{
    let seg: usize = mi.mbmi.segment_id as usize;
    let qi: usize = if mb.segmentation_enabled != 0 {
        let q: i32 = if mb.mb_segment_abs_delta == 1 {
            mb.segment_feature_data[0][seg] as i32
        } else {
            base_qindex + mb.segment_feature_data[0][seg] as i32
        };
        clamp_i32(q, 0, 127) as usize
    } else {
        base_qindex as usize
    };
    mb.dequant_y1_dc = fill_steps(1, y1_dequant[qi][1]);
    mb.dequant_y1 = fill_steps(y1_dequant[qi][0], y1_dequant[qi][1]);
    mb.dequant_y2 = fill_steps(y2_dequant[qi][0], y2_dequant[qi][1]);
    mb.dequant_uv = fill_steps(uv_dequant[qi][0], uv_dequant[qi][1]);
}

/// Reads an adjustment of the quantizer index.
#[verifier::opaque]
pub open spec fn delta_q(t: BoolState) -> (int, BoolState) {
    let (b, t1) = read_bool(t, 128);
    if b != 0 {
        let (v, t2) = read_literal(t1, 4);
        let (sign, t3) = read_bool(t2, 128);
        (if sign != 0 {
            -v
        } else {
            v
        }, t3)
    } else {
        (0, t1)
    }
}

/// Reads an adjustment of the quantizer index; `q_update` is set where it differs from `prev`.
pub fn get_delta_q(bc: &mut Vp8Reader<'_>, prev: i32, q_update: &mut i32) -> (d: i32)
    requires
        old(bc).wf(),
    ensures
        final(bc).wf(),
        (d as int, final(bc)@) == delta_q(old(bc)@),
        -15 <= d <= 15,
        *final(q_update) == (if d != prev {
            1
        } else {
            *old(q_update)
        }),
{
    proof {
        reveal(delta_q);
        lemma2_to64();
    }
    let mut ret_val: i32 = 0;
    if vp8_read_bit(bc) != 0 {
        ret_val = vp8_read_literal(bc, 4);
        if vp8_read_bit(bc) != 0 {
            ret_val = -ret_val;
        }
    }
    if ret_val != prev {
        *q_update = 1;
    }
    ret_val
}

/// A quantizer index limited to what there is.
pub open spec fn bounded_index(v: int) -> int {
    if v < 0 {
        0
    } else if v > 127 {
        127
    } else {
        v
    }
}

/// The steps of a macroblock in segment `seg`, from what the header says: its index is the frame's,
/// or what its segment puts in the place of it or adds to it. Each kind of coefficient moves on
/// from this index by its own adjustment. Second order DC steps are doubled, and AC ones 155
/// hundredths and at least 8; chroma DC steps are at most 132.
pub proof fn law_macroblock_steps(cm: Vp8Common, mb: Macroblockd, seg: int, i: int)
    requires
        tables_ok(cm),
        0 <= seg < 4,
        0 <= cm.base_qindex <= 127,
        1 <= i < 16,
    ensures
        ({
            let base = cm.base_qindex as int;
            let d = mb.segment_feature_data[0][seg] as int;
            let q = if mb.segmentation_enabled == 0 {
                base
            } else if mb.mb_segment_abs_delta == 1 {
                bounded_index(d)
            } else {
                bounded_index(base + d)
            };
            let m = with_steps(
                mb,
                cm.y1_dequant,
                cm.y2_dequant,
                cm.uv_dequant,
                qindex_of(mb, base, seg),
            );
            let y2ac = AC_QLOOKUP[bounded_index(q + cm.y2ac_delta_q)] * 155 / 100;
            let uvdc = DC_QLOOKUP[bounded_index(q + cm.uvdc_delta_q)] as int;
            &&& m.dequant_y1[0] == DC_QLOOKUP[bounded_index(q + cm.y1dc_delta_q)]
            &&& m.dequant_y1[i] == AC_QLOOKUP[q]
            &&& m.dequant_y1_dc[0] == 1
            &&& m.dequant_y1_dc[i] == AC_QLOOKUP[q]
            &&& m.dequant_y2[0] == 2 * DC_QLOOKUP[bounded_index(q + cm.y2dc_delta_q)]
            &&& m.dequant_y2[i] == (if y2ac < 8 {
                8
            } else {
                y2ac
            })
            &&& m.dequant_uv[0] == (if uvdc > 132 {
                132
            } else {
                uvdc
            })
            &&& m.dequant_uv[i] == AC_QLOOKUP[bounded_index(q + cm.uvac_delta_q)]
        }),
{
    reveal(dc_step);
    reveal(dc2_step);
    reveal(dc_uv_step);
    reveal(ac_step);
    reveal(ac2_step);
    let q = qindex_of(mb, cm.base_qindex as int, seg);
    assert(0 <= q <= 127);
    assert(cm.y1_dequant[q][0] == dc_step(q, cm.y1dc_delta_q as int));
    assert(cm.y2_dequant[q][0] == dc2_step(q, cm.y2dc_delta_q as int));
    assert(cm.uv_dequant[q][0] == dc_uv_step(q, cm.uvdc_delta_q as int));
}

/// The tables follow from the adjustments alone: two decoders with the same adjustments have the
/// same steps, whatever they had before.
pub proof fn law_tables_follow_adjustments(a: Vp8Common, b: Vp8Common, q: int, k: int)
    requires
        tables_ok(a),
        tables_ok(b),
        a.y1dc_delta_q == b.y1dc_delta_q,
        a.y2dc_delta_q == b.y2dc_delta_q,
        a.y2ac_delta_q == b.y2ac_delta_q,
        a.uvdc_delta_q == b.uvdc_delta_q,
        a.uvac_delta_q == b.uvac_delta_q,
        0 <= q <= 127,
        0 <= k <= 1,
    ensures
        a.y1_dequant[q][k] == b.y1_dequant[q][k],
        a.y2_dequant[q][k] == b.y2_dequant[q][k],
        a.uv_dequant[q][k] == b.uv_dequant[q][k],
{
    assert(a.y1_dequant[q][0] == b.y1_dequant[q][0]);
    assert(a.y2_dequant[q][0] == b.y2_dequant[q][0]);
    assert(a.uv_dequant[q][0] == b.uv_dequant[q][0]);
}

/// An adjustment is read as four bits and a sign after a bit that tells whether it is there, and is
/// zero where it is not.
pub proof fn law_adjustment_bits(t: BoolState)
    ensures
        ({
            let (b, t1) = read_bool(t, 128);
            let (v, t2) = read_literal(t1, 4);
            let (sign, t3) = read_bool(t2, 128);
            &&& b == 0 ==> delta_q(t) == (0int, t1)
            &&& b == 1 ==> delta_q(t) == ((1 - 2 * sign) * v, t3)
            &&& -15 <= delta_q(t).0 <= 15
        }),
{
    reveal(delta_q);
    lemma2_to64();
    let (b, t1) = read_bool(t, 128);
    let (v, t2) = read_literal(t1, 4);
    law_literal_bounded(t1, 4);
    let (sign, t3) = read_bool(t2, 128);
    assert((b == 0 || b == 1) && (sign == 0 || sign == 1)) by {
        reveal(read_bool);
    }
    assert((1 - 2 * sign) * v == (if sign != 0 {
        -v
    } else {
        v
    })) by (nonlinear_arith)
        requires
            sign == 0 || sign == 1,
    ;
}

} // verus!
