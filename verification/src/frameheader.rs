//! The header of a frame, which precedes the modes of its macroblocks.

use crate::dboolhuff::{
    law_literal_bounded, overrun, read_bool, read_literal, vp8dx_bool_error, BoolState,
    Vp8Reader,
};
use crate::tables::{Prob, VP8_MB_FEATURE_DATA_BITS};
use crate::treereader::{vp8_read_bit, vp8_read_literal};
use crate::types::{
    ClampType, FrameType, LoopFilterType, Macroblockd, TokenPartition, Vp8Common, Vp8dComp,
};
use vstd::arithmetic::power2::{lemma2_to64, pow2};
use vstd::array::{spec_array_fill_for_copy_type, spec_array_update};
use vstd::prelude::*;

verus! {

/// Reads a number of `bits` bits and its sign, after a flag that says whether it is there.
pub open spec fn signed_value(t: BoolState, bits: nat, otherwise: int) -> (int, BoolState) {
    let (b, t1) = read_bool(t, 128);
    if b != 0 {
        let (v, t2) = read_literal(t1, bits);
        let (sign, t3) = read_bool(t2, 128);
        (if sign != 0 {
            -v
        } else {
            v
        }, t3)
    } else {
        (otherwise, t1)
    }
}

fn read_signed_value(bc: &mut Vp8Reader<'_>, bits: i32, otherwise: i8) -> (v: i8)
    requires
        old(bc).wf(),
        1 <= bits <= 7,
    ensures
        final(bc).wf(),
        (v as int, final(bc)@) == signed_value(old(bc)@, bits as nat, otherwise as int),
{
    proof {
        lemma2_to64();
        vstd::arithmetic::power2::lemma_pow2_strictly_increases(0, bits as nat);
        if bits < 7 {
            vstd::arithmetic::power2::lemma_pow2_strictly_increases(bits as nat, 7);
        }
    }
    if vp8_read_bit(bc) != 0 {
        let v: i8 = vp8_read_literal(bc, bits) as i8;
        if vp8_read_bit(bc) != 0 {
            -v
        } else {
            v
        }
    } else {
        otherwise
    }
}

/// Reads the first `n` of the eight values of the segments: four quantizers and four loop
/// filter levels.
pub open spec fn segment_values(
    t: BoolState,
    data: [[i8; 4]; 2],
    n: int,
) -> ([[i8; 4]; 2], BoolState)
    decreases n,
{
    if n <= 0 {
        (data, t)
    } else {
        let (d, u) = segment_values(t, data, n - 1);
        let i = (n - 1) / 4;
        let j = (n - 1) % 4;
        let (v, w) = signed_value(u, VP8_MB_FEATURE_DATA_BITS[i] as nat, 0);
        (spec_array_update(d, i, spec_array_update(d[i], j, v as i8)), w)
    }
}

/// Reads the first `n` probabilities of the segment tree; those that are not there are certain.
pub open spec fn segment_probs(t: BoolState, p: [Prob; 3], n: int) -> ([Prob; 3], BoolState)
    decreases n,
{
    if n <= 0 {
        (p, t)
    } else {
        let (q, u) = segment_probs(t, p, n - 1);
        let (b, v) = read_bool(u, 128);
        if b != 0 {
            let (x, w) = read_literal(v, 8);
            (spec_array_update(q, n - 1, x as u8), w)
        } else {
            (q, v)
        }
    }
}

/// Reads the values of the segments, where there are new ones.
#[verifier::opaque]
pub open spec fn segment_data(t: BoolState, mb: Macroblockd) -> (Macroblockd, BoolState) {
    if mb.update_mb_segmentation_data != 0 {
        let (a, t1) = read_bool(t, 128);
        let (d, t2) = segment_values(
            t1,
            spec_array_fill_for_copy_type::<[i8; 4], 2>(
                spec_array_fill_for_copy_type::<i8, 4>(0),
            ),
            8,
        );
        (Macroblockd { mb_segment_abs_delta: a as u8, segment_feature_data: d, ..mb }, t2)
    } else {
        (mb, t)
    }
}

/// Reads the segment tree, where there is a new one.
#[verifier::opaque]
pub open spec fn segment_tree(t: BoolState, mb: Macroblockd) -> (Macroblockd, BoolState) {
    if mb.update_mb_segmentation_map != 0 {
        let (p, t1) = segment_probs(t, spec_array_fill_for_copy_type::<Prob, 3>(255), 3);
        (Macroblockd { mb_segment_tree_probs: p, ..mb }, t1)
    } else {
        (mb, t)
    }
}

/// Reads what the header says about segments.
#[verifier::opaque]
pub open spec fn segment_header(t: BoolState, mb: Macroblockd) -> (Macroblockd, BoolState) {
    let (on, t1) = read_bool(t, 128);
    if on != 0 {
        let (map, t2) = read_bool(t1, 128);
        let (data, t3) = read_bool(t2, 128);
        let m = Macroblockd {
            segmentation_enabled: on as u8,
            update_mb_segmentation_map: map as u8,
            update_mb_segmentation_data: data as u8,
            ..mb
        };
        let (m1, t4) = segment_data(t3, m);
        segment_tree(t4, m1)
    } else {
        (
            Macroblockd {
                segmentation_enabled: 0,
                update_mb_segmentation_map: 0,
                update_mb_segmentation_data: 0,
                ..mb
            },
            t1,
        )
    }
}

fn read_segment_data(bc: &mut Vp8Reader<'_>, mb: &mut Macroblockd)
    requires
        old(bc).wf(),
    ensures
        final(bc).wf(),
        (*final(mb), final(bc)@) == segment_data(old(bc)@, *old(mb)),
{
    proof {
        reveal(segment_data);
    }
    if mb.update_mb_segmentation_data == 0 {
        return ;
    }
    mb.mb_segment_abs_delta = vp8_read_bit(bc) as u8;
    let ghost t1 = bc@;
    let mut d: [[i8; 4]; 2] = [[0i8; 4]; 2];
    let ghost d0 = d;
    let mut n: usize = 0;
    while n < 8
        invariant
            n <= 8,
            bc.wf(),
            (d, bc@) == segment_values(t1, d0, n as int),
        decreases 8 - n,
    {
        let i: usize = n / 4;
        let v: i8 = read_signed_value(bc, VP8_MB_FEATURE_DATA_BITS[i], 0);
        d[i][n % 4] = v;
        n += 1;
    }
    mb.segment_feature_data = d;
}

fn read_segment_tree(bc: &mut Vp8Reader<'_>, mb: &mut Macroblockd)
    requires
        old(bc).wf(),
    ensures
        final(bc).wf(),
        (*final(mb), final(bc)@) == segment_tree(old(bc)@, *old(mb)),
{
    proof {
        reveal(segment_tree);
        lemma2_to64();
    }
    if mb.update_mb_segmentation_map == 0 {
        return ;
    }
    let ghost t1 = bc@;
    let mut p: [Prob; 3] = [255u8; 3];
    let ghost p0 = p;
    let mut n: usize = 0;
    while n < 3
        invariant
            n <= 3,
            bc.wf(),
            pow2(8) == 256,
            (p, bc@) == segment_probs(t1, p0, n as int),
        decreases 3 - n,
    {
        if vp8_read_bit(bc) != 0 {
            p[n] = vp8_read_literal(bc, 8) as u8;
        }
        n += 1;
    }
    mb.mb_segment_tree_probs = p;
}

/// Reads what the header says about segments.
pub fn read_segment_header(bc: &mut Vp8Reader<'_>, mb: &mut Macroblockd)
    requires
        old(bc).wf(),
    ensures
        final(bc).wf(),
        (*final(mb), final(bc)@) == segment_header(old(bc)@, *old(mb)),
{
    proof {
        reveal(segment_header);
    }
    mb.segmentation_enabled = vp8_read_bit(bc) as u8;
    if mb.segmentation_enabled != 0 {
        mb.update_mb_segmentation_map = vp8_read_bit(bc) as u8;
        mb.update_mb_segmentation_data = vp8_read_bit(bc) as u8;
        read_segment_data(bc, mb);
        read_segment_tree(bc, mb);
    } else {
        mb.update_mb_segmentation_map = 0;
        mb.update_mb_segmentation_data = 0;
    }
}

/// Reads new values for some of the first `n` loop filter adjustments.
pub open spec fn lf_values(t: BoolState, d: [i8; 4], n: int) -> ([i8; 4], BoolState)
    decreases n,
{
    if n <= 0 {
        (d, t)
    } else {
        let (e, u) = lf_values(t, d, n - 1);
        let (v, w) = signed_value(u, 6, e[n - 1] as int);
        (spec_array_update(e, n - 1, v as i8), w)
    }
}

/// Reads the loop filter adjustments by reference frame and prediction mode.
#[verifier::opaque]
pub open spec fn lf_deltas(t: BoolState, mb: Macroblockd) -> (Macroblockd, BoolState) {
    let (on, t1) = read_bool(t, 128);
    if on != 0 {
        let (update, t2) = read_bool(t1, 128);
        if update != 0 {
            let (r, t3) = lf_values(t2, mb.ref_lf_deltas, 4);
            let (m, t4) = lf_values(t3, mb.mode_lf_deltas, 4);
            (
                Macroblockd {
                    mode_ref_lf_delta_enabled: on as u8,
                    mode_ref_lf_delta_update: update as u8,
                    ref_lf_deltas: r,
                    mode_lf_deltas: m,
                    ..mb
                },
                t4,
            )
        } else {
            (
                Macroblockd {
                    mode_ref_lf_delta_enabled: on as u8,
                    mode_ref_lf_delta_update: 0,
                    ..mb
                },
                t2,
            )
        }
    } else {
        (
            Macroblockd { mode_ref_lf_delta_enabled: 0, mode_ref_lf_delta_update: 0, ..mb },
            t1,
        )
    }
}

fn read_lf_values(bc: &mut Vp8Reader<'_>, d: &mut [i8; 4])
    requires
        old(bc).wf(),
    ensures
        final(bc).wf(),
        (*final(d), final(bc)@) == lf_values(old(bc)@, *old(d), 4),
{
    let ghost t0 = bc@;
    let mut n: usize = 0;
    while n < 4
        invariant
            n <= 4,
            bc.wf(),
            (*d, bc@) == lf_values(t0, *old(d), n as int),
        decreases 4 - n,
    {
        let v: i8 = read_signed_value(bc, 6, d[n]);
        d[n] = v;
        n += 1;
    }
}

/// Reads the loop filter adjustments.
pub fn read_lf_deltas(bc: &mut Vp8Reader<'_>, mb: &mut Macroblockd)
    requires
        old(bc).wf(),
    ensures
        final(bc).wf(),
        (*final(mb), final(bc)@) == lf_deltas(old(bc)@, *old(mb)),
{
    proof {
        reveal(lf_deltas);
    }
    mb.mode_ref_lf_delta_update = 0;
    mb.mode_ref_lf_delta_enabled = vp8_read_bit(bc) as u8;
    if mb.mode_ref_lf_delta_enabled != 0 {
        mb.mode_ref_lf_delta_update = vp8_read_bit(bc) as u8;
        if mb.mode_ref_lf_delta_update != 0 {
            read_lf_values(bc, &mut mb.ref_lf_deltas);
            read_lf_values(bc, &mut mb.mode_lf_deltas);
        }
    }
}

/// Reads whether pixels need clamping, which only key frames say.
#[verifier::opaque]
pub open spec fn clamp_header(t: BoolState, cm: Vp8Common) -> (ClampType, BoolState) {
    if cm.frame_type == FrameType::Key {
        let (_, t1) = read_bool(t, 128);
        let (c, t2) = read_bool(t1, 128);
        (if c == 0 {
            ClampType::Required
        } else {
            ClampType::NotRequired
        }, t2)
    } else {
        (cm.clamp_type, t)
    }
}

/// Reads the header up to the number of partitions.
#[verifier::opaque]
pub open spec fn first_header(t: BoolState, p: Vp8dComp) -> (Vp8dComp, BoolState) {
    let (clamp_type, t1) = clamp_header(t, p.common);
    let (mb1, t2) = segment_header(t1, p.mb);
    let (simple, t3) = read_bool(t2, 128);
    let (level, t4) = read_literal(t3, 6);
    let (sharp, t5) = read_literal(t4, 3);
    let (mb2, t6) = lf_deltas(t5, mb1);
    (
        Vp8dComp {
            mb: mb2,
            common: Vp8Common {
                clamp_type,
                filter_type: if simple == 0 {
                    LoopFilterType::Normal
                } else {
                    LoopFilterType::Simple
                },
                filter_level: level as i32,
                sharpness_level: sharp as i32,
                ..p.common
            },
            ..p
        },
        t6,
    )
}

/// Reads the header up to the number of partitions.
pub fn read_first_header(bc: &mut Vp8Reader<'_>, pbi: &mut Vp8dComp)
    requires
        old(bc).wf(),
    ensures
        final(bc).wf(),
        (*final(pbi), final(bc)@) == first_header(old(bc)@, *old(pbi)),
        0 <= final(pbi).common.filter_level <= 63,
        0 <= final(pbi).common.sharpness_level <= 7,
{
    proof {
        reveal(first_header);
        reveal(clamp_header);
        lemma2_to64();
    }
    if pbi.common.frame_type == FrameType::Key {
        let _ = vp8_read_bit(bc);
        pbi.common.clamp_type = if vp8_read_bit(bc) == 0 {
            ClampType::Required
        } else {
            ClampType::NotRequired
        };
    }
    read_segment_header(bc, &mut pbi.mb);
    pbi.common.filter_type = if vp8_read_bit(bc) == 0 {
        LoopFilterType::Normal
    } else {
        LoopFilterType::Simple
    };
    pbi.common.filter_level = vp8_read_literal(bc, 6);
    pbi.common.sharpness_level = vp8_read_literal(bc, 3);
    read_lf_deltas(bc, &mut pbi.mb);
}

/// The number of token partitions by its code.
pub open spec fn token_partition(v: int) -> TokenPartition {
    if v == 0 {
        TokenPartition::One
    } else if v == 1 {
        TokenPartition::Two
    } else if v == 2 {
        TokenPartition::Four
    } else {
        TokenPartition::Eight
    }
}

/// The number of token partitions.
pub open spec fn partition_number(p: TokenPartition) -> int {
    match p {
        TokenPartition::One => 1,
        TokenPartition::Two => 2,
        TokenPartition::Four => 4,
        TokenPartition::Eight => 8,
    }
}

/// The number of token partitions.
pub fn partition_count(p: TokenPartition) -> (n: usize)
    ensures
        n == partition_number(p),
        1 <= n <= 8,
{
    match p {
        TokenPartition::One => 1,
        TokenPartition::Two => 2,
        TokenPartition::Four => 4,
        TokenPartition::Eight => 8,
    }
}

/// Reads the number of token partitions; after the end of the data it stays as it was.
#[verifier::opaque]
pub open spec fn partition_header(
    t: BoolState,
    before: TokenPartition,
) -> (TokenPartition, BoolState) {
    let (v, t1) = read_literal(t, 2);
    (if overrun(t1) {
        before
    } else {
        token_partition(v)
    }, t1)
}

/// Reads the number of token partitions.
pub fn read_partition_header(bc: &mut Vp8Reader<'_>, p: &mut TokenPartition)
    requires
        old(bc).wf(),
    ensures
        final(bc).wf(),
        (*final(p), final(bc)@) == partition_header(old(bc)@, *old(p)),
{
    proof {
        reveal(partition_header);
        lemma2_to64();
    }
    let v: i32 = vp8_read_literal(bc, 2);
    if vp8dx_bool_error(bc) == 0 {
        *p = if v == 0 {
            TokenPartition::One
        } else if v == 1 {
            TokenPartition::Two
        } else if v == 2 {
            TokenPartition::Four
        } else {
            TokenPartition::Eight
        };
    }
}

proof fn lemma_flag(t: BoolState)
    ensures
        read_bool(t, 128).0 == 0 || read_bool(t, 128).0 == 1,
{
    reveal(read_bool);
}

/// A number with a sign: where the flag before it is not set, it is what it would be otherwise, and
/// nothing more is read; where it is set, it is read, whatever it would be otherwise.
pub proof fn law_signed_value(t: BoolState, bits: nat, otherwise: int)
    ensures
        ({
            let (b, t1) = read_bool(t, 128);
            let (v, t2) = read_literal(t1, bits);
            let (sign, t3) = read_bool(t2, 128);
            &&& b == 0 ==> signed_value(t, bits, otherwise) == (otherwise, t1)
            &&& b == 1 && sign == 0 ==> signed_value(t, bits, otherwise) == (v, t3)
            &&& b == 1 && sign == 1 ==> signed_value(t, bits, otherwise) == (-v, t3)
            &&& b == 0 || b == 1
            &&& b == 1 ==> -pow2(bits) < signed_value(t, bits, otherwise).0 < pow2(bits)
        }),
{
    lemma_flag(t);
    law_literal_bounded(read_bool(t, 128).1, bits);
    lemma_flag(read_literal(read_bool(t, 128).1, bits).1);
}

/// What the header says about segments lasts until a later header says otherwise: without segments
/// nothing changes but that they are off, without new values the values stay, and without a new
/// tree the tree stays. New values and new trees do not depend on those before.
pub proof fn law_segments_last(t: BoolState, a: Macroblockd, b: Macroblockd)
    ensures
        ({
            let (on, t1) = read_bool(t, 128);
            let (map, t2) = read_bool(t1, 128);
            let (data, t3) = read_bool(t2, 128);
            let (x, u) = segment_header(t, a);
            let (y, v) = segment_header(t, b);
            &&& u == v
            &&& x == (Macroblockd {
                segmentation_enabled: x.segmentation_enabled,
                update_mb_segmentation_map: x.update_mb_segmentation_map,
                update_mb_segmentation_data: x.update_mb_segmentation_data,
                mb_segment_abs_delta: x.mb_segment_abs_delta,
                segment_feature_data: x.segment_feature_data,
                mb_segment_tree_probs: x.mb_segment_tree_probs,
                ..a
            })
            &&& x.segmentation_enabled == on
            &&& on == 0 ==> {
                &&& u == t1
                &&& x.update_mb_segmentation_map == 0
                &&& x.update_mb_segmentation_data == 0
            }
            &&& on == 1 ==> {
                &&& x.update_mb_segmentation_map == map
                &&& x.update_mb_segmentation_data == data
            }
            &&& on == 0 || data == 0 ==> {
                &&& x.mb_segment_abs_delta == a.mb_segment_abs_delta
                &&& x.segment_feature_data == a.segment_feature_data
            }
            &&& on == 1 && data == 1 ==> {
                &&& x.mb_segment_abs_delta == read_bool(t3, 128).0
                &&& x.mb_segment_abs_delta == y.mb_segment_abs_delta
                &&& x.segment_feature_data == y.segment_feature_data
            }
            &&& on == 0 || map == 0 ==> x.mb_segment_tree_probs == a.mb_segment_tree_probs
            &&& on == 1 && map == 1 ==> x.mb_segment_tree_probs == y.mb_segment_tree_probs
        }),
{
    reveal(segment_header);
    reveal(segment_data);
    reveal(segment_tree);
    let t1 = read_bool(t, 128).1;
    let t2 = read_bool(t1, 128).1;
    lemma_flag(t);
    lemma_flag(t1);
    lemma_flag(t2);
    lemma_flag(read_bool(t2, 128).1);
}

/// Value number `k` of the segments, the quantizers before the levels and those of the first
/// segment first, is the one that is read after the `k` values before it: seven bits and a sign for
/// a quantizer, six bits and a sign for a level, and zero where it is left out.
pub proof fn law_segment_value(t: BoolState, d: [[i8; 4]; 2], n: int, i: int, j: int)
    requires
        0 <= i < 2,
        0 <= j < 4,
        4 * i + j < n <= 8,
    ensures
        ({
            let u = segment_values(t, d, 4 * i + j).1;
            let bits: nat = if i == 0 {
                7
            } else {
                6
            };
            segment_values(t, d, n).0[i][j] == signed_value(u, bits, 0).0
        }),
    decreases n,
{
    let m = n - 1;
    if 4 * i + j == m {
        assert(m / 4 == i && m % 4 == j);
        let u = segment_values(t, d, m).1;
        law_signed_value(u, 7, 0);
        law_signed_value(u, 6, 0);
        lemma2_to64();
    } else {
        law_segment_value(t, d, m, i, j);
        assert(m / 4 != i || m % 4 != j);
    }
}

/// Probability number `k` of the segment tree is 255 where it is left out, and else the eight bits
/// that are read after the probabilities before it.
pub proof fn law_segment_prob(t: BoolState, n: int, k: int)
    requires
        0 <= k < n <= 3,
    ensures
        ({
            let p = spec_array_fill_for_copy_type::<Prob, 3>(255);
            let u = segment_probs(t, p, k).1;
            let (b, v) = read_bool(u, 128);
            segment_probs(t, p, n).0[k] == (if b == 0 {
                255
            } else {
                read_literal(v, 8).0
            })
        }),
    decreases n,
{
    let p = spec_array_fill_for_copy_type::<Prob, 3>(255);
    if k < n - 1 {
        law_segment_prob(t, n - 1, k);
    } else {
        lemma_probs_rest(t, p, k, k);
        let v = read_bool(segment_probs(t, p, k).1, 128).1;
        law_literal_bounded(v, 8);
        lemma2_to64();
    }
}

proof fn lemma_probs_rest(t: BoolState, p: [Prob; 3], n: int, k: int)
    requires
        0 <= n <= k < 3,
    ensures
        segment_probs(t, p, n).0[k] == p[k],
    decreases n,
{
    if n > 0 {
        lemma_probs_rest(t, p, n - 1, k);
    }
}

/// Loop filter adjustment number `k` stays as it was where it is left out, and is else the six bits
/// and the sign that are read after the adjustments before it.
pub proof fn law_lf_value(t: BoolState, d: [i8; 4], n: int, k: int)
    requires
        0 <= k < n <= 4,
    ensures
        lf_values(t, d, n).0[k] == signed_value(lf_values(t, d, k).1, 6, d[k] as int).0,
    decreases n,
{
    if k < n - 1 {
        law_lf_value(t, d, n - 1, k);
    } else {
        lemma_lf_rest(t, d, k, k);
        law_signed_value(lf_values(t, d, k).1, 6, d[k] as int);
        lemma2_to64();
    }
}

proof fn lemma_lf_rest(t: BoolState, d: [i8; 4], n: int, k: int)
    requires
        0 <= n <= k < 4,
    ensures
        lf_values(t, d, n).0[k] == d[k],
    decreases n,
{
    if n > 0 {
        lemma_lf_rest(t, d, n - 1, k);
    }
}

/// Loop filter adjustments last until a later header says otherwise: those by reference frame come
/// first, then those by mode, and without an update they all stay, also while they are not used.
pub proof fn law_lf_deltas_last(t: BoolState, a: Macroblockd)
    ensures
        ({
            let (on, t1) = read_bool(t, 128);
            let (update, t2) = read_bool(t1, 128);
            let (x, u) = lf_deltas(t, a);
            &&& x == (Macroblockd {
                mode_ref_lf_delta_enabled: x.mode_ref_lf_delta_enabled,
                mode_ref_lf_delta_update: x.mode_ref_lf_delta_update,
                ref_lf_deltas: x.ref_lf_deltas,
                mode_lf_deltas: x.mode_lf_deltas,
                ..a
            })
            &&& x.mode_ref_lf_delta_enabled == on
            &&& on == 0 ==> u == t1
            &&& on == 0 || update == 0 ==> {
                &&& x.ref_lf_deltas == a.ref_lf_deltas
                &&& x.mode_lf_deltas == a.mode_lf_deltas
                &&& x.mode_ref_lf_delta_update == 0
            }
            &&& on == 1 && update == 0 ==> u == t2
            &&& on == 1 && update == 1 ==> {
                let (r, t3) = lf_values(t2, a.ref_lf_deltas, 4);
                let (m, t4) = lf_values(t3, a.mode_lf_deltas, 4);
                x.ref_lf_deltas == r && x.mode_lf_deltas == m && u == t4
            }
        }),
{
    reveal(lf_deltas);
    lemma_flag(t);
    lemma_flag(read_bool(t, 128).1);
}

/// The header up to the number of partitions changes what it speaks of and nothing else. The
/// filter, its level below 64 and its sharpness below 8 are those of this header, whatever held
/// before, and whether pixels need clamping stays as it was between key frames.
pub proof fn law_first_header_touches(t: BoolState, p: Vp8dComp)
    ensures
        ({
            let q = first_header(t, p).0;
            &&& q == (Vp8dComp {
                mb: q.mb,
                common: Vp8Common {
                    clamp_type: q.common.clamp_type,
                    filter_type: q.common.filter_type,
                    filter_level: q.common.filter_level,
                    sharpness_level: q.common.sharpness_level,
                    ..p.common
                },
                ..p
            })
            &&& 0 <= q.common.filter_level <= 63
            &&& 0 <= q.common.sharpness_level <= 7
            &&& p.common.frame_type == FrameType::Inter ==> q.common.clamp_type
                == p.common.clamp_type
        }),
{
    reveal(first_header);
    reveal(clamp_header);
    lemma2_to64();
    let t1 = clamp_header(t, p.common).1;
    let t2 = segment_header(t1, p.mb).1;
    let t3 = read_bool(t2, 128).1;
    law_literal_bounded(t3, 6);
    law_literal_bounded(read_literal(t3, 6).1, 3);
}

/// The number of partitions is a power of two: one doubled as often as the two bits say.
pub proof fn law_partition_number(t: BoolState, before: TokenPartition)
    ensures
        ({
            let (v, t1) = read_literal(t, 2);
            let (tp, u) = partition_header(t, before);
            &&& u == t1
            &&& overrun(t1) ==> tp == before
            &&& !overrun(t1) ==> partition_number(tp) == pow2(v as nat)
        }),
{
    reveal(partition_header);
    lemma2_to64();
    law_literal_bounded(t, 2);
}

} // verus!
