//! Reading of motion vectors.

use crate::dboolhuff::{read_bool, BoolState, Vp8Reader};
use crate::tables::{MvContext, VP8_SMALL_MVTREE};
use crate::treereader::{read_tree, read_tree_from, vp8_read, vp8_treed_read};
use crate::types::Mv;
use vstd::prelude::*;

verus! {

/// What the bits of a long motion vector component count.
pub const BIT_WEIGHTS: [i32; 10] = [1, 2, 4, 8, 16, 32, 64, 128, 256, 512];

/// Reads the lowest `n` bits of a long motion vector component.
pub open spec fn mv_low_bits(s: BoolState, p: MvContext, n: int) -> (int, BoolState)
    decreases n,
{
    if n <= 0 {
        (0, s)
    } else {
        let (x, t) = mv_low_bits(s, p, n - 1);
        let (bit, u) = read_bool(t, p[9 + n - 1] as int);
        (x + bit * BIT_WEIGHTS[n - 1], u)
    }
}

/// Reads the `n` highest bits of a long motion vector component, the highest first.
pub open spec fn mv_high_bits(s: BoolState, p: MvContext, x: int, n: int) -> (int, BoolState)
    decreases n,
{
    if n <= 0 {
        (x, s)
    } else {
        let (y, t) = mv_high_bits(s, p, x, n - 1);
        let i = 10 - n;
        let (bit, u) = read_bool(t, p[9 + i] as int);
        (y + bit * BIT_WEIGHTS[i], u)
    }
}

/// Reads the magnitude of a motion vector component.
#[verifier::opaque]
pub open spec fn mv_magnitude(s: BoolState, p: MvContext) -> (int, BoolState) {
    let (long, s1) = read_bool(s, p[0] as int);
    if long != 0 {
        let (low, s2) = mv_low_bits(s1, p, 3);
        let (x, s3) = mv_high_bits(s2, p, low, 6);
        if x < 16 {
            (x + 8, s3)
        } else {
            let (bit, s4) = read_bool(s3, p[12] as int);
            (x + 8 * bit, s4)
        }
    } else {
        read_tree(s1, VP8_SMALL_MVTREE@, p@.subrange(2, 9))
    }
}

/// Reads a motion vector component, in quarters of a pixel.
#[verifier::opaque]
pub open spec fn mv_component(s: BoolState, p: MvContext) -> (int, BoolState) {
    let (x, t) = mv_magnitude(s, p);
    if x == 0 {
        (0, t)
    } else {
        let (sign, u) = read_bool(t, p[1] as int);
        (if sign != 0 {
            -x
        } else {
            x
        }, u)
    }
}

/// The weight of bit `i`, or nothing where the bit is not set.
fn read_weight(bit: i32, i: usize) -> (w: i32)
    requires
        bit == 0 || bit == 1,
        i < 10,
    ensures
        w == bit * BIT_WEIGHTS[i as int],
        bit == 0 ==> w == 0,
        bit == 1 ==> w == BIT_WEIGHTS[i as int],
{
    if bit == 0 {
        0
    } else {
        BIT_WEIGHTS[i]
    }
}

/// Reads the magnitude of a component.
fn read_mvmagnitude(r: &mut Vp8Reader<'_>, p: &MvContext) -> (x: i32)
    requires
        old(r).wf(),
    ensures
        final(r).wf(),
        (x as int, final(r)@) == mv_magnitude(old(r)@, *p),
        0 <= x <= 1023,
{
    proof {
        reveal(mv_magnitude);
    }
    if vp8_read(r, p[0] as i32) != 0 {
        let ghost s1 = r@;
        let mut x: i32 = 0;
        let mut i: usize = 0;
        while i < 3
            invariant
                i <= 3,
                r.wf(),
                (x as int, r@) == mv_low_bits(s1, *p, i as int),
                0 <= x < BIT_WEIGHTS[i as int],
            decreases 3 - i,
        {
            let bit: i32 = vp8_read(r, p[9 + i] as i32);
            x = x + read_weight(bit, i);
            i += 1;
        }
        let ghost s2 = r@;
        let ghost low = x as int;
        let mut n: usize = 0;
        while n < 6
            invariant
                n <= 6,
                r.wf(),
                (x as int, r@) == mv_high_bits(s2, *p, low, n as int),
                0 <= x <= 7 + 1024 - 2 * BIT_WEIGHTS[9 - n],
                n < 6 || x <= 1015,
            decreases 6 - n,
        {
            let k: usize = 9 - n;
            let bit: i32 = vp8_read(r, p[9 + k] as i32);
            x = x + read_weight(bit, k);
            n += 1;
        }
        if x < 16 {
            x + 8
        } else {
            x + 8 * vp8_read(r, p[12] as i32)
        }
    } else {
        vp8_treed_read(
            r,
            VP8_SMALL_MVTREE.as_slice(),
            vstd::slice::slice_subrange(p.as_slice(), 2, 9),
        )
    }
}

/// Reads a motion vector component.
pub fn read_mvcomponent(r: &mut Vp8Reader<'_>, mvc: &MvContext) -> (x: i32)
    requires
        old(r).wf(),
    ensures
        final(r).wf(),
        (x as int, final(r)@) == mv_component(old(r)@, *mvc),
        -1023 <= x <= 1023,
{
    proof {
        reveal(mv_component);
    }
    let x: i32 = read_mvmagnitude(r, mvc);
    if x != 0 && vp8_read(r, mvc[1] as i32) != 0 {
        -x
    } else {
        x
    }
}

/// Reads a motion vector, in eighths of a pixel.
pub open spec fn get_mv(s: BoolState, mvc: [MvContext; 2]) -> (Mv, BoolState) {
    let (row, t) = mv_component(s, mvc[0]);
    let (col, u) = mv_component(t, mvc[1]);
    (Mv { row: (2 * row) as i16, col: (2 * col) as i16 }, u)
}

/// Reads a motion vector.
pub fn read_mv(r: &mut Vp8Reader<'_>, mvc: &[MvContext; 2]) -> (mv: Mv)
    requires
        old(r).wf(),
    ensures
        final(r).wf(),
        (mv, final(r)@) == get_mv(old(r)@, *mvc),
{
    let row: i32 = read_mvcomponent(r, &mvc[0]);
    let col: i32 = read_mvcomponent(r, &mvc[1]);
    Mv { row: (row * 2) as i16, col: (col * 2) as i16 }
}

proof fn lemma_flag(t: BoolState, prob: int)
    ensures
        read_bool(t, prob).0 == 0 || read_bool(t, prob).0 == 1,
{
    reveal(read_bool);
}

proof fn lemma_weight(bit: int, i: int, w: int)
    requires
        bit == 0 || bit == 1,
        0 <= i < 10,
        w == BIT_WEIGHTS[i],
    ensures
        bit * BIT_WEIGHTS[i] == w * bit,
{
}

/// A short motion vector component: three bits, the highest first, each with a probability of its
/// own after each value of those before it.
pub proof fn law_short_component(s: BoolState, p: MvContext)
    requires
        read_bool(s, p[0] as int).0 == 0,
    ensures
        ({
            let s1 = read_bool(s, p[0] as int).1;
            let (c, s2) = read_bool(s1, p[2] as int);
            let (b, s3) = read_bool(s2, p[3 + 3 * c] as int);
            let (a, s4) = read_bool(s3, p[4 + 3 * c + b] as int);
            mv_magnitude(s, p) == (4 * c + 2 * b + a, s4)
        }),
{
    reveal(mv_magnitude);
    let s1 = read_bool(s, p[0] as int).1;
    let q = p@.subrange(2, 9);
    let t = VP8_SMALL_MVTREE@;
    assert(q[0] == p[2] && q[1] == p[3] && q[2] == p[4] && q[3] == p[5] && q[4] == p[6] && q[5]
        == p[7] && q[6] == p[8]);
    let (c, s2) = read_bool(s1, p[2] as int);
    lemma_flag(s1, p[2] as int);
    let (b, s3) = read_bool(s2, p[3 + 3 * c] as int);
    lemma_flag(s2, p[3 + 3 * c] as int);
    lemma_flag(s3, p[4 + 3 * c + b] as int);
    let i = if c == 0 {
        2
    } else {
        8int
    };
    let j = if c == 0 {
        4 + 2 * b
    } else {
        10 + 2 * b
    };
    assert(t[0] == 2 && t[1] == 8 && t[2] == 4 && t[3] == 6 && t[8] == 10 && t[9] == 12);
    assert(t[4] == 0 && t[5] == -1 && t[6] == -2 && t[7] == -3);
    assert(t[10] == -4 && t[11] == -5 && t[12] == -6 && t[13] == -7);
    assert(read_tree_from(s1, t, q, 0) == read_tree_from(s2, t, q, i));
    assert(read_tree_from(s2, t, q, i) == read_tree_from(s3, t, q, j));
}

/// A long motion vector component: ten bits, each with a probability of its own. The lowest three
/// come first, then those from the highest down to the fifth, and last the fourth, which is left
/// out and set where none above it is: shorter ones are written otherwise.
pub proof fn law_long_component(s: BoolState, p: MvContext)
    requires
        read_bool(s, p[0] as int).0 == 1,
    ensures
        ({
            let t0 = read_bool(s, p[0] as int).1;
            let (b0, t1) = read_bool(t0, p[9] as int);
            let (b1, t2) = read_bool(t1, p[10] as int);
            let (b2, t3) = read_bool(t2, p[11] as int);
            let (b9, t4) = read_bool(t3, p[18] as int);
            let (b8, t5) = read_bool(t4, p[17] as int);
            let (b7, t6) = read_bool(t5, p[16] as int);
            let (b6, t7) = read_bool(t6, p[15] as int);
            let (b5, t8) = read_bool(t7, p[14] as int);
            let (b4, t9) = read_bool(t8, p[13] as int);
            let (b3, t10) = read_bool(t9, p[12] as int);
            let high = 512 * b9 + 256 * b8 + 128 * b7 + 64 * b6 + 32 * b5 + 16 * b4;
            let low = 4 * b2 + 2 * b1 + b0;
            &&& high == 0 ==> mv_magnitude(s, p) == (8 + low, t9)
            &&& high > 0 ==> mv_magnitude(s, p) == (high + 8 * b3 + low, t10)
        }),
{
    reveal(mv_magnitude);
    let t0 = read_bool(s, p[0] as int).1;
    let (b0, t1) = read_bool(t0, p[9] as int);
    let (b1, t2) = read_bool(t1, p[10] as int);
    let (b2, t3) = read_bool(t2, p[11] as int);
    let (b9, t4) = read_bool(t3, p[18] as int);
    let (b8, t5) = read_bool(t4, p[17] as int);
    let (b7, t6) = read_bool(t5, p[16] as int);
    let (b6, t7) = read_bool(t6, p[15] as int);
    let (b5, t8) = read_bool(t7, p[14] as int);
    let (b4, t9) = read_bool(t8, p[13] as int);
    lemma_flag(t0, p[9] as int);
    lemma_flag(t1, p[10] as int);
    lemma_flag(t2, p[11] as int);
    lemma_flag(t3, p[18] as int);
    lemma_flag(t4, p[17] as int);
    lemma_flag(t5, p[16] as int);
    lemma_flag(t6, p[15] as int);
    lemma_flag(t7, p[14] as int);
    lemma_flag(t8, p[13] as int);
    lemma_flag(t9, p[12] as int);
    lemma_weight(b0, 0, 1);
    lemma_weight(b1, 1, 2);
    lemma_weight(b2, 2, 4);
    lemma_weight(b9, 9, 512);
    lemma_weight(b8, 8, 256);
    lemma_weight(b7, 7, 128);
    lemma_weight(b6, 6, 64);
    lemma_weight(b5, 5, 32);
    lemma_weight(b4, 4, 16);
    let low = 4 * b2 + 2 * b1 + b0;
    assert(mv_low_bits(t0, p, 0) == (0int, t0));
    assert(mv_low_bits(t0, p, 1) == (b0, t1));
    assert(mv_low_bits(t0, p, 2) == (b0 + 2 * b1, t2));
    assert(mv_low_bits(t0, p, 3) == (low, t3));
    assert(mv_high_bits(t3, p, low, 0) == (low, t3));
    assert(mv_high_bits(t3, p, low, 1) == (low + 512 * b9, t4));
    assert(mv_high_bits(t3, p, low, 2) == (low + 512 * b9 + 256 * b8, t5));
    assert(mv_high_bits(t3, p, low, 3) == (low + 512 * b9 + 256 * b8 + 128 * b7, t6));
    assert(mv_high_bits(t3, p, low, 4) == (low + 512 * b9 + 256 * b8 + 128 * b7 + 64 * b6, t7));
    assert(mv_high_bits(t3, p, low, 5) == (
        low + 512 * b9 + 256 * b8 + 128 * b7 + 64 * b6 + 32 * b5,
        t8,
    ));
    assert(mv_high_bits(t3, p, low, 6) == (
        low + 512 * b9 + 256 * b8 + 128 * b7 + 64 * b6 + 32 * b5 + 16 * b4,
        t9,
    ));
}

/// A component has a sign unless it is zero, and a vector is its row and its column, each twice
/// what was read, with probabilities of their own.
pub proof fn law_vector_read(s: BoolState, mvc: [MvContext; 2])
    ensures
        ({
            let (x, t) = mv_magnitude(s, mvc[0]);
            let (sign, u) = read_bool(t, mvc[0][1] as int);
            let (row, r) = mv_component(s, mvc[0]);
            let (col, c) = mv_component(r, mvc[1]);
            &&& x == 0 ==> row == 0 && r == t
            &&& x != 0 && sign == 0 ==> row == x && r == u
            &&& x != 0 && sign == 1 ==> row == -x && r == u
            &&& sign == 0 || sign == 1
            &&& get_mv(s, mvc).1 == c
            &&& get_mv(s, mvc).0.row == 2 * row
            &&& get_mv(s, mvc).0.col == 2 * col
        }),
{
    reveal(mv_component);
    let (x, t) = mv_magnitude(s, mvc[0]);
    lemma_flag(t, mvc[0][1] as int);
    lemma_magnitude(s, mvc[0]);
    let r = mv_component(s, mvc[0]).1;
    lemma_magnitude(r, mvc[1]);
}

proof fn lemma_magnitude(s: BoolState, p: MvContext)
    ensures
        0 <= mv_magnitude(s, p).0 <= 1023,
{
    lemma_flag(s, p[0] as int);
    if read_bool(s, p[0] as int).0 == 0 {
        law_short_component(s, p);
        let s1 = read_bool(s, p[0] as int).1;
        let (c, s2) = read_bool(s1, p[2] as int);
        lemma_flag(s1, p[2] as int);
        let (b, s3) = read_bool(s2, p[3 + 3 * c] as int);
        lemma_flag(s2, p[3 + 3 * c] as int);
        lemma_flag(s3, p[4 + 3 * c + b] as int);
    } else {
        law_long_component(s, p);
        let t0 = read_bool(s, p[0] as int).1;
        let t1 = read_bool(t0, p[9] as int).1;
        let t2 = read_bool(t1, p[10] as int).1;
        let t3 = read_bool(t2, p[11] as int).1;
        let t4 = read_bool(t3, p[18] as int).1;
        let t5 = read_bool(t4, p[17] as int).1;
        let t6 = read_bool(t5, p[16] as int).1;
        let t7 = read_bool(t6, p[15] as int).1;
        let t8 = read_bool(t7, p[14] as int).1;
        let t9 = read_bool(t8, p[13] as int).1;
        lemma_flag(t0, p[9] as int);
        lemma_flag(t1, p[10] as int);
        lemma_flag(t2, p[11] as int);
        lemma_flag(t3, p[18] as int);
        lemma_flag(t4, p[17] as int);
        lemma_flag(t5, p[16] as int);
        lemma_flag(t6, p[15] as int);
        lemma_flag(t7, p[14] as int);
        lemma_flag(t8, p[13] as int);
        lemma_flag(t9, p[12] as int);
    }
}

} // verus!
