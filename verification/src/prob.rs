//! Probabilities from counts, and their adaptation.

use crate::tables::{Prob, TreeIndex};
use crate::treereader::tree_ok;
use vstd::arithmetic::div_mod::lemma_fundamental_div_mod;
use vstd::prelude::*;

verus! {

pub type VpxProb = Prob;

pub type VpxTreeIndex = TreeIndex;

/// The largest probability.
pub const MAX_PROB: i32 = 255;

/// How many events count when the probabilities of modes and motion vectors adapt.
pub const MODE_MV_COUNT_SAT: u32 = 20;

/// How far probabilities of modes and motion vectors move, by the number of events.
pub const COUNT_TO_UPDATE_FACTOR: [i32; 21] = [
    0,
    6,
    12,
    19,
    25,
    32,
    38,
    44,
    51,
    57,
    64,
    70,
    76,
    83,
    89,
    96,
    102,
    108,
    115,
    121,
    128,
];

/// The chance of the other outcome.
pub fn vpx_complement(x: i32) -> (r: i32)
    requires
        x >= 256 + i32::MIN,
    ensures
        r == 255 - x,
{
    255 - x
}

/// The number of entries of a tree with the given number of leaves.
#[allow(non_snake_case)]
pub fn TREE_SIZE(leaf_count: usize) -> (n: usize)
    requires
        1 <= leaf_count,
        2 * leaf_count <= usize::MAX,
    ensures
        n == 2 * leaf_count - 2,
{
    2 * leaf_count - 2
}

/// The share `num / den` in 256ths, rounded to the nearest and limited to `1..=255`.
pub open spec fn share(num: int, den: int) -> int {
    let p = (num * 256 + den / 2) / den;
    if p < 1 {
        1
    } else if p > 255 {
        255
    } else {
        p
    }
}

/// The probability that goes with a share of `num` in `den` events.
pub fn get_prob(num: u32, den: u32) -> (p: VpxProb)
    requires
        den != 0,
    ensures
        p == share(num as int, den as int),
{
    let p: u64 = ((num as u64) * 256 + ((den / 2) as u64)) / (den as u64);
    if p < 1 {
        1
    } else if p > 255 {
        255
    } else {
        p as VpxProb
    }
}

/// The probability of the first of two outcomes; one half where there were no events.
pub open spec fn binary_share(n0: int, n1: int) -> int {
    if n0 + n1 == 0 {
        128
    } else {
        share(n0, n0 + n1)
    }
}

/// The probability of the first of two outcomes that came `n0` and `n1` times.
pub fn get_binary_prob(n0: u32, n1: u32) -> (p: VpxProb)
    requires
        n0 + n1 <= u32::MAX,
    ensures
        p == binary_share(n0 as int, n1 as int),
{
    let den: u32 = n0 + n1;
    if den == 0 {
        return 128;
    }
    get_prob(n0, den)
}

/// A probability between two, nearer to the second the larger the factor: all of the first at
/// 0, all of the second at 256.
pub open spec fn weighted(prob1: int, prob2: int, factor: int) -> int {
    (prob1 * (256 - factor) + prob2 * factor + 128) / 256
}

/// Mixes two probabilities. What exceeds the range of a probability wraps around.
pub fn weighted_prob(prob1: i32, prob2: i32, factor: i32) -> (p: VpxProb)
    requires
        256 - factor <= i32::MAX,
        i32::MIN <= prob1 * (256 - factor) <= i32::MAX,
        i32::MIN <= prob2 * factor <= i32::MAX,
        i32::MIN <= prob1 * (256 - factor) + prob2 * factor <= i32::MAX - 128,
    ensures
        p == weighted(prob1 as int, prob2 as int, factor as int) % 256,
{
    let x: i32 = prob1 * (256 - factor) + prob2 * factor;
    let y: i32 = x + 128;
    let z: i32 = y >> 8;
    assert(0 <= y - (y >> 8) * 256 < 256) by (bit_vector);
    assert(z as u8 == z % 256) by (bit_vector);
    z as VpxProb
}

/// A mixture of two probabilities is one, and lies between them.
pub proof fn law_weighted_between(p1: int, p2: int, factor: int)
    requires
        1 <= p1 <= 255,
        1 <= p2 <= 255,
        0 <= factor <= 256,
    ensures
        p1 <= p2 ==> p1 <= weighted(p1, p2, factor) <= p2,
        p2 <= p1 ==> p2 <= weighted(p1, p2, factor) <= p1,
{
    assert(p1 * (256 - factor) + p2 * factor == 256 * p1 + (p2 - p1) * factor) by (nonlinear_arith);
    if p1 <= p2 {
        assert(0 <= (p2 - p1) * factor <= (p2 - p1) * 256) by (nonlinear_arith)
            requires
                0 <= factor <= 256,
                0 <= p2 - p1,
        ;
    } else {
        assert((p2 - p1) * 256 <= (p2 - p1) * factor <= 0) by (nonlinear_arith)
            requires
                0 <= factor <= 256,
                p2 - p1 <= 0,
        ;
    }
}

/// The smaller of a count and its limit.
pub open spec fn saturated(count: int, count_sat: int) -> int {
    if count < count_sat {
        count
    } else {
        count_sat
    }
}

/// The weight of what was counted: at most `max_update_factor`, less where there were fewer
/// than `count_sat` events.
pub open spec fn update_factor(count: int, count_sat: int, max_update_factor: int) -> int {
    max_update_factor * saturated(count, count_sat) / count_sat
}

/// Moves a probability toward what was counted.
pub fn merge_probs(
    pre_prob: VpxProb,
    ct: &[u32; 2],
    count_sat: u32,
    max_update_factor: u32,
) -> (p: VpxProb)
    requires
        count_sat != 0,
        ct[0] + ct[1] <= u32::MAX,
        max_update_factor * saturated(ct[0] + ct[1], count_sat as int) <= u32::MAX,
        update_factor(ct[0] + ct[1], count_sat as int, max_update_factor as int) <= 8_421_503,
    ensures
        p == weighted(
            pre_prob as int,
            binary_share(ct[0] as int, ct[1] as int),
            update_factor(ct[0] + ct[1], count_sat as int, max_update_factor as int),
        ) % 256,
{
    let prob: VpxProb = get_binary_prob(ct[0], ct[1]);
    let sum: u32 = ct[0] + ct[1];
    let count: u32 = if sum < count_sat {
        sum
    } else {
        count_sat
    };
    assert(0 <= max_update_factor * count) by (nonlinear_arith);
    let factor: u32 = max_update_factor * count / count_sat;
    assert(-255 * 8_421_503 <= pre_prob * (256 - factor) <= 255 * 256) by (nonlinear_arith)
        requires
            0 <= factor <= 8_421_503,
            0 <= pre_prob <= 255,
    ;
    assert(0 <= prob * factor <= 255 * 8_421_503) by (nonlinear_arith)
        requires
            0 <= factor <= 8_421_503,
            0 <= prob <= 255,
    ;
    assert(pre_prob * (256 - factor) + prob * factor <= 255 * 8_421_503) by (nonlinear_arith)
        requires
            0 <= factor <= 8_421_503,
            0 <= prob <= 255,
            0 <= pre_prob <= 255,
    ;
    weighted_prob(pre_prob as i32, prob as i32, factor as i32)
}

/// The table of factors follows the rule for 20 events and a factor of at most 128.
pub proof fn law_update_factors(count: int)
    requires
        0 <= count <= 20,
    ensures
        COUNT_TO_UPDATE_FACTOR[count] == update_factor(count, 20, 128),
{
    assert(COUNT_TO_UPDATE_FACTOR[0] == 0);
    assert(COUNT_TO_UPDATE_FACTOR[1] == 6);
    assert(COUNT_TO_UPDATE_FACTOR[2] == 12);
    assert(COUNT_TO_UPDATE_FACTOR[3] == 19);
    assert(COUNT_TO_UPDATE_FACTOR[4] == 25);
    assert(COUNT_TO_UPDATE_FACTOR[5] == 32);
    assert(COUNT_TO_UPDATE_FACTOR[6] == 38);
    assert(COUNT_TO_UPDATE_FACTOR[7] == 44);
    assert(COUNT_TO_UPDATE_FACTOR[8] == 51);
    assert(COUNT_TO_UPDATE_FACTOR[9] == 57);
    assert(COUNT_TO_UPDATE_FACTOR[10] == 64);
    assert(COUNT_TO_UPDATE_FACTOR[11] == 70);
    assert(COUNT_TO_UPDATE_FACTOR[12] == 76);
    assert(COUNT_TO_UPDATE_FACTOR[13] == 83);
    assert(COUNT_TO_UPDATE_FACTOR[14] == 89);
    assert(COUNT_TO_UPDATE_FACTOR[15] == 96);
    assert(COUNT_TO_UPDATE_FACTOR[16] == 102);
    assert(COUNT_TO_UPDATE_FACTOR[17] == 108);
    assert(COUNT_TO_UPDATE_FACTOR[18] == 115);
    assert(COUNT_TO_UPDATE_FACTOR[19] == 121);
    assert(COUNT_TO_UPDATE_FACTOR[20] == 128);
}

/// A probability of modes or motion vectors after outcomes that came `n0` and `n1` times.
pub open spec fn mode_mv_merged(pre_prob: int, n0: int, n1: int) -> int {
    if n0 + n1 == 0 {
        pre_prob
    } else {
        weighted(pre_prob, share(n0, n0 + n1), update_factor(n0 + n1, 20, 128))
    }
}

/// Moves a probability of modes or motion vectors toward what was counted.
pub fn mode_mv_merge_probs(pre_prob: VpxProb, ct: &[u32; 2]) -> (p: VpxProb)
    requires
        ct[0] + ct[1] <= u32::MAX,
    ensures
        p == mode_mv_merged(pre_prob as int, ct[0] as int, ct[1] as int),
{
    let den: u32 = ct[0] + ct[1];
    if den == 0 {
        return pre_prob;
    }
    let count: u32 = if den < MODE_MV_COUNT_SAT {
        den
    } else {
        MODE_MV_COUNT_SAT
    };
    proof {
        law_update_factors(count as int);
    }
    let factor: i32 = COUNT_TO_UPDATE_FACTOR[count as usize];
    let prob: VpxProb = get_prob(ct[0], den);
    let a: i32 = pre_prob as i32;
    let b: i32 = prob as i32;
    assert(0 <= factor <= 128);
    assert(0 <= a * (256 - factor) <= 255 * (256 - factor)) by (nonlinear_arith)
        requires
            0 <= a <= 255,
            0 <= factor <= 128,
    ;
    assert(0 <= b * factor <= 255 * factor) by (nonlinear_arith)
        requires
            0 <= b <= 255,
            0 <= factor <= 128,
    ;
    weighted_prob(a, b, factor)
}

/// How many events fell under entry `k` of a tree.
pub open spec fn subtotal(t: Seq<TreeIndex>, counts: Seq<u32>, k: int) -> int
    decreases t.len() - k,
{
    let next = t[k] as int;
    if next <= 0 {
        counts[-next] as int
    } else if next <= k || next + 1 >= t.len() {
        0
    } else {
        subtotal(t, counts, next) + subtotal(t, counts, next + 1)
    }
}

/// `probs` with the probabilities of pair `i` of a tree, and of all pairs under it, moved from
/// `pre` toward what was counted.
pub open spec fn tree_merged(
    t: Seq<TreeIndex>,
    pre: Seq<Prob>,
    counts: Seq<u32>,
    probs: Seq<Prob>,
    i: int,
) -> Seq<Prob>
    decreases t.len() - i,
{
    let l = t[i] as int;
    let r = t[i + 1] as int;
    let a = if l <= 0 || l <= i || l >= t.len() {
        probs
    } else {
        tree_merged(t, pre, counts, probs, l)
    };
    let b = if r <= 0 || r <= i || r >= t.len() {
        a
    } else {
        tree_merged(t, pre, counts, a, r)
    };
    b.update(
        i / 2,
        mode_mv_merged(
            pre[i / 2] as int,
            subtotal(t, counts, i),
            subtotal(t, counts, i + 1),
        ) as Prob,
    )
}

/// Every leaf of a tree has a count.
pub open spec fn counts_ok(t: Seq<TreeIndex>, counts: Seq<u32>) -> bool {
    forall|k: int| 0 <= k < t.len() && #[trigger] t[k] <= 0 ==> -t[k] < counts.len()
}

fn tree_merge_probs_impl(
    i: usize,
    tree: &[VpxTreeIndex],
    pre_probs: &[VpxProb],
    counts: &[u32],
    probs: &mut [VpxProb],
) -> (n: u32)
    requires
        tree_ok(tree@, pre_probs@),
        counts_ok(tree@, counts@),
        old(probs)@.len() >= tree@.len() / 2,
        i + 1 < tree@.len(),
        i % 2 == 0,
        subtotal(tree@, counts@, i as int) + subtotal(tree@, counts@, i + 1) <= u32::MAX,
    ensures
        n == subtotal(tree@, counts@, i as int) + subtotal(tree@, counts@, i + 1),
        final(probs)@ == tree_merged(tree@, pre_probs@, counts@, old(probs)@, i as int),
        final(probs)@.len() == old(probs)@.len(),
    decreases tree@.len() - i,
{
    let l: VpxTreeIndex = tree[i];
    let r: VpxTreeIndex = tree[i + 1];
    proof {
        lemma_subtotal(tree@, counts@, i as int);
        lemma_subtotal(tree@, counts@, i + 1);
    }
    let left_count: u32 = if l <= 0 {
        counts[(-(l as i32)) as usize]
    } else {
        tree_merge_probs_impl(l as usize, tree, pre_probs, counts, probs)
    };
    let right_count: u32 = if r <= 0 {
        counts[(-(r as i32)) as usize]
    } else {
        tree_merge_probs_impl(r as usize, tree, pre_probs, counts, probs)
    };
    let ct: [u32; 2] = [left_count, right_count];
    let p: VpxProb = mode_mv_merge_probs(pre_probs[i / 2], &ct);
    probs[i / 2] = p;
    left_count + right_count
}

/// No entry has fewer than no events.
proof fn lemma_subtotal(t: Seq<TreeIndex>, counts: Seq<u32>, k: int)
    ensures
        subtotal(t, counts, k) >= 0,
    decreases t.len() - k,
{
    let next = t[k] as int;
    if !(next <= 0 || next <= k || next + 1 >= t.len()) {
        lemma_subtotal(t, counts, next);
        lemma_subtotal(t, counts, next + 1);
    }
}

/// Moves the probabilities of a tree toward what was counted at its leaves.
pub fn vpx_tree_merge_probs(
    tree: &[VpxTreeIndex],
    pre_probs: &[VpxProb],
    counts: &[u32],
    probs: &mut [VpxProb],
)
    requires
        tree_ok(tree@, pre_probs@),
        counts_ok(tree@, counts@),
        old(probs)@.len() >= tree@.len() / 2,
        subtotal(tree@, counts@, 0) + subtotal(tree@, counts@, 1) <= u32::MAX,
    ensures
        final(probs)@ == tree_merged(tree@, pre_probs@, counts@, old(probs)@, 0),
{
    let _ = tree_merge_probs_impl(0, tree, pre_probs, counts, probs);
}

/// No probability of a count is nought or certainty.
pub proof fn law_shares_in_range(n0: int, n1: int)
    requires
        0 <= n0,
        0 <= n1,
    ensures
        1 <= binary_share(n0, n1) <= 255,
{
}

/// A share is the nearest number of 256ths, where that is neither nought nor certainty.
pub proof fn law_share_nearest(num: int, den: int)
    requires
        0 <= num <= den,
        0 < den,
    ensures
        ({
            let p = share(num, den);
            &&& p > 1 ==> 2 * (p * den - 256 * num) <= den
            &&& p < 255 ==> 2 * (256 * num - p * den) <= den
        }),
{
    let x = num * 256 + den / 2;
    let p = x / den;
    lemma_fundamental_div_mod(x, den);
    assert(den * p == p * den) by (nonlinear_arith);
    assert(0 <= x % den < den) by (nonlinear_arith)
        requires
            den > 0,
    ;
    if p < 1 {
        assert(p * den <= 1 * den - den) by (nonlinear_arith)
            requires
                p < 1,
                den > 0,
        ;
    }
    if p > 255 {
        assert(255 * den <= p * den - den) by (nonlinear_arith)
            requires
                p > 255,
                den > 0,
        ;
    }
}

/// Nothing counted changes nothing; what was counted moves a probability toward its share, and
/// never past it.
pub proof fn law_merged_between(pre: int, n0: int, n1: int)
    requires
        1 <= pre <= 255,
        0 <= n0,
        0 <= n1,
    ensures
        ({
            let p = mode_mv_merged(pre, n0, n1);
            let s = binary_share(n0, n1);
            &&& n0 + n1 == 0 ==> p == pre
            &&& n0 + n1 > 0 && pre <= s ==> pre <= p <= s
            &&& n0 + n1 > 0 && s <= pre ==> s <= p <= pre
        }),
{
    if n0 + n1 > 0 {
        law_weighted_between(pre, share(n0, n0 + n1), update_factor(n0 + n1, 20, 128));
    }
}

} // verus!
