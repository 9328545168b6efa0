//! Reading of bits, literals and tree-coded values.

use crate::dboolhuff::{
    read_bool, read_literal, vp8_decode_value, vp8dx_decode_bool, BoolDecoder, BoolState,
};
use crate::tables::{Prob, TreeIndex, PROB_HALF};
use vstd::arithmetic::power2::pow2;
use vstd::prelude::*;

verus! {

/// Reads one boolean whose chance of being zero is `prob / 256`.
pub fn vp8_read(r: &mut BoolDecoder<'_>, prob: i32) -> (bit: i32)
    requires
        old(r).wf(),
        0 <= prob <= 255,
    ensures
        final(r).wf(),
        final(r).buffer == old(r).buffer,
        (bit as int, final(r)@) == read_bool(old(r)@, prob as int),
        bit == 0 || bit == 1,
{
    vp8dx_decode_bool(r, prob)
}

/// Reads a number of `bits` bits.
pub fn vp8_read_literal(r: &mut BoolDecoder<'_>, bits: i32) -> (z: i32)
    requires
        old(r).wf(),
        bits <= 31,
    ensures
        final(r).wf(),
        final(r).buffer == old(r).buffer,
        bits > 0 ==> (z as int, final(r)@) == read_literal(old(r)@, bits as nat) && 0 <= z < pow2(
            bits as nat,
        ),
        bits <= 0 ==> z == 0 && *final(r) == *old(r),
{
    vp8_decode_value(r, bits)
}

/// Reads one evenly distributed bit.
pub fn vp8_read_bit(r: &mut BoolDecoder<'_>) -> (bit: i32)
    requires
        old(r).wf(),
    ensures
        final(r).wf(),
        final(r).buffer == old(r).buffer,
        (bit as int, final(r)@) == read_bool(old(r)@, 128),
        bit == 0 || bit == 1,
{
    vp8_read(r, PROB_HALF as i32)
}

/// A coding tree: entries come in pairs, a positive entry points forward to another pair, and
/// there is a probability for each pair.
pub open spec fn tree_ok(t: Seq<TreeIndex>, p: Seq<Prob>) -> bool {
    &&& t.len() >= 2
    &&& t.len() % 2 == 0
    &&& p.len() >= t.len() / 2
    &&& forall|k: int|
        0 <= k < t.len() && #[trigger] t[k] > 0 ==> t[k] % 2 == 0 && t[k] > k && t[k] + 1 < t.len()
    &&& forall|k: int| 0 <= k < t.len() ==> #[trigger] t[k] > -128
}

/// Walks the tree from pair `i` down to a leaf.
pub open spec fn read_tree_from(s: BoolState, t: Seq<TreeIndex>, p: Seq<Prob>, i: int) -> (
    int,
    BoolState,
)
    decreases t.len() - i,
{
    let (bit, u) = read_bool(s, p[i / 2] as int);
    let next = t[i + bit] as int;
    if next <= 0 || next <= i || next >= t.len() {
        (-next, u)
    } else {
        read_tree_from(u, t, p, next)
    }
}

/// Reads a tree-coded value.
pub open spec fn read_tree(s: BoolState, t: Seq<TreeIndex>, p: Seq<Prob>) -> (int, BoolState) {
    read_tree_from(s, t, p, 0)
}

/// Reads a tree-coded value.
pub fn vp8_treed_read(r: &mut BoolDecoder<'_>, t: &[TreeIndex], p: &[Prob]) -> (leaf: i32)
    requires
        old(r).wf(),
        tree_ok(t@, p@),
    ensures
        final(r).wf(),
        final(r).buffer == old(r).buffer,
        (leaf as int, final(r)@) == read_tree(old(r)@, t@, p@),
        exists|k: int| 0 <= k < t@.len() && #[trigger] t@[k] <= 0 && leaf == -t@[k],
{
    let mut i: usize = 0;
    loop
        invariant
            r.wf(),
            r.buffer == old(r).buffer,
            tree_ok(t@, p@),
            i + 1 < t@.len(),
            i % 2 == 0,
            read_tree(old(r)@, t@, p@) == read_tree_from(r@, t@, p@, i as int),
        decreases t@.len() - i,
    {
        let bit: i32 = vp8_read(r, p[i / 2] as i32);
        let k: usize = i + bit as usize;
        let next: TreeIndex = t[k];
        if next <= 0 {
            assert(t@[k as int] <= 0);
            return -(next as i32);
        }
        i = next as usize;
    }
}

} // verus!
