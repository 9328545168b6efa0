//! Codewords and probabilities of coding trees.

use crate::prob::binary_share;
use crate::tables::{Prob, TreeIndex, PROB_HALF};
use crate::treereader::tree_ok;
use vstd::arithmetic::power2::{lemma2_to64, lemma_pow2_pos, lemma_pow2_unfold, pow2};
use vstd::prelude::*;

verus! {

/// A codeword: its bits as a number, and how many there are.
#[derive(Clone, Copy, PartialEq, Eq, Structural, Debug)]
pub struct Token {
    pub value: i32,
    pub len: i32,
}

/// How many bits lead from pair `i` of a tree to its deepest leaf.
pub open spec fn height(t: Seq<TreeIndex>, i: int) -> int
    decreases t.len() - i,
{
    let l = t[i] as int;
    let r = t[i + 1] as int;
    let a = if l <= 0 || l <= i || l >= t.len() {
        0
    } else {
        height(t, l)
    };
    let b = if r <= 0 || r <= i || r >= t.len() {
        0
    } else {
        height(t, r)
    };
    1 + if a < b {
        b
    } else {
        a
    }
}

/// `p` with the codewords of all leaves under entry `k` of a tree, where `v` is the codeword of
/// the entry and `len` its length. The codeword of leaf `s` is number `s - offset`.
pub open spec fn tokens_at(
    t: Seq<TreeIndex>,
    p: Seq<Token>,
    offset: int,
    k: int,
    v: int,
    len: int,
) -> Seq<Token>
    decreases t.len() - k,
{
    let next = t[k] as int;
    if next <= 0 {
        p.update(-next - offset, Token { value: v as i32, len: len as i32 })
    } else if next <= k || next + 1 >= t.len() {
        p
    } else {
        tokens_at(
            t,
            tokens_at(t, p, offset, next, 2 * v, len + 1),
            offset,
            next + 1,
            2 * v + 1,
            len + 1,
        )
    }
}

/// The codewords of all leaves of a tree.
pub open spec fn tokens_of(t: Seq<TreeIndex>, p: Seq<Token>, offset: int) -> Seq<Token> {
    tokens_at(t, tokens_at(t, p, offset, 0, 0, 1), offset, 1, 1, 1)
}

/// There is a place for the codeword of every leaf.
pub open spec fn leaves_fit(t: Seq<TreeIndex>, n: int, offset: int) -> bool {
    forall|k: int| 0 <= k < t.len() && #[trigger] t[k] <= 0 ==> offset <= -t[k] < n + offset
}

/// A tree in the form that codewords are made of.
pub open spec fn coding_tree(t: Seq<TreeIndex>) -> bool {
    &&& tree_ok(t, Seq::new(t.len(), |k: int| PROB_HALF))
    &&& height(t, 0) <= 30
}

fn tree2tok(p: &mut [Token], offset: i32, t: &[TreeIndex], i: usize, v: i32, len: i32)
    requires
        tree_ok(t@, Seq::new(t@.len(), |k: int| PROB_HALF)),
        leaves_fit(t@, old(p)@.len() as int, offset as int),
        i + 1 < t@.len(),
        i % 2 == 0,
        0 <= len,
        0 <= v < pow2(len as nat),
        len + height(t@, i as int) <= 30,
    ensures
        final(p)@ == tokens_at(
            t@,
            tokens_at(t@, old(p)@, offset as int, i as int, 2 * v, len + 1),
            offset as int,
            i + 1,
            2 * v + 1,
            len + 1,
        ),
        final(p)@.len() == old(p)@.len(),
    decreases t@.len() - i,
{
    proof {
        lemma_pow2_unfold((len + 1) as nat);
        lemma_height(t@, i as int);
        lemma_bits(len + 1);
    }
    let w: i32 = v + v;
    let left: TreeIndex = t[i];
    if left <= 0 {
        p[(-(left as i64) - offset as i64) as usize] = Token { value: w, len: len + 1 };
    } else {
        tree2tok(p, offset, t, left as usize, w, len + 1);
    }
    let right: TreeIndex = t[i + 1];
    if right <= 0 {
        p[(-(right as i64) - offset as i64) as usize] = Token { value: w + 1, len: len + 1 };
    } else {
        tree2tok(p, offset, t, right as usize, w + 1, len + 1);
    }
}

/// A codeword of at most 30 bits is a small number.
proof fn lemma_bits(len: int)
    requires
        0 <= len <= 30,
    ensures
        1 <= pow2(len as nat) <= 0x4000_0000,
{
    lemma2_to64();
    lemma_pow2_pos(len as nat);
    if len < 30 {
        vstd::arithmetic::power2::lemma_pow2_strictly_increases(len as nat, 30);
    }
}

/// At least one bit leads to a leaf.
proof fn lemma_height(t: Seq<TreeIndex>, i: int)
    ensures
        height(t, i) >= 1,
        0 < t[i] && i < t[i] < t.len() ==> height(t, t[i] as int) < height(t, i),
        0 < t[i + 1] && i < t[i + 1] < t.len() ==> height(t, t[i + 1] as int) < height(t, i),
    decreases t.len() - i,
{
    if 0 < t[i] && i < t[i] < t.len() {
        lemma_height(t, t[i] as int);
    }
    if 0 < t[i + 1] && i < t[i + 1] < t.len() {
        lemma_height(t, t[i + 1] as int);
    }
}

/// Computes the codewords of the leaves of a tree.
pub fn vp8_tokens_from_tree(p: &mut [Token], t: &[TreeIndex])
    requires
        coding_tree(t@),
        leaves_fit(t@, old(p)@.len() as int, 0),
    ensures
        final(p)@ == tokens_of(t@, old(p)@, 0),
        final(p)@.len() == old(p)@.len(),
{
    proof {
        lemma2_to64();
    }
    tree2tok(p, 0, t, 0, 0, 0);
}

/// Computes the codewords of the leaves of a tree whose first leaf is number `offset`.
pub fn vp8_tokens_from_tree_offset(p: &mut [Token], t: &[TreeIndex], offset: i32)
    requires
        coding_tree(t@),
        leaves_fit(t@, old(p)@.len() as int, offset as int),
    ensures
        final(p)@ == tokens_of(t@, old(p)@, offset as int),
        final(p)@.len() == old(p)@.len(),
{
    proof {
        lemma2_to64();
    }
    tree2tok(p, offset, t, 0, 0, 0);
}

/// Bit `k` of a codeword, counted from its end.
pub open spec fn code_bit(value: int, k: int) -> int {
    (value / pow2(k as nat) as int) % 2
}

/// The last `len` bits of a codeword lead from pair `i` of a tree to a leaf.
pub open spec fn leads(t: Seq<TreeIndex>, i: int, value: int, len: int) -> bool
    decreases len,
{
    if len <= 0 {
        false
    } else {
        let next = t[i + code_bit(value, len - 1)] as int;
        if len == 1 {
            next <= 0
        } else {
            0 < next && leads(t, next, value, len - 1)
        }
    }
}

/// The leaf that the last `len` bits of a codeword lead to from pair `i` of a tree.
pub open spec fn leaf_of(t: Seq<TreeIndex>, i: int, value: int, len: int) -> int
    decreases len,
{
    let next = t[i + code_bit(value, len - 1)] as int;
    if len <= 1 {
        -next
    } else {
        leaf_of(t, next, value, len - 1)
    }
}

/// On the way that the last `len` bits of a codeword lead from pair `i` of a tree, pair `j`
/// is left by bit `b`.
pub open spec fn passes(t: Seq<TreeIndex>, i: int, value: int, len: int, j: int, b: int) -> bool
    decreases len,
{
    if len <= 0 {
        false
    } else {
        let bit = code_bit(value, len - 1);
        ||| i == 2 * j && b == bit
        ||| len > 1 && passes(t, t[i + bit] as int, value, len - 1, j, b)
    }
}

/// How many of the events of the first `n` leaves leave pair `j` of a tree by bit `b`.
pub open spec fn branch_total(
    t: Seq<TreeIndex>,
    tok: Seq<Token>,
    events: Seq<u32>,
    n: int,
    j: int,
    b: int,
) -> int
    decreases n,
{
    if n <= 0 {
        0
    } else {
        branch_total(t, tok, events, n - 1, j, b) + if passes(
            t,
            0,
            tok[n - 1].value as int,
            tok[n - 1].len as int,
            j,
            b,
        ) {
            events[n - 1] as int
        } else {
            0
        }
    }
}

/// The sum of the first `n` numbers.
pub open spec fn event_total(events: Seq<u32>, n: int) -> int
    decreases n,
{
    if n <= 0 {
        0
    } else {
        event_total(events, n - 1) + events[n - 1]
    }
}

/// The codewords of the first `n` leaves lead to leaves.
pub open spec fn codes_ok(t: Seq<TreeIndex>, tok: Seq<Token>, n: int) -> bool {
    forall|s: int|
        0 <= s < n ==> (#[trigger] tok[s]).value >= 0 && tok[s].len <= 31 && leads(
            t,
            0,
            tok[s].value as int,
            tok[s].len as int,
        )
}

/// A way through a tree goes to later pairs only.
proof fn lemma_passes_later(t: Seq<TreeIndex>, i: int, value: int, len: int, j: int, b: int)
    requires
        tree_ok(t, Seq::new(t.len(), |k: int| PROB_HALF)),
        0 <= i,
        i + 1 < t.len(),
        leads(t, i, value, len),
        passes(t, i, value, len, j, b),
    ensures
        i <= 2 * j,
    decreases len,
{
    let bit = code_bit(value, len - 1);
    let next = t[i + bit] as int;
    if !(i == 2 * j && b == bit) {
        lemma_passes_later(t, next, value, len - 1, j, b);
    }
}

/// A pair is left by one bit only.
proof fn lemma_passes_once(t: Seq<TreeIndex>, i: int, value: int, len: int, j: int)
    requires
        tree_ok(t, Seq::new(t.len(), |k: int| PROB_HALF)),
        0 <= i,
        i + 1 < t.len(),
        leads(t, i, value, len),
    ensures
        !(passes(t, i, value, len, j, 0) && passes(t, i, value, len, j, 1)),
    decreases len,
{
    let bit = code_bit(value, len - 1);
    let next = t[i + bit] as int;
    if len > 1 {
        lemma_passes_once(t, next, value, len - 1, j);
        if i == 2 * j {
            if passes(t, next, value, len - 1, j, 0) {
                lemma_passes_later(t, next, value, len - 1, j, 0);
            }
            if passes(t, next, value, len - 1, j, 1) {
                lemma_passes_later(t, next, value, len - 1, j, 1);
            }
        }
    }
}

/// No branch is taken more often than there were events.
proof fn lemma_branch_total(t: Seq<TreeIndex>, tok: Seq<Token>, events: Seq<u32>, n: int, j: int)
    requires
        0 <= n,
        t.len() >= 2,
        tree_ok(t, Seq::new(t.len(), |k: int| PROB_HALF)),
        codes_ok(t, tok, n),
    ensures
        0 <= branch_total(t, tok, events, n, j, 0),
        0 <= branch_total(t, tok, events, n, j, 1),
        branch_total(t, tok, events, n, j, 0) + branch_total(t, tok, events, n, j, 1)
            <= event_total(events, n),
    decreases n,
{
    if n > 0 {
        lemma_branch_total(t, tok, events, n - 1, j);
        assert(tok[n - 1].value >= 0);
        lemma_passes_once(t, 0, tok[n - 1].value as int, tok[n - 1].len as int, j);
    }
}

/// The sum of more numbers is not smaller.
proof fn lemma_event_total(events: Seq<u32>, n: int, m: int)
    requires
        n <= m,
    ensures
        event_total(events, n) <= event_total(events, m),
    decreases m - n,
{
    if n < m {
        lemma_event_total(events, n, m - 1);
    }
}

fn bit_of(value: i32, k: i32) -> (b: usize)
    requires
        0 <= value,
        0 <= k <= 30,
    ensures
        b == code_bit(value as int, k as int),
        b == 0 || b == 1,
{
    let x: u32 = value as u32;
    let y: u32 = x >> (k as u32);
    proof {
        vstd::bits::lemma_u32_shr_is_div(x, k as u32);
    }
    (y % 2) as usize
}

/// The count of each branch.
pub open spec fn branches_counted(
    t: Seq<TreeIndex>,
    tok: Seq<Token>,
    events: Seq<u32>,
    n: int,
    ct: Seq<[u32; 2]>,
) -> bool {
    forall|j: int, b: int|
        0 <= j < t.len() / 2 && 0 <= b < 2 ==> (#[trigger] ct[j]@[b]) == branch_total(
            t,
            tok,
            events,
            n,
            j,
            b,
        )
}

/// Adds the events of one leaf to the branches on the way to it.
fn count_leaf(tok: Token, tree: &[TreeIndex], branch_ct: &mut [[u32; 2]], ct: u32)
    requires
        tree_ok(tree@, Seq::new(tree@.len(), |k: int| PROB_HALF)),
        old(branch_ct)@.len() >= tree@.len() / 2,
        tok.value >= 0,
        tok.len <= 31,
        leads(tree@, 0, tok.value as int, tok.len as int),
        forall|j: int, b: int|
            0 <= j < tree@.len() / 2 && 0 <= b < 2 ==> (#[trigger] old(branch_ct)@[j]@[b]) + ct
                <= u32::MAX,
    ensures
        final(branch_ct)@.len() == old(branch_ct)@.len(),
        forall|j: int|
            tree@.len() / 2 <= j < old(branch_ct)@.len() ==> #[trigger] final(branch_ct)@[j]
                == old(branch_ct)@[j],
        forall|j: int, b: int|
            0 <= j < tree@.len() / 2 && 0 <= b < 2 ==> (#[trigger] final(branch_ct)@[j]@[b])
                == old(branch_ct)@[j]@[b] + if passes(
                tree@,
                0,
                tok.value as int,
                tok.len as int,
                j,
                b,
            ) {
                ct as int
            } else {
                0
            },
{
    let mut left: i32 = tok.len;
    let mut i: usize = 0;
    let ghost ct0 = branch_ct@;
    while left > 0
        invariant
            ct0 == old(branch_ct)@,
            tree_ok(tree@, Seq::new(tree@.len(), |k: int| PROB_HALF)),
            branch_ct@.len() == ct0.len(),
            ct0.len() >= tree@.len() / 2,
            tok.value >= 0,
            0 <= left <= 31,
            left > 0 ==> i + 1 < tree@.len() && i % 2 == 0 && leads(
                tree@,
                i as int,
                tok.value as int,
                left as int,
            ),
            forall|j: int, b: int|
                0 <= j < tree@.len() / 2 && 0 <= b < 2 ==> (#[trigger] ct0[j]@[b]) + ct <= u32::MAX,
            forall|j: int|
                tree@.len() / 2 <= j < ct0.len() ==> #[trigger] branch_ct@[j] == ct0[j],
            forall|j: int, b: int|
                0 <= j < tree@.len() / 2 && 0 <= b < 2 ==> (#[trigger] branch_ct@[j]@[b]) + (
                if passes(tree@, i as int, tok.value as int, left as int, j, b) {
                    ct as int
                } else {
                    0
                }) == ct0[j]@[b] + (if passes(
                    tree@,
                    0,
                    tok.value as int,
                    tok.len as int,
                    j,
                    b,
                ) {
                    ct as int
                } else {
                    0
                }),
        decreases left,
    {
        let b: usize = bit_of(tok.value, left - 1);
        let j: usize = i / 2;
        let ghost before = branch_ct@;
        let next: TreeIndex = tree[i + b];
        proof {
            assert(passes(tree@, i as int, tok.value as int, left as int, j as int, b as int));
            assert(before[j as int]@[b as int] + ct == ct0[j as int]@[b as int] + (if passes(
                tree@,
                0,
                tok.value as int,
                tok.len as int,
                j as int,
                b as int,
            ) {
                ct as int
            } else {
                0
            }));
            assert(ct0[j as int]@[b as int] + ct <= u32::MAX);
        }
        let mut pair: [u32; 2] = branch_ct[j];
        pair[b] = pair[b] + ct;
        branch_ct[j] = pair;
        left = left - 1;
        proof {
            assert forall|j2: int, b2: int|
                0 <= j2 < tree@.len() / 2 && 0 <= b2 < 2 implies (#[trigger] branch_ct@[j2]@[b2])
                + (if passes(tree@, next as int, tok.value as int, left as int, j2, b2) {
                ct as int
            } else {
                0
            }) == ct0[j2]@[b2] + (if passes(
                tree@,
                0,
                tok.value as int,
                tok.len as int,
                j2,
                b2,
            ) {
                ct as int
            } else {
                0
            }) by {
                assert(before[j2]@[b2] + (if passes(
                    tree@,
                    i as int,
                    tok.value as int,
                    left + 1,
                    j2,
                    b2,
                ) {
                    ct as int
                } else {
                    0
                }) == ct0[j2]@[b2] + (if passes(
                    tree@,
                    0,
                    tok.value as int,
                    tok.len as int,
                    j2,
                    b2,
                ) {
                    ct as int
                } else {
                    0
                }));
                if j2 == j && left > 0 && passes(
                    tree@,
                    next as int,
                    tok.value as int,
                    left as int,
                    j2,
                    b2,
                ) {
                    lemma_passes_later(tree@, next as int, tok.value as int, left as int, j2, b2);
                }
            }
        }
        if left > 0 {
            i = next as usize;
        }
    }
}

fn branch_counts(
    n: usize,
    tok: &[Token],
    tree: &[TreeIndex],
    branch_ct: &mut [[u32; 2]],
    num_events: &[u32],
)
    requires
        n >= 2,
        tree@.len() == 2 * n - 2,
        tree_ok(tree@, Seq::new(tree@.len(), |k: int| PROB_HALF)),
        tok@.len() >= n,
        num_events@.len() >= n,
        old(branch_ct)@.len() >= n - 1,
        codes_ok(tree@, tok@, n as int),
        event_total(num_events@, n as int) <= u32::MAX,
    ensures
        final(branch_ct)@.len() == old(branch_ct)@.len(),
        branches_counted(tree@, tok@, num_events@, n as int, final(branch_ct)@),
        forall|j: int|
            n - 1 <= j < old(branch_ct)@.len() ==> #[trigger] final(branch_ct)@[j] == old(branch_ct)@[j],
{
    let tree_len: usize = n - 1;
    let mut t: usize = 0;
    while t < tree_len
        invariant
            tree_len == n - 1,
            t <= tree_len,
            branch_ct@.len() == old(branch_ct)@.len(),
            branch_ct@.len() >= tree_len,
            forall|j: int, b: int| 0 <= j < t && 0 <= b < 2 ==> (#[trigger] branch_ct@[j]@[b]) == 0,
            forall|j: int|
                tree_len <= j < branch_ct@.len() ==> #[trigger] branch_ct@[j] == old(branch_ct)@[j],
        decreases tree_len - t,
    {
        branch_ct[t] = [0, 0];
        t = t + 1;
    }
    let mut s: usize = 0;
    while s < n
        invariant
            n >= 2,
            s <= n,
            tree@.len() == 2 * n - 2,
            tree_ok(tree@, Seq::new(tree@.len(), |k: int| PROB_HALF)),
            tok@.len() >= n,
            num_events@.len() >= n,
            branch_ct@.len() == old(branch_ct)@.len(),
            branch_ct@.len() >= n - 1,
            codes_ok(tree@, tok@, n as int),
            event_total(num_events@, n as int) <= u32::MAX,
            branches_counted(tree@, tok@, num_events@, s as int, branch_ct@),
            forall|j: int|
                n - 1 <= j < branch_ct@.len() ==> #[trigger] branch_ct@[j] == old(branch_ct)@[j],
        decreases n - s,
    {
        proof {
            lemma_event_total(num_events@, s + 1, n as int);
            assert forall|j: int, b: int|
                0 <= j < tree@.len() / 2 && 0 <= b < 2 implies (#[trigger] branch_ct@[j]@[b])
                + num_events@[s as int] <= u32::MAX by {
                lemma_branch_total(tree@, tok@, num_events@, s as int, j);
            }
            assert(tok@[s as int].value >= 0);
        }
        count_leaf(tok[s], tree, branch_ct, num_events[s]);
        s = s + 1;
    }
}

/// The probability of the first of two branches that were taken `c0` and `c1` times, in units of
/// which `pfactor` are certainty. What exceeds 32 bits on the way wraps around.
pub open spec fn branch_prob(c0: int, c1: int, pfactor: int, round: bool) -> int {
    let tot = c0 + c1;
    if tot == 0 {
        128
    } else {
        let p = ((c0 * pfactor + if round {
            tot / 2
        } else {
            0
        }) % 0x1_0000_0000) / tot;
        if p >= 256 {
            255
        } else if p == 0 {
            1
        } else {
            p
        }
    }
}

fn one_branch_prob(c0: u32, c1: u32, pfactor: u32, round: i32) -> (p: Prob)
    requires
        c0 + c1 <= u32::MAX,
    ensures
        p == branch_prob(c0 as int, c1 as int, pfactor as int, round != 0),
{
    let tot: u32 = c0 + c1;
    if tot == 0 {
        return PROB_HALF;
    }
    assert(0 <= c0 * pfactor <= 0xffff_ffff * 0xffff_ffff) by (nonlinear_arith)
        requires
            0 <= c0 <= 0xffff_ffff,
            0 <= pfactor <= 0xffff_ffff,
    ;
    let extra: u64 = if round != 0 {
        (tot / 2) as u64
    } else {
        0
    };
    let product: u64 = (c0 as u64) * (pfactor as u64);
    let sum: u64 = product + extra;
    let p: u32 = ((sum % 0x1_0000_0000) as u32) / tot;
    if p >= 256 {
        255
    } else if p == 0 {
        1
    } else {
        p as Prob
    }
}

/// Computes the probabilities of the pairs of a tree with `n` leaves from how often each leaf
/// came, and how often each branch was taken.
pub fn vp8_tree_probs_from_distribution(
    n: i32,
    tok: &[Token],
    tree: &[TreeIndex],
    probs: &mut [Prob],
    branch_ct: &mut [[u32; 2]],
    num_events: &[u32],
    pfactor: u32,
    round: i32,
)
    requires
        n >= 2,
        tree@.len() == 2 * n - 2,
        tree_ok(tree@, Seq::new(tree@.len(), |k: int| PROB_HALF)),
        tok@.len() >= n,
        num_events@.len() >= n,
        old(branch_ct)@.len() >= n - 1,
        old(probs)@.len() >= n - 1,
        codes_ok(tree@, tok@, n as int),
        event_total(num_events@, n as int) <= u32::MAX,
    ensures
        final(branch_ct)@.len() == old(branch_ct)@.len(),
        branches_counted(tree@, tok@, num_events@, n as int, final(branch_ct)@),
        forall|j: int|
            n - 1 <= j < old(branch_ct)@.len() ==> #[trigger] final(branch_ct)@[j] == old(branch_ct)@[j],
        final(probs)@.len() == old(probs)@.len(),
        forall|j: int|
            0 <= j < n - 1 ==> #[trigger] final(probs)@[j] == branch_prob(
                branch_total(tree@, tok@, num_events@, n as int, j, 0),
                branch_total(tree@, tok@, num_events@, n as int, j, 1),
                pfactor as int,
                round != 0,
            ),
        forall|j: int|
            n - 1 <= j < old(probs)@.len() ==> #[trigger] final(probs)@[j] == old(probs)@[j],
{
    let count: usize = n as usize;
    branch_counts(count, tok, tree, branch_ct, num_events);
    let tree_len: usize = count - 1;
    let ghost ct = branch_ct@;
    let mut t: usize = 0;
    while t < tree_len
        invariant
            n >= 2,
            tree@.len() == 2 * n - 2,
            tree_len == n - 1,
            t <= tree_len,
            ct == branch_ct@,
            ct.len() >= tree_len,
            branches_counted(tree@, tok@, num_events@, n as int, ct),
            tree_ok(tree@, Seq::new(tree@.len(), |k: int| PROB_HALF)),
            codes_ok(tree@, tok@, n as int),
            event_total(num_events@, n as int) <= u32::MAX,
            probs@.len() == old(probs)@.len(),
            probs@.len() >= tree_len,
            forall|j: int|
                0 <= j < t ==> #[trigger] probs@[j] == branch_prob(
                    branch_total(tree@, tok@, num_events@, n as int, j, 0),
                    branch_total(tree@, tok@, num_events@, n as int, j, 1),
                    pfactor as int,
                    round != 0,
                ),
            forall|j: int|
                tree_len <= j < old(probs)@.len() ==> #[trigger] probs@[j] == old(probs)@[j],
        decreases tree_len - t,
    {
        proof {
            lemma_branch_total(tree@, tok@, num_events@, n as int, t as int);
            assert(ct[t as int]@[0] == branch_total(tree@, tok@, num_events@, n as int, t as int, 0));
            assert(ct[t as int]@[1] == branch_total(tree@, tok@, num_events@, n as int, t as int, 1));
        }
        let c: [u32; 2] = branch_ct[t];
        probs[t] = one_branch_prob(c[0], c[1], pfactor, round);
        t = t + 1;
    }
}

/// Leaf `s` lies under entry `k` of a tree.
pub open spec fn under(t: Seq<TreeIndex>, k: int, s: int) -> bool
    decreases t.len() - k,
{
    let next = t[k] as int;
    if next <= 0 {
        s == -next
    } else if next <= k || next + 1 >= t.len() {
        false
    } else {
        under(t, next, s) || under(t, next + 1, s)
    }
}

/// A codeword begins with the `len` bits `v` of entry `k` of a tree, and the rest leads from
/// there to leaf `s`.
spec fn good(t: Seq<TreeIndex>, k: int, v: int, len: int, tok: Token, s: int) -> bool {
    let rest = tok.len - len;
    &&& 0 <= rest
    &&& 0 <= tok.value
    &&& tok.len <= 30
    &&& tok.value as int / pow2(rest as nat) as int == v
    &&& if t[k] <= 0 {
        rest == 0 && s == -t[k]
    } else {
        leads(t, t[k] as int, tok.value as int, rest) && leaf_of(
            t,
            t[k] as int,
            tok.value as int,
            rest,
        ) == s
    }
}

/// The way on from one entry of a pair is part of the way through the pair.
proof fn lemma_good_step(t: Seq<TreeIndex>, k: int, b: int, v: int, len: int, tok: Token, s: int)
    requires
        tree_ok(t, Seq::new(t.len(), |k: int| PROB_HALF)),
        0 <= k < t.len(),
        t[k] > 0,
        b == 0 || b == 1,
        good(t, t[k] + b, 2 * v + b, len + 1, tok, s),
    ensures
        good(t, k, v, len, tok, s),
{
    let next = t[k] as int;
    let rest = tok.len - len;
    let value = tok.value as int;
    lemma_prefix(value, v, b, rest);
    assert(code_bit(value, rest - 1) == b);
}

/// A prefix with one bit more has that bit at its end.
proof fn lemma_prefix(value: int, v: int, b: int, rest: int)
    requires
        rest >= 1,
        value >= 0,
        b == 0 || b == 1,
        value / pow2((rest - 1) as nat) as int == 2 * v + b,
    ensures
        value / pow2(rest as nat) as int == v,
        code_bit(value, rest - 1) == b,
{
    let m = pow2((rest - 1) as nat) as int;
    lemma_pow2_pos((rest - 1) as nat);
    lemma_pow2_unfold(rest as nat);
    vstd::arithmetic::div_mod::lemma_div_denominator(value, m, 2);
    assert(m * 2 == 2 * m);
}

/// The codewords that are set under an entry lead to their leaves; no others are set.
proof fn lemma_tokens_good(
    t: Seq<TreeIndex>,
    p: Seq<Token>,
    offset: int,
    k: int,
    v: int,
    len: int,
    s: int,
)
    requires
        tree_ok(t, Seq::new(t.len(), |k: int| PROB_HALF)),
        leaves_fit(t, p.len() as int, offset),
        0 <= k < t.len(),
        1 <= len <= 30,
        0 <= v < pow2(len as nat),
        t[k] > 0 ==> len + height(t, t[k] as int) <= 30,
        0 <= s - offset < p.len(),
    ensures
        tokens_at(t, p, offset, k, v, len).len() == p.len(),
        under(t, k, s) ==> good(
            t,
            k,
            v,
            len,
            tokens_at(t, p, offset, k, v, len)[s - offset],
            s,
        ),
        !under(t, k, s) ==> tokens_at(t, p, offset, k, v, len)[s - offset] == p[s - offset],
    decreases t.len() - k,
{
    let next = t[k] as int;
    if next <= 0 {
        lemma_bits(len);
        lemma2_to64();
        let w = v as i32;
        assert(w == v);
        assert(w as int / pow2(0) as int == v);
        if s == -next {
            let tok = tokens_at(t, p, offset, k, v, len)[s - offset];
            assert(tok == Token { value: w, len: len as i32 });
        }
    } else {
        lemma_height(t, next);
        lemma_pow2_unfold((len + 1) as nat);
        let a = tokens_at(t, p, offset, next, 2 * v, len + 1);
        let c = tokens_at(t, a, offset, next + 1, 2 * v + 1, len + 1);
        lemma_tokens_good(t, p, offset, next, 2 * v, len + 1, s);
        lemma_tokens_good(t, a, offset, next + 1, 2 * v + 1, len + 1, s);
        if under(t, next + 1, s) {
            lemma_good_step(t, k, 1, v, len, c[s - offset], s);
        } else if under(t, next, s) {
            lemma_good_step(t, k, 0, v, len, c[s - offset], s);
        }
    }
}

/// The codeword of every leaf of a tree leads through the tree to that leaf.
pub proof fn law_codeword_leads_to_leaf(t: Seq<TreeIndex>, p: Seq<Token>, offset: int, s: int)
    requires
        coding_tree(t),
        leaves_fit(t, p.len() as int, offset),
        under(t, 0, s) || under(t, 1, s),
        0 <= s - offset < p.len(),
    ensures
        ({
            let tok = tokens_of(t, p, offset)[s - offset];
            &&& tok.value >= 0
            &&& 1 <= tok.len <= 30
            &&& leads(t, 0, tok.value as int, tok.len as int)
            &&& leaf_of(t, 0, tok.value as int, tok.len as int) == s
        }),
{
    lemma2_to64();
    lemma_height(t, 0);
    let a = tokens_at(t, p, offset, 0, 0, 1);
    let c = tokens_of(t, p, offset);
    lemma_tokens_good(t, p, offset, 0, 0, 1, s);
    lemma_tokens_good(t, a, offset, 1, 1, 1, s);
    let tok = c[s - offset];
    if under(t, 1, s) {
        lemma_prefix(tok.value as int, 0, 1, tok.len as int);
    } else {
        lemma_prefix(tok.value as int, 0, 0, tok.len as int);
    }
}

/// Each event leaves the first pair of a tree by one bit or the other.
pub proof fn law_root_counts_all(t: Seq<TreeIndex>, tok: Seq<Token>, events: Seq<u32>, n: int)
    requires
        tree_ok(t, Seq::new(t.len(), |k: int| PROB_HALF)),
        codes_ok(t, tok, n),
        0 <= n,
    ensures
        branch_total(t, tok, events, n, 0, 0) + branch_total(t, tok, events, n, 0, 1) == event_total(
            events,
            n,
        ),
    decreases n,
{
    if n > 0 {
        law_root_counts_all(t, tok, events, n - 1);
        let x = tok[n - 1];
        let (v, len) = (x.value as int, x.len as int);
        assert(leads(t, 0, v, len));
        let bit = code_bit(v, len - 1);
        assert(bit == 0 || bit == 1);
        if len > 1 {
            let next = t[0 + bit] as int;
            assert(leads(t, next, v, len - 1));
            if passes(t, next, v, len - 1, 0, 0) {
                lemma_passes_later(t, next, v, len - 1, 0, 0);
            }
            if passes(t, next, v, len - 1, 0, 1) {
                lemma_passes_later(t, next, v, len - 1, 0, 1);
            }
        }
    }
}

/// In 256ths, rounded, the probability of a branch is the share of its events, as long as nothing
/// exceeds 32 bits.
pub proof fn law_branch_share(c0: int, c1: int)
    requires
        0 <= c0,
        0 <= c1,
        c0 * 256 + (c0 + c1) / 2 < 0x1_0000_0000,
    ensures
        branch_prob(c0, c1, 256, true) == binary_share(c0, c1),
{
}

} // verus!
