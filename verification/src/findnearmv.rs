//! The motion vectors of neighbouring macroblocks as candidates for the current one.

use crate::arith::{clamp_i32, clamp_int};
use crate::reconinter::{edges_ok, mv_near};
use crate::tables::{Prob, VP8_MODE_CONTEXTS};
use crate::types::{MbEdges, MbPredictionMode, ModeInfo, Mv, MvReferenceFrame, zero_mv};
use crate::vp8_loopfilter::{ref_index, ref_number};
use vstd::array::spec_array_update;
use vstd::prelude::*;

verus! {

/// The first subblock of each part of a split macroblock.
pub const vp8_mbsplit_offset: [[u8; 16]; 4] = [
    [0, 8, 0, 0, 0, 0, 0, 0, 0, 0, 0, 0, 0, 0, 0, 0],
    [0, 2, 0, 0, 0, 0, 0, 0, 0, 0, 0, 0, 0, 0, 0, 0],
    [0, 2, 8, 10, 0, 0, 0, 0, 0, 0, 0, 0, 0, 0, 0, 0],
    [0, 1, 2, 3, 4, 5, 6, 7, 8, 9, 10, 11, 12, 13, 14, 15],
];

/// The negative of a component, in sixteen bits.
pub open spec fn neg16(x: i16) -> i16 {
    if x == i16::MIN {
        x
    } else {
        (-x) as i16
    }
}

/// The vector that points the other way.
pub open spec fn inverted(mv: Mv) -> Mv {
    Mv { row: neg16(mv.row), col: neg16(mv.col) }
}

/// A neighbour's vector as seen from a macroblock with another reference frame: where the two
/// frames lie on different sides it is inverted.
pub open spec fn biased(
    mv: Mv,
    from: MvReferenceFrame,
    to: MvReferenceFrame,
    bias: [i32; 4],
) -> Mv {
    if bias[ref_number(from)] != bias[ref_number(to)] {
        inverted(mv)
    } else {
        mv
    }
}

/// The distinct vectors of the neighbours, from number one on, and how much speaks for each of
/// them; number zero stands for no motion.
#[verifier::ext_equal]
pub struct Near {
    pub mvs: [Mv; 4],
    pub cnt: [i32; 4],
    pub n: int,
}

/// Adds the vector of a neighbour with the given weight.
pub open spec fn near_add(
    a: Near,
    mi: ModeInfo,
    weight: int,
    to: MvReferenceFrame,
    bias: [i32; 4],
) -> Near {
    if mi.mbmi.ref_frame == MvReferenceFrame::Intra {
        a
    } else if mi.mbmi.mv == zero_mv() {
        Near { cnt: spec_array_update(a.cnt, 0, (a.cnt[0] + weight) as i32), ..a }
    } else {
        let mv = biased(mi.mbmi.mv, mi.mbmi.ref_frame, to, bias);
        let k = if mv == a.mvs[a.n] {
            a.n
        } else {
            a.n + 1
        };
        Near {
            mvs: spec_array_update(a.mvs, k, mv),
            cnt: spec_array_update(a.cnt, k, (a.cnt[k] + weight) as i32),
            n: k,
        }
    }
}

/// Nothing known yet.
pub open spec fn near_start() -> Near {
    Near {
        mvs: vstd::array::spec_array_fill_for_copy_type::<Mv, 4>(zero_mv()),
        cnt: vstd::array::spec_array_fill_for_copy_type::<i32, 4>(0),
        n: 0,
    }
}

/// The vectors of the macroblocks above, to the left, and above and to the left.
pub open spec fn near_all(
    above: ModeInfo,
    left: ModeInfo,
    aboveleft: ModeInfo,
    to: MvReferenceFrame,
    bias: [i32; 4],
) -> Near {
    near_add(near_add(near_add(near_start(), above, 2, to, bias), left, 2, to, bias), aboveleft, 1, to, bias)
}

/// What speaks for the third vector also speaks for the first one where they are the same.
pub open spec fn near_merge(a: Near) -> Near {
    if a.cnt[3] > 0 && a.mvs[a.n] == a.mvs[1] {
        Near { cnt: spec_array_update(a.cnt, 1, (a.cnt[1] + 1) as i32), ..a }
    } else {
        a
    }
}

/// The vector that more speaks for comes first.
pub open spec fn near_sort(a: Near) -> Near {
    if a.cnt[2] > a.cnt[1] {
        Near {
            mvs: spec_array_update(spec_array_update(a.mvs, 1, a.mvs[2]), 2, a.mvs[1]),
            cnt: spec_array_update(spec_array_update(a.cnt, 1, a.cnt[2]), 2, a.cnt[1]),
            ..a
        }
    } else {
        a
    }
}

/// How much speaks for a split macroblock.
pub open spec fn split_count(above: ModeInfo, left: ModeInfo, aboveleft: ModeInfo) -> int {
    let one = |m: ModeInfo|
        if m.mbmi.mode == MbPredictionMode::SplitMv {
            1int
        } else {
            0
        };
    2 * (one(above) + one(left)) + one(aboveleft)
}

/// A vector limited to sixteen pixels outside the frame.
pub open spec fn clamped2(mv: Mv, e: MbEdges) -> Mv {
    Mv {
        row: clamp_int(mv.row as int, e.top - 128, e.bottom + 128) as i16,
        col: clamp_int(mv.col as int, e.left - 128, e.right + 128) as i16,
    }
}

/// What holds of the candidates.
pub open spec fn near_ok(a: Near) -> bool {
    &&& 0 <= a.n <= 3
    &&& counts_ok(a.cnt, 5)
    &&& a.mvs[0] == zero_mv()
}

/// What speaks for the candidates adds up to at most `most`.
pub open spec fn counts_ok(cnt: [i32; 4], most: int) -> bool {
    &&& 0 <= cnt[0]
    &&& 0 <= cnt[1]
    &&& 0 <= cnt[2]
    &&& 0 <= cnt[3]
    &&& cnt[0] + cnt[1] + cnt[2] + cnt[3] <= most
}

/// Inverts a vector.
fn invert(mv: Mv) -> (r: Mv)
    ensures
        r == inverted(mv),
{
    let row: i16 = if mv.row == i16::MIN {
        mv.row
    } else {
        -mv.row
    };
    let col: i16 = if mv.col == i16::MIN {
        mv.col
    } else {
        -mv.col
    };
    Mv { row, col }
}

/// A neighbour's vector as seen from a macroblock with reference frame `refframe`.
fn mv_bias(mv: Mv, from: MvReferenceFrame, refframe: MvReferenceFrame, bias: &[i32; 4]) -> (r: Mv)
    ensures
        r == biased(mv, from, refframe, *bias),
        mv != zero_mv() ==> r != zero_mv(),
{
    if bias[ref_index(from)] != bias[ref_index(refframe)] {
        invert(mv)
    } else {
        mv
    }
}

/// Limits a vector to sixteen pixels outside the frame.
pub fn vp8_clamp_mv2(mv: Mv, e: &MbEdges) -> (r: Mv)
    requires
        edges_ok(*e),
    ensures
        r == clamped2(mv, *e),
        mv_near(r, *e),
{
    let row: i32 = clamp_i32(mv.row as i32, e.top - 128, e.bottom + 128);
    let col: i32 = clamp_i32(mv.col as i32, e.left - 128, e.right + 128);
    Mv { row: row as i16, col: col as i16 }
}

/// Adds the vector of a neighbour.
fn add_near(
    mvs: &mut [Mv; 4],
    cnt: &mut [i32; 4],
    n: usize,
    mi: &ModeInfo,
    weight: i32,
    to: MvReferenceFrame,
    bias: &[i32; 4],
    Ghost(most): Ghost<int>,
) -> (k: usize)
    requires
        n <= 2,
        0 <= weight <= 2,
        0 <= most <= 4,
        counts_ok(*old(cnt), most),
        old(mvs)[0] == zero_mv(),
    ensures
        (Near { mvs: *final(mvs), cnt: *final(cnt), n: k as int }) == near_add(
            Near { mvs: *old(mvs), cnt: *old(cnt), n: n as int },
            *mi,
            weight as int,
            to,
            *bias,
        ),
        n <= k <= n + 1,
        counts_ok(*final(cnt), most + weight),
        final(mvs)[0] == zero_mv(),
{
    if mi.mbmi.ref_frame == MvReferenceFrame::Intra {
        return n;
    }
    if mi.mbmi.mv.row == 0 && mi.mbmi.mv.col == 0 {
        cnt[0] = cnt[0] + weight;
        return n;
    }
    let this_mv: Mv = mv_bias(mi.mbmi.mv, mi.mbmi.ref_frame, to, bias);
    let k: usize = if this_mv == mvs[n] {
        n
    } else {
        n + 1
    };
    mvs[k] = this_mv;
    cnt[k] = cnt[k] + weight;
    k
}

/// Collects the vectors of the neighbours.
pub fn collect_near(
    above: &ModeInfo,
    left: &ModeInfo,
    aboveleft: &ModeInfo,
    to: MvReferenceFrame,
    bias: &[i32; 4],
) -> (r: ([Mv; 4], [i32; 4], usize))
    ensures
        (Near { mvs: r.0, cnt: r.1, n: r.2 as int }) == near_all(
            *above,
            *left,
            *aboveleft,
            to,
            *bias,
        ),
        near_ok(near_all(*above, *left, *aboveleft, to, *bias)),
{
    let mut mvs: [Mv; 4] = [Mv { row: 0, col: 0 }; 4];
    let mut cnt: [i32; 4] = [0; 4];
    let a: usize = add_near(&mut mvs, &mut cnt, 0, above, 2, to, bias, Ghost(0));
    let b: usize = add_near(&mut mvs, &mut cnt, a, left, 2, to, bias, Ghost(2));
    let c: usize = add_near(&mut mvs, &mut cnt, b, aboveleft, 1, to, bias, Ghost(4));
    (mvs, cnt, c)
}

/// Counts how much speaks for a split macroblock.
pub fn count_split(above: &ModeInfo, left: &ModeInfo, aboveleft: &ModeInfo) -> (n: i32)
    ensures
        n == split_count(*above, *left, *aboveleft),
        0 <= n <= 5,
{
    let a: i32 = if above.mbmi.mode == MbPredictionMode::SplitMv {
        1
    } else {
        0
    };
    let l: i32 = if left.mbmi.mode == MbPredictionMode::SplitMv {
        1
    } else {
        0
    };
    let al: i32 = if aboveleft.mbmi.mode == MbPredictionMode::SplitMv {
        1
    } else {
        0
    };
    (a + l) * 2 + al
}

/// Merges and sorts the candidates.
pub fn order_near(mvs: &mut [Mv; 4], cnt: &mut [i32; 4], n: usize)
    requires
        near_ok(Near { mvs: *old(mvs), cnt: *old(cnt), n: n as int }),
    ensures
        (Near { mvs: *final(mvs), cnt: *final(cnt), n: n as int }) == near_sort(
            near_merge(Near { mvs: *old(mvs), cnt: *old(cnt), n: n as int }),
        ),
        forall|i: int| 0 <= i < 4 ==> 0 <= #[trigger] final(cnt)[i] <= 5,
        final(mvs)[0] == zero_mv(),
        final(cnt)[0] == old(cnt)[0],
{
    if cnt[3] > 0 && mvs[n] == mvs[1] {
        cnt[1] = cnt[1] + 1;
    }
    if cnt[2] > cnt[1] {
        let c: i32 = cnt[1];
        cnt[1] = cnt[2];
        cnt[2] = c;
        let m: Mv = mvs[1];
        mvs[1] = mvs[2];
        mvs[2] = m;
    }
}

/// The candidates for a macroblock: the nearest vector, the next one, the best guess, and what
/// speaks for no motion, the nearest, the next and a split.
pub struct NearMvs {
    pub nearest: Mv,
    pub nearby: Mv,
    pub best_mv: Mv,
    pub cnt: [i32; 4],
}

/// The candidates for a macroblock.
pub open spec fn near_mvs(
    above: ModeInfo,
    left: ModeInfo,
    aboveleft: ModeInfo,
    to: MvReferenceFrame,
    bias: [i32; 4],
) -> NearMvs {
    let s = near_sort(near_merge(near_all(above, left, aboveleft, to, bias)));
    NearMvs {
        nearest: s.mvs[1],
        nearby: s.mvs[2],
        best_mv: if s.cnt[1] >= s.cnt[0] {
            s.mvs[1]
        } else {
            s.mvs[0]
        },
        cnt: spec_array_update(s.cnt, 3, split_count(above, left, aboveleft) as i32),
    }
}

/// Finds the candidates for a macroblock with reference frame `refframe` among the vectors of
/// the macroblocks above, to the left, and above and to the left.
pub fn vp8_find_near_mvs(
    above: &ModeInfo,
    left: &ModeInfo,
    aboveleft: &ModeInfo,
    refframe: MvReferenceFrame,
    ref_frame_sign_bias: &[i32; 4],
) -> (r: NearMvs)
    ensures
        r == near_mvs(*above, *left, *aboveleft, refframe, *ref_frame_sign_bias),
        forall|i: int| 0 <= i < 4 ==> 0 <= #[trigger] r.cnt[i] <= 5,
{
    let (mut mvs, mut cnt, n): ([Mv; 4], [i32; 4], usize) = collect_near(
        above,
        left,
        aboveleft,
        refframe,
        ref_frame_sign_bias,
    );
    order_near(&mut mvs, &mut cnt, n);
    cnt[3] = count_split(above, left, aboveleft);
    let best_mv: Mv = if cnt[1] >= cnt[0] {
        mvs[1]
    } else {
        mvs[0]
    };
    NearMvs { nearest: mvs[1], nearby: mvs[2], best_mv, cnt }
}

/// The candidates for both directions of reference: entry one of a pair belongs to frames
/// whose sign bias is set.
pub struct BiasedMvs {
    pub nearest: [Mv; 2],
    pub nearby: [Mv; 2],
    pub best_mv: [Mv; 2],
    pub cnt: [i32; 4],
}

/// A candidate and its inverse, each limited to the neighbourhood of the frame.
pub open spec fn both_ways(mv: Mv, sign_bias: int, e: MbEdges) -> Seq<Mv> {
    let own = clamped2(mv, e);
    let other = clamped2(inverted(mv), e);
    if sign_bias == 0 {
        seq![own, other]
    } else {
        seq![other, own]
    }
}

fn invert_and_clamp_mvs(mv: Mv, sign_bias: i32, e: &MbEdges) -> (r: [Mv; 2])
    requires
        edges_ok(*e),
        sign_bias == 0 || sign_bias == 1,
    ensures
        r@ == both_ways(mv, sign_bias as int, *e),
{
    let other: Mv = vp8_clamp_mv2(invert(mv), e);
    let own: Mv = vp8_clamp_mv2(mv, e);
    let r: [Mv; 2] = if sign_bias == 0 {
        [own, other]
    } else {
        [other, own]
    };
    assert(r@ =~= both_ways(mv, sign_bias as int, *e));
    r
}

/// Finds the candidates for both directions of reference. Gives them with the sign bias of the
/// reference frame.
pub fn vp8_find_near_mvs_bias(
    above: &ModeInfo,
    left: &ModeInfo,
    aboveleft: &ModeInfo,
    e: &MbEdges,
    refframe: MvReferenceFrame,
    ref_frame_sign_bias: &[i32; 4],
) -> (r: (BiasedMvs, i32))
    requires
        edges_ok(*e),
        ref_frame_sign_bias[ref_number(refframe)] == 0 || ref_frame_sign_bias[ref_number(refframe)]
            == 1,
    ensures
        r.1 == ref_frame_sign_bias[ref_number(refframe)],
        ({
            let m = near_mvs(*above, *left, *aboveleft, refframe, *ref_frame_sign_bias);
            &&& r.0.nearest@ == both_ways(m.nearest, r.1 as int, *e)
            &&& r.0.nearby@ == both_ways(m.nearby, r.1 as int, *e)
            &&& r.0.best_mv@ == both_ways(m.best_mv, r.1 as int, *e)
            &&& r.0.cnt == m.cnt
        }),
{
    let sign_bias: i32 = ref_frame_sign_bias[ref_index(refframe)];
    let m: NearMvs = vp8_find_near_mvs(above, left, aboveleft, refframe, ref_frame_sign_bias);
    let out = BiasedMvs {
        nearest: invert_and_clamp_mvs(m.nearest, sign_bias, e),
        nearby: invert_and_clamp_mvs(m.nearby, sign_bias, e),
        best_mv: invert_and_clamp_mvs(m.best_mv, sign_bias, e),
        cnt: m.cnt,
    };
    (out, sign_bias)
}

/// The probabilities of the motion vector modes for the given counts.
pub fn vp8_mv_ref_probs(near_mv_ref_ct: &[i32; 4]) -> (p: [Prob; 4])
    requires
        forall|i: int| 0 <= i < 4 ==> 0 <= #[trigger] near_mv_ref_ct[i] < 6,
    ensures
        forall|i: int|
            0 <= i < 4 ==> #[trigger] p[i] == VP8_MODE_CONTEXTS[near_mv_ref_ct[i] as int][i],
{
    proof {
        assert(near_mv_ref_ct[0] < 6 && near_mv_ref_ct[1] < 6 && near_mv_ref_ct[2] < 6
            && near_mv_ref_ct[3] < 6);
        assert(near_mv_ref_ct[0] >= 0 && near_mv_ref_ct[1] >= 0 && near_mv_ref_ct[2] >= 0
            && near_mv_ref_ct[3] >= 0);
        lemma_contexts();
    }
    [
        VP8_MODE_CONTEXTS[near_mv_ref_ct[0] as usize][0] as Prob,
        VP8_MODE_CONTEXTS[near_mv_ref_ct[1] as usize][1] as Prob,
        VP8_MODE_CONTEXTS[near_mv_ref_ct[2] as usize][2] as Prob,
        VP8_MODE_CONTEXTS[near_mv_ref_ct[3] as usize][3] as Prob,
    ]
}

/// The context probabilities are probabilities.
pub proof fn lemma_contexts()
    ensures
        forall|i: int, j: int|
            0 <= i < 6 && 0 <= j < 4 ==> 0 <= #[trigger] VP8_MODE_CONTEXTS[i][j] <= 255,
{
}

/// Limiting a vector twice is the same as limiting it once.
pub proof fn law_clamp_twice(mv: Mv, e: MbEdges)
    requires
        edges_ok(e),
    ensures
        clamped2(clamped2(mv, e), e) == clamped2(mv, e),
        mv_near(mv, e) ==> clamped2(mv, e) == mv,
{
}

/// A neighbour that moves: it is predicted from another frame, by a vector that is not zero.
pub open spec fn moves(m: ModeInfo) -> bool {
    m.mbmi.ref_frame != MvReferenceFrame::Intra && !(m.mbmi.mv.row == 0 && m.mbmi.mv.col == 0)
}

/// How a neighbour's vector counts for a macroblock with reference frame `to`: as it is where both
/// reference frames lie on the same side, and else with both components negated.
pub open spec fn seen(m: ModeInfo, to: MvReferenceFrame, bias: [i32; 4]) -> Mv {
    let (r, c) = (m.mbmi.mv.row as int, m.mbmi.mv.col as int);
    if bias[ref_number(m.mbmi.ref_frame)] == bias[ref_number(to)] {
        m.mbmi.mv
    } else {
        Mv {
            row: (if r == -0x8000 {
                r
            } else {
                -r
            }) as i16,
            col: (if c == -0x8000 {
                c
            } else {
                -c
            }) as i16,
        }
    }
}

/// What a neighbour with the given weight has to say for vector `v`.
pub open spec fn vote(
    m: ModeInfo,
    weight: int,
    to: MvReferenceFrame,
    bias: [i32; 4],
    v: Mv,
) -> int {
    if moves(m) && seen(m, to, bias) == v {
        weight
    } else {
        0
    }
}

/// What the three neighbours have to say for vector `v`: those above and to the left count twice as
/// much as the one between them.
pub open spec fn votes(
    above: ModeInfo,
    left: ModeInfo,
    aboveleft: ModeInfo,
    to: MvReferenceFrame,
    bias: [i32; 4],
    v: Mv,
) -> int {
    vote(above, 2, to, bias, v) + vote(left, 2, to, bias, v) + vote(aboveleft, 1, to, bias, v)
}

/// What a neighbour with the given weight has to say for no motion.
pub open spec fn still(m: ModeInfo, weight: int) -> int {
    if m.mbmi.ref_frame != MvReferenceFrame::Intra && !moves(m) {
        weight
    } else {
        0
    }
}

/// The vectors of the neighbours are put to the vote. The nearest one has the most votes, the next
/// one the most among the others, and of those with as many votes the one that comes first above,
/// to the left, or between them goes first. Where nothing moves there is no motion. The best guess
/// is the nearest vector unless no motion has more votes. Neighbours predicted from their own frame
/// have no vote, and a reference frame on the other side turns a vector round.
pub proof fn law_near_vectors_by_vote(
    above: ModeInfo,
    left: ModeInfo,
    aboveleft: ModeInfo,
    to: MvReferenceFrame,
    bias: [i32; 4],
)
    ensures
        ({
            let m = near_mvs(above, left, aboveleft, to, bias);
            let (a, l, d) = (
                seen(above, to, bias),
                seen(left, to, bias),
                seen(aboveleft, to, bias),
            );
            let count = |v: Mv| votes(above, left, aboveleft, to, bias, v);
            let first = if moves(above) {
                a
            } else if moves(left) {
                l
            } else {
                d
            };
            &&& m.cnt[0] == still(above, 2) + still(left, 2) + still(aboveleft, 1)
            &&& !moves(above) && !moves(left) && !moves(aboveleft) ==> {
                &&& m.nearest == zero_mv()
                &&& m.nearby == zero_mv()
                &&& m.cnt[1] == 0
                &&& m.cnt[2] == 0
            }
            &&& moves(above) || moves(left) || moves(aboveleft) ==> {
                &&& m.cnt[1] == count(m.nearest)
                &&& m.cnt[1] > 0
                &&& m.nearest != first ==> count(m.nearest) > count(first)
            }
            &&& moves(above) ==> count(a) <= count(m.nearest)
            &&& moves(left) ==> count(l) <= count(m.nearest)
            &&& moves(aboveleft) ==> count(d) <= count(m.nearest)
            &&& (moves(above) && a != m.nearest) || (moves(left) && l != m.nearest) || (moves(
                aboveleft,
            ) && d != m.nearest) ==> {
                &&& m.nearby != m.nearest
                &&& m.cnt[2] == count(m.nearby)
                &&& m.cnt[2] > 0
            }
            &&& moves(above) && a != m.nearest ==> count(a) <= count(m.nearby)
            &&& moves(left) && l != m.nearest ==> count(l) <= count(m.nearby)
            &&& moves(aboveleft) && d != m.nearest ==> count(d) <= count(m.nearby)
            &&& (moves(above) ==> a == m.nearest) && (moves(left) ==> l == m.nearest) && (moves(
                aboveleft,
            ) ==> d == m.nearest) ==> m.nearby == zero_mv() && m.cnt[2] == 0
            &&& m.best_mv == (if m.cnt[1] >= m.cnt[0] {
                m.nearest
            } else {
                zero_mv()
            })
        }),
{
    let (a, l, d) = (seen(above, to, bias), seen(left, to, bias), seen(aboveleft, to, bias));
    assert(biased(above.mbmi.mv, above.mbmi.ref_frame, to, bias) == a);
    assert(biased(left.mbmi.mv, left.mbmi.ref_frame, to, bias) == l);
    assert(biased(aboveleft.mbmi.mv, aboveleft.mbmi.ref_frame, to, bias) == d);
    assert(moves(above) ==> a != zero_mv());
    assert(moves(left) ==> l != zero_mv());
    assert(moves(aboveleft) ==> d != zero_mv());
    let n0 = near_start();
    let n1 = near_add(n0, above, 2, to, bias);
    let n2 = near_add(n1, left, 2, to, bias);
    let n3 = near_add(n2, aboveleft, 1, to, bias);
    let n4 = near_merge(n3);
    let n5 = near_sort(n4);
    assert(n1.n == 0 || n1.n == 1);
    assert(n2.n == 0 || n2.n == 1 || n2.n == 2);
    if moves(above) {
        if moves(left) {
            if moves(aboveleft) {
            } else {
            }
        } else {
            if moves(aboveleft) {
            } else {
            }
        }
    } else {
        if moves(left) {
            if moves(aboveleft) {
            } else {
            }
        } else {
            if moves(aboveleft) {
            } else {
            }
        }
    }
}

/// What speaks for a split macroblock: two for the macroblock above and for the one to the left
/// where they are split, and one for the one between them.
pub proof fn law_split_votes(above: ModeInfo, left: ModeInfo, aboveleft: ModeInfo)
    ensures
        ({
            let n = split_count(above, left, aboveleft);
            let split = MbPredictionMode::SplitMv;
            &&& n % 2 == 1 <==> aboveleft.mbmi.mode == split
            &&& n >= 4 <==> above.mbmi.mode == split && left.mbmi.mode == split
            &&& n <= 1 <==> above.mbmi.mode != split && left.mbmi.mode != split
            &&& 0 <= n <= 5
        }),
{
}

/// A limited vector lies no more than sixteen pixels outside the frame on every side, and is the
/// nearest such vector to the one given: a component that lies inside stays, and one that lies
/// outside moves to the limit on its side.
pub proof fn law_clamp_nearest(mv: Mv, e: MbEdges)
    requires
        edges_ok(e),
    ensures
        ({
            let m = clamped2(mv, e);
            &&& e.left - 16 * 8 <= m.col <= e.right + 16 * 8
            &&& e.top - 16 * 8 <= m.row <= e.bottom + 16 * 8
            &&& mv.col < e.left - 128 ==> m.col == e.left - 128
            &&& mv.col > e.right + 128 ==> m.col == e.right + 128
            &&& mv.row < e.top - 128 ==> m.row == e.top - 128
            &&& mv.row > e.bottom + 128 ==> m.row == e.bottom + 128
            &&& e.left - 128 <= mv.col <= e.right + 128 ==> m.col == mv.col
            &&& e.top - 128 <= mv.row <= e.bottom + 128 ==> m.row == mv.row
        }),
{
}

/// No motion stays what it is when the candidates are sorted.
pub proof fn law_near_start(
    above: ModeInfo,
    left: ModeInfo,
    aboveleft: ModeInfo,
    to: MvReferenceFrame,
    bias: [i32; 4],
)
    ensures
        ({
            let a = near_all(above, left, aboveleft, to, bias);
            let s = near_sort(near_merge(a));
            s.cnt[0] == a.cnt[0] && s.mvs[0] == zero_mv() && a.mvs[0] == zero_mv()
        }),
{
    let n1 = near_add(near_start(), above, 2, to, bias);
    let n2 = near_add(n1, left, 2, to, bias);
    assert(n1.n == 0 || n1.n == 1);
    assert(n2.n == 0 || n2.n == 1 || n2.n == 2);
    assert(biased(above.mbmi.mv, above.mbmi.ref_frame, to, bias) == zero_mv() ==> above.mbmi.mv
        == zero_mv());
    assert(biased(left.mbmi.mv, left.mbmi.ref_frame, to, bias) == zero_mv() ==> left.mbmi.mv
        == zero_mv());
    assert(biased(aboveleft.mbmi.mv, aboveleft.mbmi.ref_frame, to, bias) == zero_mv()
        ==> aboveleft.mbmi.mv == zero_mv());
}

} // verus!
