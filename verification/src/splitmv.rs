//! Motion vectors of split macroblocks.

use crate::dboolhuff::{read_bool, BoolState, Vp8Reader};
use crate::entropymode::{mv_context_of, SumvfrefT};
use crate::findnearmv::vp8_mbsplit_offset;
use crate::intramode::cell_ok;
use crate::mvread::{get_mv, read_mv};
use crate::reconinter::{bmi_as_mv, bmi_mv, edges_ok, mv_near};
use crate::tables::{MvContext, Prob};
use crate::treereader::vp8_read;
use crate::types::{zero_mv, BModeInfo, MbEdges, MbModeInfo, MbPredictionMode, ModeInfo, Mv};
use vstd::array::spec_array_update;
use vstd::prelude::*;

verus! {

/// How many subblocks a part of a split macroblock has.
pub const MBSPLIT_FILL_COUNT: [u8; 4] = [8, 8, 4, 1];

/// The subblocks of a split macroblock, part after part.
pub const MBSPLIT_FILL_OFFSET: [[u8; 16]; 4] = [
    [0, 1, 2, 3, 4, 5, 6, 7, 8, 9, 10, 11, 12, 13, 14, 15],
    [0, 1, 4, 5, 8, 9, 12, 13, 2, 3, 6, 7, 10, 11, 14, 15],
    [0, 1, 4, 5, 2, 3, 6, 7, 8, 9, 12, 13, 10, 11, 14, 15],
    [0, 1, 2, 3, 4, 5, 6, 7, 8, 9, 10, 11, 12, 13, 14, 15],
];

/// The probabilities of the ways to name a vector, by which of the vectors above and to the
/// left are zero and whether they are the same.
pub const VP8_SUB_MV_REF_PROB3: [[Prob; 3]; 8] = [
    [147, 136, 18],
    [223, 1, 34],
    [106, 145, 1],
    [208, 1, 1],
    [179, 121, 1],
    [223, 1, 34],
    [179, 121, 1],
    [208, 1, 1],
];

/// The probabilities for neighbours with the vectors `left` and `above`.
pub open spec fn sub_mv_probs(left: Mv, above: Mv) -> [Prob; 3] {
    let lez = if left == zero_mv() {
        1int
    } else {
        0
    };
    let aez = if above == zero_mv() {
        1int
    } else {
        0
    };
    let lea = if left == above {
        1int
    } else {
        0
    };
    VP8_SUB_MV_REF_PROB3[4 * aez + 2 * lez + lea]
}

fn get_sub_mv_ref_prob(left: Mv, above: Mv) -> (p: [Prob; 3])
    ensures
        p == sub_mv_probs(left, above),
{
    let lez: usize = if left.row == 0 && left.col == 0 {
        1
    } else {
        0
    };
    let aez: usize = if above.row == 0 && above.col == 0 {
        1
    } else {
        0
    };
    let lea: usize = if left == above {
        1
    } else {
        0
    };
    VP8_SUB_MV_REF_PROB3[4 * aez + 2 * lez + lea]
}

/// The vector of the subblock to the left of subblock `k`.
pub open spec fn left_mv(left: ModeInfo, mi: ModeInfo, k: int) -> Mv {
    if k % 4 == 0 {
        if left.mbmi.mode == MbPredictionMode::SplitMv {
            bmi_mv(left.bmi[k + 3])
        } else {
            left.mbmi.mv
        }
    } else {
        bmi_mv(mi.bmi[k - 1])
    }
}

/// The vector of the subblock above subblock `k`.
pub open spec fn above_mv(above: ModeInfo, mi: ModeInfo, k: int) -> Mv {
    if k < 4 {
        if above.mbmi.mode == MbPredictionMode::SplitMv {
            bmi_mv(above.bmi[k + 12])
        } else {
            above.mbmi.mv
        }
    } else {
        bmi_mv(mi.bmi[k - 4])
    }
}

/// The sum of two vectors, in sixteen bits.
pub open spec fn mv_sum(a: Mv, b: Mv) -> Mv {
    Mv { row: a.row.wrapping_add(b.row), col: a.col.wrapping_add(b.col) }
}

/// Reads the vector of a part: that of the left or upper neighbour, none, or a new one.
#[verifier::opaque]
pub open spec fn part_mv(
    s: BoolState,
    left: Mv,
    above: Mv,
    best: Mv,
    mvc: [MvContext; 2],
) -> (Mv, BoolState) {
    let p = sub_mv_probs(left, above);
    let (b0, s0) = read_bool(s, p[0] as int);
    if b0 == 0 {
        (left, s0)
    } else {
        let (b1, s1) = read_bool(s0, p[1] as int);
        if b1 == 0 {
            (above, s1)
        } else {
            let (b2, s2) = read_bool(s1, p[2] as int);
            if b2 == 0 {
                (zero_mv(), s2)
            } else {
                let (d, s3) = get_mv(s2, mvc);
                (mv_sum(d, best), s3)
            }
        }
    }
}

fn read_part_mv(
    bc: &mut Vp8Reader<'_>,
    left: Mv,
    above: Mv,
    best: Mv,
    mvc: &[MvContext; 2],
) -> (mv: Mv)
    requires
        old(bc).wf(),
    ensures
        final(bc).wf(),
        (mv, final(bc)@) == part_mv(old(bc)@, left, above, best, *mvc),
{
    proof {
        reveal(part_mv);
    }
    let p: [Prob; 3] = get_sub_mv_ref_prob(left, above);
    if vp8_read(bc, p[0] as i32) == 0 {
        return left;
    }
    if vp8_read(bc, p[1] as i32) == 0 {
        return above;
    }
    if vp8_read(bc, p[2] as i32) == 0 {
        return Mv { row: 0, col: 0 };
    }
    let d: Mv = read_mv(bc, mvc);
    Mv { row: d.row.wrapping_add(best.row), col: d.col.wrapping_add(best.col) }
}

/// `bmi` with the vector of the first `n` subblocks of part `j` set.
pub open spec fn fill_part(bmi: [BModeInfo; 16], s: int, j: int, mv: Mv, n: int) -> [BModeInfo; 16]
    decreases n,
{
    if n <= 0 {
        bmi
    } else {
        spec_array_update(
            fill_part(bmi, s, j, mv, n - 1),
            MBSPLIT_FILL_OFFSET[s][j * MBSPLIT_FILL_COUNT[s] + n - 1] as int,
            BModeInfo::Mv(mv),
        )
    }
}

/// Reads the vectors of the first `n` parts.
pub open spec fn split_parts(
    t: BoolState,
    mi: ModeInfo,
    left: ModeInfo,
    above: ModeInfo,
    best: Mv,
    mvc: [MvContext; 2],
    e: MbEdges,
    s: int,
    n: int,
) -> (ModeInfo, BoolState)
    decreases n,
{
    if n <= 0 {
        (mi, t)
    } else {
        let j = n - 1;
        let (m, u) = split_parts(t, mi, left, above, best, mvc, e, s, j);
        let k = vp8_mbsplit_offset[s][j] as int;
        let (mv, v) = part_mv(u, left_mv(left, m, k), above_mv(above, m, k), best, mvc);
        (
            ModeInfo {
                mbmi: MbModeInfo {
                    need_to_clamp_mvs: m.mbmi.need_to_clamp_mvs || !mv_near(mv, e),
                    ..m.mbmi
                },
                bmi: fill_part(m.bmi, s, j, mv, MBSPLIT_FILL_COUNT[s] as int),
            },
            v,
        )
    }
}

/// Reads how a macroblock is split: the number of the way, and that of the parts.
pub open spec fn split_kind(t: BoolState) -> (int, int, BoolState) {
    let (b0, t0) = read_bool(t, 110);
    if b0 == 0 {
        (3, 16, t0)
    } else {
        let (b1, t1) = read_bool(t0, 111);
        if b1 == 0 {
            (2, 4, t1)
        } else {
            let (b2, t2) = read_bool(t1, 150);
            (b2, 2, t2)
        }
    }
}

/// Reads the vectors of a split macroblock.
#[verifier::opaque]
pub open spec fn split_mvs(
    t: BoolState,
    mi: ModeInfo,
    left: ModeInfo,
    above: ModeInfo,
    best: Mv,
    mvc: [MvContext; 2],
    e: MbEdges,
) -> (ModeInfo, BoolState) {
    let (s, n, u) = split_kind(t);
    let (m, v) = split_parts(u, mi, left, above, best, mvc, e, s, n);
    (ModeInfo { mbmi: MbModeInfo { partitioning: s as u8, ..m.mbmi }, ..m }, v)
}

/// The vectors of the first `n` subblocks in the order of the parts stay near the frame.
pub open spec fn parts_near(bmi: [BModeInfo; 16], s: int, n: int, e: MbEdges) -> bool {
    forall|i: int|
        0 <= i < n ==> mv_near(bmi_mv(bmi[#[trigger] MBSPLIT_FILL_OFFSET[s][i] as int]), e)
}

/// The number of parts.
pub open spec fn part_number(s: int) -> int {
    if s == 3 {
        16
    } else if s == 2 {
        4
    } else {
        2
    }
}

proof fn lemma_offsets()
    ensures
        forall|s: int, i: int|
            0 <= s < 4 && 0 <= i < 16 ==> #[trigger] MBSPLIT_FILL_OFFSET[s][i] < 16,
        forall|s: int, i: int|
            0 <= s < 4 && 0 <= i < 16 ==> #[trigger] vp8_mbsplit_offset[s][i] < 16,
        MBSPLIT_FILL_COUNT[0] == 8,
        MBSPLIT_FILL_COUNT[1] == 8,
        MBSPLIT_FILL_COUNT[2] == 4,
        MBSPLIT_FILL_COUNT[3] == 1,
{
}

/// Where subblock `k` stands in the order of the parts.
spec fn place_of(s: int, k: int) -> int {
    if s == 1 {
        8 * ((k % 4) / 2) + 2 * (k / 4) + k % 2
    } else if s == 2 {
        8 * (k / 8) + 4 * ((k % 4) / 2) + 2 * ((k % 8) / 4) + k % 2
    } else {
        k
    }
}

/// The parts cover the macroblock.
proof fn lemma_parts_cover(bmi: [BModeInfo; 16], s: int, e: MbEdges)
    requires
        0 <= s < 4,
        parts_near(bmi, s, 16, e),
    ensures
        forall|k: int| 0 <= k < 16 ==> mv_near(bmi_mv(#[trigger] bmi[k]), e),
{
    assert forall|k: int| 0 <= k < 16 implies mv_near(bmi_mv(#[trigger] bmi[k]), e) by {
        lemma_place(s, k);
        let i = place_of(s, k);
        assert(mv_near(bmi_mv(bmi[MBSPLIT_FILL_OFFSET[s][i] as int]), e));
    }
}

proof fn lemma_place(s: int, k: int)
    requires
        0 <= s < 4,
        0 <= k < 16,
    ensures
        0 <= place_of(s, k) < 16,
        MBSPLIT_FILL_OFFSET[s][place_of(s, k)] == k,
{
    assert(k == 0 || k == 1 || k == 2 || k == 3 || k == 4 || k == 5 || k == 6 || k == 7 || k == 8
        || k == 9 || k == 10 || k == 11 || k == 12 || k == 13 || k == 14 || k == 15);
}

/// Sets the vector of the subblocks of part `j`.
fn fill(bmi: &mut [BModeInfo; 16], s: usize, j: usize, mv: Mv)
    requires
        s < 4,
        j < part_number(s as int),
    ensures
        *final(bmi) == fill_part(
            *old(bmi),
            s as int,
            j as int,
            mv,
            MBSPLIT_FILL_COUNT[s as int] as int,
        ),
        forall|x: int|
            0 <= x < 16 ==> #[trigger] final(bmi)[x] == BModeInfo::Mv(mv) || final(bmi)[x] == old(
                bmi,
            )[x],
        forall|i: int|
            0 <= i < MBSPLIT_FILL_COUNT[s as int]
                ==> final(bmi)[#[trigger] MBSPLIT_FILL_OFFSET[s as int][j
                * MBSPLIT_FILL_COUNT[s as int] + i] as int] == BModeInfo::Mv(mv),
{
    let count: usize = MBSPLIT_FILL_COUNT[s] as usize;
    proof {
        lemma_offsets();
        assert(j * count + count <= 16) by {
            if s == 3 {
                assert(j * 1 == j);
            } else if s == 2 {
                assert(j * count == 4 * j);
            } else {
                assert(j * count == 8 * j);
            }
        }
    }
    let first: usize = j * count;
    let mut i: usize = 0;
    while i < count
        invariant
            s < 4,
            i <= count,
            count == MBSPLIT_FILL_COUNT[s as int],
            first == j * count,
            first + count <= 16,
            *bmi == fill_part(*old(bmi), s as int, j as int, mv, i as int),
            forall|x: int|
                0 <= x < 16 ==> #[trigger] bmi[x] == BModeInfo::Mv(mv) || bmi[x] == old(bmi)[x],
            forall|k: int|
                0 <= k < i ==> bmi[#[trigger] MBSPLIT_FILL_OFFSET[s as int][j
                    * MBSPLIT_FILL_COUNT[s as int] + k] as int] == BModeInfo::Mv(mv),
        decreases count - i,
    {
        proof {
            lemma_offsets();
        }
        let idx: usize = MBSPLIT_FILL_OFFSET[s][first + i] as usize;
        assert(idx < 16);
        bmi[idx] = BModeInfo::Mv(mv);
        i += 1;
    }
}

/// The vector of the subblock to the left.
fn pick_left(left: &ModeInfo, mi: &ModeInfo, k: usize) -> (mv: Mv)
    requires
        k < 16,
    ensures
        mv == left_mv(*left, *mi, k as int),
{
    if k % 4 == 0 {
        if left.mbmi.mode == MbPredictionMode::SplitMv {
            bmi_as_mv(&left.bmi[k + 3])
        } else {
            left.mbmi.mv
        }
    } else {
        bmi_as_mv(&mi.bmi[k - 1])
    }
}

/// The vector of the subblock above.
fn pick_above(above: &ModeInfo, mi: &ModeInfo, k: usize) -> (mv: Mv)
    requires
        k < 16,
    ensures
        mv == above_mv(*above, *mi, k as int),
{
    if k < 4 {
        if above.mbmi.mode == MbPredictionMode::SplitMv {
            bmi_as_mv(&above.bmi[k + 12])
        } else {
            above.mbmi.mv
        }
    } else {
        bmi_as_mv(&mi.bmi[k - 4])
    }
}

/// Whether a vector leads more than sixteen pixels outside the frame.
pub fn vp8_check_mv_bounds(mv: &Mv, e: &MbEdges) -> (far: bool)
    requires
        edges_ok(*e),
    ensures
        far == !mv_near(*mv, *e),
{
    (mv.col as i32) < e.left - 128 || (mv.col as i32) > e.right + 128 || (mv.row as i32) < e.top
        - 128 || (mv.row as i32) > e.bottom + 128
}

/// Reads how a macroblock is split.
fn read_split_kind(bc: &mut Vp8Reader<'_>) -> (r: (usize, usize))
    requires
        old(bc).wf(),
    ensures
        final(bc).wf(),
        (r.0 as int, r.1 as int, final(bc)@) == split_kind(old(bc)@),
        r.0 < 4,
        r.1 == part_number(r.0 as int),
{
    if vp8_read(bc, 110) == 0 {
        return (3, 16);
    }
    if vp8_read(bc, 111) == 0 {
        return (2, 4);
    }
    let s: i32 = vp8_read(bc, 150);
    (s as usize, 2)
}

/// Reads the vectors of a split macroblock.
pub fn decode_split_mv(
    bc: &mut Vp8Reader<'_>,
    mi: &mut ModeInfo,
    left_mb: &ModeInfo,
    above_mb: &ModeInfo,
    best_mv: Mv,
    mvc: &[MvContext; 2],
    e: &MbEdges,
)
    requires
        old(bc).wf(),
        edges_ok(*e),
        cell_ok(*old(mi)),
    ensures
        final(bc).wf(),
        (*final(mi), final(bc)@) == split_mvs(
            old(bc)@,
            *old(mi),
            *left_mb,
            *above_mb,
            best_mv,
            *mvc,
            *e,
        ),
        cell_ok(*final(mi)),
        final(mi).mbmi == (MbModeInfo {
            partitioning: final(mi).mbmi.partitioning,
            need_to_clamp_mvs: final(mi).mbmi.need_to_clamp_mvs,
            ..old(mi).mbmi
        }),
        !final(mi).mbmi.need_to_clamp_mvs ==> forall|k: int|
            0 <= k < 16 ==> mv_near(bmi_mv(#[trigger] final(mi).bmi[k]), *e),
{
    let (s, n): (usize, usize) = read_split_kind(bc);
    let ghost t0 = bc@;
    let ghost m0 = *mi;
    let ghost si = s as int;
    let ghost count = MBSPLIT_FILL_COUNT[si] as int;
    let mut j: usize = 0;
    while j < n
        invariant
            s < 4,
            si == s,
            j <= n,
            n == part_number(si),
            count == MBSPLIT_FILL_COUNT[si],
            bc.wf(),
            edges_ok(*e),
            cell_ok(*mi),
            mi.mbmi == (MbModeInfo {
                need_to_clamp_mvs: mi.mbmi.need_to_clamp_mvs,
                ..m0.mbmi
            }),
            (*mi, bc@) == split_parts(
                t0,
                m0,
                *left_mb,
                *above_mb,
                best_mv,
                *mvc,
                *e,
                si,
                j as int,
            ),
            !mi.mbmi.need_to_clamp_mvs ==> parts_near(mi.bmi, si, j * count, *e),
        decreases n - j,
    {
        let ghost before = *mi;
        proof {
            lemma_offsets();
        }
        let k: usize = vp8_mbsplit_offset[s][j] as usize;
        assert(k < 16);
        let leftmv: Mv = pick_left(left_mb, mi, k);
        let abovemv: Mv = pick_above(above_mb, mi, k);
        let blockmv: Mv = read_part_mv(bc, leftmv, abovemv, best_mv, mvc);
        let far: bool = vp8_check_mv_bounds(&blockmv, e);
        if far {
            mi.mbmi.need_to_clamp_mvs = true;
        }
        fill(&mut mi.bmi, s, j, blockmv);
        proof {
            assert((j + 1) * count == j * count + count) by (nonlinear_arith);
            if !mi.mbmi.need_to_clamp_mvs {
                assert forall|i: int| 0 <= i < (j + 1) * count implies mv_near(
                    bmi_mv(mi.bmi[#[trigger] MBSPLIT_FILL_OFFSET[si][i] as int]),
                    *e,
                ) by {
                    let x = MBSPLIT_FILL_OFFSET[si][i] as int;
                    if i >= j * count {
                        let d = i - j * count;
                        assert(MBSPLIT_FILL_OFFSET[si][j * count + d] == x);
                        assert(mi.bmi[x] == BModeInfo::Mv(blockmv));
                    } else {
                        assert(mv_near(bmi_mv(before.bmi[x]), *e));
                        lemma_bounds(si, i, j as int, count);
                        assert(mi.bmi[x] == BModeInfo::Mv(blockmv) || mi.bmi[x] == before.bmi[x]);
                    }
                }
            }
        }
        j += 1;
    }
    mi.mbmi.partitioning = s as u8;
    proof {
        reveal(split_mvs);
        lemma_offsets();
        assert(n * count == 16) by {
            if s == 3 {
                assert(n * count == 16 * 1);
            } else if s == 2 {
                assert(n * count == 4 * 4);
            } else {
                assert(n * count == 2 * 8);
            }
        }
        if !mi.mbmi.need_to_clamp_mvs {
            lemma_parts_cover(mi.bmi, si, *e);
        }
    }
}

/// An entry of the order of parts is the number of a subblock.
proof fn lemma_bounds(s: int, i: int, j: int, count: int)
    requires
        0 <= s < 4,
        0 <= j < part_number(s),
        count == MBSPLIT_FILL_COUNT[s],
        0 <= i < j * count,
    ensures
        i < 16,
        MBSPLIT_FILL_OFFSET[s][i] < 16,
{
    lemma_offsets();
    if s == 3 {
        assert(j * count == j * 1);
    } else if s == 2 {
        assert(j * count == j * 4);
    } else {
        assert(j * count == j * 8);
    }
}

/// Which part subblock `k` belongs to: the upper or lower half, the left or right half, a quarter,
/// or a part of its own.
pub open spec fn part_of(s: int, k: int) -> int {
    if s == 0 {
        k / 8
    } else if s == 1 {
        (k % 4) / 2
    } else if s == 2 {
        2 * (k / 8) + (k % 4) / 2
    } else {
        k
    }
}

/// The upper left subblock of part `j`.
pub open spec fn part_corner(s: int, j: int) -> int {
    if s == 0 {
        8 * j
    } else if s == 1 {
        2 * j
    } else if s == 2 {
        8 * (j / 2) + 2 * (j % 2)
    } else {
        j
    }
}

proof fn lemma_fill_place(s: int, i: int)
    requires
        0 <= s < 4,
        0 <= i < 16,
    ensures
        place_of(s, MBSPLIT_FILL_OFFSET[s][i] as int) == i,
        part_of(s, MBSPLIT_FILL_OFFSET[s][i] as int) == i / MBSPLIT_FILL_COUNT[s] as int,
        MBSPLIT_FILL_OFFSET[s][i] < 16,
{
    lemma_offsets();
    assert(s == 0 || s == 1 || s == 2 || s == 3);
    assert(i == 0 || i == 1 || i == 2 || i == 3 || i == 4 || i == 5 || i == 6 || i == 7 || i == 8
        || i == 9 || i == 10 || i == 11 || i == 12 || i == 13 || i == 14 || i == 15);
}

proof fn lemma_fill(bmi: [BModeInfo; 16], s: int, j: int, mv: Mv, n: int, k: int)
    requires
        0 <= s < 4,
        0 <= j < part_number(s),
        0 <= n <= MBSPLIT_FILL_COUNT[s],
        0 <= k < 16,
    ensures
        fill_part(bmi, s, j, mv, n)[k] == (if j * MBSPLIT_FILL_COUNT[s] <= place_of(s, k) < j
            * MBSPLIT_FILL_COUNT[s] + n {
            BModeInfo::Mv(mv)
        } else {
            bmi[k]
        }),
    decreases n,
{
    if n > 0 {
        lemma_fill(bmi, s, j, mv, n - 1, k);
        lemma_offsets();
        let c = MBSPLIT_FILL_COUNT[s] as int;
        assert(0 <= j * c && j * c + c <= 16) by {
            if s == 3 {
                assert(j * c == j) by (nonlinear_arith)
                    requires
                        c == 1,
                ;
            } else if s == 2 {
                assert(j * c == 4 * j) by (nonlinear_arith)
                    requires
                        c == 4,
                ;
            } else {
                assert(j * c == 8 * j) by (nonlinear_arith)
                    requires
                        c == 8,
                ;
            }
        }
        let i = j * c + n - 1;
        lemma_fill_place(s, i);
        lemma_place(s, k);
    }
}

/// Filling a part sets the vector of its subblocks and of no others.
proof fn lemma_fill_whole(bmi: [BModeInfo; 16], s: int, j: int, mv: Mv, k: int)
    requires
        0 <= s < 4,
        0 <= j < part_number(s),
        0 <= k < 16,
    ensures
        fill_part(bmi, s, j, mv, MBSPLIT_FILL_COUNT[s] as int)[k] == (if part_of(s, k) == j {
            BModeInfo::Mv(mv)
        } else {
            bmi[k]
        }),
{
    let c = MBSPLIT_FILL_COUNT[s] as int;
    lemma_fill(bmi, s, j, mv, c, k);
    lemma_place(s, k);
    let i = place_of(s, k);
    lemma_fill_place(s, i);
    lemma_offsets();
    if s == 3 {
        assert(j * c == j) by (nonlinear_arith)
                    requires
                        c == 1,
                ;
    } else if s == 2 {
        assert(j * c == 4 * j) by (nonlinear_arith)
                    requires
                        c == 4,
                ;
    } else {
        assert(j * c == 8 * j) by (nonlinear_arith)
                    requires
                        c == 8,
                ;
    }
}

/// Every subblock of a split macroblock has the vector that was read for its part, and nothing that
/// is read for later parts changes it. The vector of a part is read with those to the left of and
/// above its upper left subblock.
pub proof fn law_split_vectors(
    t: BoolState,
    mi: ModeInfo,
    left: ModeInfo,
    above: ModeInfo,
    best: Mv,
    mvc: [MvContext; 2],
    e: MbEdges,
    s: int,
    n: int,
    k: int,
)
    requires
        0 <= s < 4,
        0 <= n <= part_number(s),
        0 <= k < 16,
    ensures
        ({
            let m = split_parts(t, mi, left, above, best, mvc, e, s, n).0;
            let j = part_of(s, k);
            let (b, u) = split_parts(t, mi, left, above, best, mvc, e, s, j);
            let c = part_corner(s, j);
            m.bmi[k] == (if j < n {
                BModeInfo::Mv(
                    part_mv(u, left_mv(left, b, c), above_mv(above, b, c), best, mvc).0,
                )
            } else {
                mi.bmi[k]
            })
        }),
    decreases n,
{
    if n > 0 {
        law_split_vectors(t, mi, left, above, best, mvc, e, s, n - 1, k);
        let j = n - 1;
        let (b, u) = split_parts(t, mi, left, above, best, mvc, e, s, j);
        let c = vp8_mbsplit_offset[s][j] as int;
        assert(c == part_corner(s, j)) by {
            lemma_corner(s, j);
        }
        let mv = part_mv(u, left_mv(left, b, c), above_mv(above, b, c), best, mvc).0;
        lemma_fill_whole(b.bmi, s, j, mv, k);
    }
}

proof fn lemma_corner(s: int, j: int)
    requires
        0 <= s < 4,
        0 <= j < part_number(s),
    ensures
        vp8_mbsplit_offset[s][j] == part_corner(s, j),
{
    assert(j == 0 || j == 1 || j == 2 || j == 3 || j == 4 || j == 5 || j == 6 || j == 7 || j == 8
        || j == 9 || j == 10 || j == 11 || j == 12 || j == 13 || j == 14 || j == 15);
    assert(s == 0 || s == 1 || s == 2 || s == 3);
}

/// Subblocks of the same part have the same vector.
pub proof fn law_part_has_one_vector(
    t: BoolState,
    mi: ModeInfo,
    left: ModeInfo,
    above: ModeInfo,
    best: Mv,
    mvc: [MvContext; 2],
    e: MbEdges,
    a: int,
    b: int,
)
    requires
        0 <= a < 16,
        0 <= b < 16,
    ensures
        ({
            let m = split_mvs(t, mi, left, above, best, mvc, e).0;
            let s = m.mbmi.partitioning as int;
            &&& 0 <= s <= 3
            &&& s == 0 && a / 8 == b / 8 ==> m.bmi[a] == m.bmi[b]
            &&& s == 1 && (a % 4) / 2 == (b % 4) / 2 ==> m.bmi[a] == m.bmi[b]
            &&& s == 2 && a / 8 == b / 8 && (a % 4) / 2 == (b % 4) / 2 ==> m.bmi[a] == m.bmi[b]
            &&& m.bmi[a] is Mv
        }),
{
    reveal(split_mvs);
    let (s, n, u) = split_kind(t);
    law_split_kind(t);
    law_split_vectors(u, mi, left, above, best, mvc, e, s, n, a);
    law_split_vectors(u, mi, left, above, best, mvc, e, s, n, b);
}

/// How a macroblock is split: into sixteen parts after a zero, into quarters after a one and a
/// zero, and after two ones into an upper and a lower half or into a left and a right one.
pub proof fn law_split_kind(t: BoolState)
    ensures
        ({
            let (s, n, u) = split_kind(t);
            let (a, t0) = read_bool(t, 110);
            let (b, t1) = read_bool(t0, 111);
            let (c, t2) = read_bool(t1, 150);
            &&& a == 0 ==> s == 3 && n == 16 && u == t0
            &&& a == 1 && b == 0 ==> s == 2 && n == 4 && u == t1
            &&& a == 1 && b == 1 ==> s == c && n == 2 && u == t2
            &&& 0 <= s <= 3
            &&& n == part_number(s)
            &&& (a == 0 || a == 1) && (b == 0 || b == 1) && (c == 0 || c == 1)
        }),
{
    reveal(read_bool);
}

/// The probabilities of the ways to name a vector go by what is known of the two vectors next to
/// it: whether they are the same, and which of them are zero.
pub proof fn law_sub_mv_probs(l: Mv, a: Mv)
    ensures
        ({
            let p = sub_mv_probs(l, a);
            match mv_context_of(l, a) {
                SumvfrefT::SubmvrefNormal => p[0] == 147 && p[1] == 136 && p[2] == 18,
                SumvfrefT::SubmvrefLeftZed => p[0] == 106 && p[1] == 145 && p[2] == 1,
                SumvfrefT::SubmvrefAboveZed => p[0] == 179 && p[1] == 121 && p[2] == 1,
                SumvfrefT::SubmvrefLeftAboveSame => p[0] == 223 && p[1] == 1 && p[2] == 34,
                SumvfrefT::SubmvrefLeftAboveZed => p[0] == 208 && p[1] == 1 && p[2] == 1,
            }
        }),
{
}

/// The vector of a part: a zero takes over the one to the left, a one and a zero the one above, two
/// ones and a zero mean none, and three ones are followed by what is added to the best guess.
pub proof fn law_part_vector_bits(s: BoolState, left: Mv, above: Mv, best: Mv, mvc: [MvContext; 2])
    ensures
        ({
            let (v, u) = part_mv(s, left, above, best, mvc);
            let p = sub_mv_probs(left, above);
            let (a, t0) = read_bool(s, p[0] as int);
            let (b, t1) = read_bool(t0, p[1] as int);
            let (c, t2) = read_bool(t1, p[2] as int);
            let (d, t3) = get_mv(t2, mvc);
            &&& a == 0 ==> v == left && u == t0
            &&& a == 1 && b == 0 ==> v == above && u == t1
            &&& a == 1 && b == 1 && c == 0 ==> v.row == 0 && v.col == 0 && u == t2
            &&& a == 1 && b == 1 && c == 1 ==> {
                &&& v.row == d.row.wrapping_add(best.row)
                &&& v.col == d.col.wrapping_add(best.col)
                &&& u == t3
            }
        }),
{
    reveal(part_mv);
    reveal(read_bool);
}

} // verus!
