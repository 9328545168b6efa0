//! Reading of intra modes.

use crate::dboolhuff::{read_bool, BoolState, Vp8Reader};
use crate::tables::{
    Prob, VP8_BMODE_TREE, VP8_KF_BMODE_PROB, VP8_KF_UV_MODE_PROB, VP8_KF_YMODE_PROB,
    VP8_KF_YMODE_TREE, VP8_UV_MODE_TREE, VP8_YMODE_TREE,
};
use crate::treereader::{read_tree, read_tree_from, vp8_treed_read};
use crate::types::{
    BModeInfo, BPredictionMode, MbModeInfo, MbPredictionMode, ModeInfo, MvReferenceFrame,
};
use vstd::array::spec_array_update;
use vstd::prelude::*;

verus! {

/// The number of a subblock mode.
pub open spec fn b_number(m: BPredictionMode) -> int {
    match m {
        BPredictionMode::DcPred => 0,
        BPredictionMode::TmPred => 1,
        BPredictionMode::VePred => 2,
        BPredictionMode::HePred => 3,
        BPredictionMode::LdPred => 4,
        BPredictionMode::RdPred => 5,
        BPredictionMode::VrPred => 6,
        BPredictionMode::VlPred => 7,
        BPredictionMode::HdPred => 8,
        BPredictionMode::HuPred => 9,
        BPredictionMode::Left4x4 => 10,
        BPredictionMode::Above4x4 => 11,
        BPredictionMode::Zero4x4 => 12,
        BPredictionMode::New4x4 => 13,
    }
}

/// The number of a subblock mode.
pub fn b_index(m: BPredictionMode) -> (n: usize)
    ensures
        n == b_number(m),
{
    match m {
        BPredictionMode::DcPred => 0,
        BPredictionMode::TmPred => 1,
        BPredictionMode::VePred => 2,
        BPredictionMode::HePred => 3,
        BPredictionMode::LdPred => 4,
        BPredictionMode::RdPred => 5,
        BPredictionMode::VrPred => 6,
        BPredictionMode::VlPred => 7,
        BPredictionMode::HdPred => 8,
        BPredictionMode::HuPred => 9,
        BPredictionMode::Left4x4 => 10,
        BPredictionMode::Above4x4 => 11,
        BPredictionMode::Zero4x4 => 12,
        BPredictionMode::New4x4 => 13,
    }
}

/// The intra mode of a subblock with number `n`.
pub open spec fn b_mode(n: int) -> BPredictionMode {
    if n == 0 {
        BPredictionMode::DcPred
    } else if n == 1 {
        BPredictionMode::TmPred
    } else if n == 2 {
        BPredictionMode::VePred
    } else if n == 3 {
        BPredictionMode::HePred
    } else if n == 4 {
        BPredictionMode::LdPred
    } else if n == 5 {
        BPredictionMode::RdPred
    } else if n == 6 {
        BPredictionMode::VrPred
    } else if n == 7 {
        BPredictionMode::VlPred
    } else if n == 8 {
        BPredictionMode::HdPred
    } else {
        BPredictionMode::HuPred
    }
}

/// The intra mode of a macroblock with number `n`.
pub open spec fn y_mode(n: int) -> MbPredictionMode {
    if n == 0 {
        MbPredictionMode::DcPred
    } else if n == 1 {
        MbPredictionMode::VPred
    } else if n == 2 {
        MbPredictionMode::HPred
    } else if n == 3 {
        MbPredictionMode::TmPred
    } else {
        MbPredictionMode::BPred
    }
}

fn b_mode_from(n: i32) -> (m: BPredictionMode)
    ensures
        m == b_mode(n as int),
{
    if n == 0 {
        BPredictionMode::DcPred
    } else if n == 1 {
        BPredictionMode::TmPred
    } else if n == 2 {
        BPredictionMode::VePred
    } else if n == 3 {
        BPredictionMode::HePred
    } else if n == 4 {
        BPredictionMode::LdPred
    } else if n == 5 {
        BPredictionMode::RdPred
    } else if n == 6 {
        BPredictionMode::VrPred
    } else if n == 7 {
        BPredictionMode::VlPred
    } else if n == 8 {
        BPredictionMode::HdPred
    } else {
        BPredictionMode::HuPred
    }
}

fn y_mode_from(n: i32) -> (m: MbPredictionMode)
    ensures
        m == y_mode(n as int),
{
    if n == 0 {
        MbPredictionMode::DcPred
    } else if n == 1 {
        MbPredictionMode::VPred
    } else if n == 2 {
        MbPredictionMode::HPred
    } else if n == 3 {
        MbPredictionMode::TmPred
    } else {
        MbPredictionMode::BPred
    }
}

/// Reads the mode of an intra subblock.
#[verifier::opaque]
pub open spec fn get_bmode(s: BoolState, p: Seq<Prob>) -> (BPredictionMode, BoolState) {
    let (n, t) = read_tree(s, VP8_BMODE_TREE@, p);
    (b_mode(n), t)
}

/// Reads the luma mode of an intra macroblock in an inter frame.
#[verifier::opaque]
pub open spec fn get_ymode(s: BoolState, p: Seq<Prob>) -> (MbPredictionMode, BoolState) {
    let (n, t) = read_tree(s, VP8_YMODE_TREE@, p);
    (y_mode(n), t)
}

/// Reads the luma mode of a macroblock in a key frame.
#[verifier::opaque]
pub open spec fn get_kf_ymode(s: BoolState) -> (MbPredictionMode, BoolState) {
    let (n, t) = read_tree(s, VP8_KF_YMODE_TREE@, VP8_KF_YMODE_PROB@);
    (y_mode(n), t)
}

/// Reads the chroma mode of an intra macroblock.
#[verifier::opaque]
pub open spec fn get_uv_mode(s: BoolState, p: Seq<Prob>) -> (MbPredictionMode, BoolState) {
    let (n, t) = read_tree(s, VP8_UV_MODE_TREE@, p);
    (y_mode(n), t)
}

pub fn read_bmode(bc: &mut Vp8Reader<'_>, p: &[Prob; 9]) -> (m: BPredictionMode)
    requires
        old(bc).wf(),
    ensures
        final(bc).wf(),
        (m, final(bc)@) == get_bmode(old(bc)@, p@),
        b_number(m) < 10,
{
    proof {
        reveal(get_bmode);
    }
    let n: i32 = vp8_treed_read(bc, VP8_BMODE_TREE.as_slice(), p.as_slice());
    b_mode_from(n)
}

pub fn read_ymode(bc: &mut Vp8Reader<'_>, p: &[Prob; 4]) -> (m: MbPredictionMode)
    requires
        old(bc).wf(),
    ensures
        final(bc).wf(),
        (m, final(bc)@) == get_ymode(old(bc)@, p@),
{
    proof {
        reveal(get_ymode);
    }
    let n: i32 = vp8_treed_read(bc, VP8_YMODE_TREE.as_slice(), p.as_slice());
    y_mode_from(n)
}

fn read_kf_ymode(bc: &mut Vp8Reader<'_>) -> (m: MbPredictionMode)
    requires
        old(bc).wf(),
    ensures
        final(bc).wf(),
        (m, final(bc)@) == get_kf_ymode(old(bc)@),
{
    proof {
        reveal(get_kf_ymode);
    }
    let n: i32 = vp8_treed_read(bc, VP8_KF_YMODE_TREE.as_slice(), VP8_KF_YMODE_PROB.as_slice());
    y_mode_from(n)
}

pub fn read_uv_mode(bc: &mut Vp8Reader<'_>, p: &[Prob; 3]) -> (m: MbPredictionMode)
    requires
        old(bc).wf(),
    ensures
        final(bc).wf(),
        (m, final(bc)@) == get_uv_mode(old(bc)@, p@),
{
    proof {
        reveal(get_uv_mode);
    }
    let n: i32 = vp8_treed_read(bc, VP8_UV_MODE_TREE.as_slice(), p.as_slice());
    y_mode_from(n)
}

/// The intra mode of a subblock; one with a motion vector counts as flat.
pub open spec fn intra_b(b: BModeInfo) -> BPredictionMode {
    match b {
        BModeInfo::Intra(m) => m,
        BModeInfo::Mv(_) => BPredictionMode::DcPred,
    }
}

/// The mode that subblock `k` of a macroblock has, or would have if its macroblock were split.
pub open spec fn implied_b(mi: ModeInfo, k: int) -> BPredictionMode {
    match mi.mbmi.mode {
        MbPredictionMode::BPred => intra_b(mi.bmi[k]),
        MbPredictionMode::VPred => BPredictionMode::VePred,
        MbPredictionMode::HPred => BPredictionMode::HePred,
        MbPredictionMode::TmPred => BPredictionMode::TmPred,
        _ => BPredictionMode::DcPred,
    }
}

/// The mode of the subblock above subblock `b`.
pub open spec fn above_b(above: ModeInfo, mi: ModeInfo, b: int) -> BPredictionMode {
    if b < 4 {
        implied_b(above, b + 12)
    } else {
        intra_b(mi.bmi[b - 4])
    }
}

/// The mode of the subblock to the left of subblock `b`.
pub open spec fn left_b(left: ModeInfo, mi: ModeInfo, b: int) -> BPredictionMode {
    if b % 4 == 0 {
        implied_b(left, b + 3)
    } else {
        intra_b(mi.bmi[b - 1])
    }
}

/// The subblocks' intra modes are such, and the macroblock belongs to one of four segments.
pub open spec fn cell_ok(mi: ModeInfo) -> bool {
    &&& mi.mbmi.segment_id < 4
    &&& forall|k: int| 0 <= k < 16 ==> b_number(intra_b(#[trigger] mi.bmi[k])) < 10
}

fn intra_b_of(b: &BModeInfo) -> (m: BPredictionMode)
    ensures
        m == intra_b(*b),
{
    match *b {
        BModeInfo::Intra(m) => m,
        BModeInfo::Mv(_) => BPredictionMode::DcPred,
    }
}

fn implied_b_of(mi: &ModeInfo, k: usize) -> (m: BPredictionMode)
    requires
        k < 16,
        cell_ok(*mi),
    ensures
        m == implied_b(*mi, k as int),
        b_number(m) < 10,
{
    assert(b_number(intra_b(mi.bmi[k as int])) < 10);
    match mi.mbmi.mode {
        MbPredictionMode::BPred => intra_b_of(&mi.bmi[k]),
        MbPredictionMode::VPred => BPredictionMode::VePred,
        MbPredictionMode::HPred => BPredictionMode::HePred,
        MbPredictionMode::TmPred => BPredictionMode::TmPred,
        _ => BPredictionMode::DcPred,
    }
}

fn above_block_mode(above: &ModeInfo, mi: &ModeInfo, b: usize) -> (m: BPredictionMode)
    requires
        b < 16,
        cell_ok(*above),
        cell_ok(*mi),
    ensures
        m == above_b(*above, *mi, b as int),
        b_number(m) < 10,
{
    if b < 4 {
        implied_b_of(above, b + 12)
    } else {
        assert(b_number(intra_b(mi.bmi[b - 4])) < 10);
        intra_b_of(&mi.bmi[b - 4])
    }
}

fn left_block_mode(left: &ModeInfo, mi: &ModeInfo, b: usize) -> (m: BPredictionMode)
    requires
        b < 16,
        cell_ok(*left),
        cell_ok(*mi),
    ensures
        m == left_b(*left, *mi, b as int),
        b_number(m) < 10,
{
    if b % 4 == 0 {
        implied_b_of(left, b + 3)
    } else {
        assert(b_number(intra_b(mi.bmi[b - 1])) < 10);
        intra_b_of(&mi.bmi[b - 1])
    }
}

/// The probabilities of a subblock's mode in a key frame.
#[verifier::opaque]
pub open spec fn kf_b_prob(a: BPredictionMode, l: BPredictionMode) -> Seq<Prob> {
    VP8_KF_BMODE_PROB[b_number(a)][b_number(l)]@
}

fn kf_prob(a: BPredictionMode, l: BPredictionMode) -> (p: [Prob; 9])
    requires
        b_number(a) < 10,
        b_number(l) < 10,
    ensures
        p@ == kf_b_prob(a, l),
{
    proof {
        reveal(kf_b_prob);
    }
    VP8_KF_BMODE_PROB[b_index(a)][b_index(l)]
}

/// Reads the modes of the first `n` subblocks of a macroblock in a key frame.
pub open spec fn kf_submodes(s: BoolState, mi: ModeInfo, above: ModeInfo, left: ModeInfo, n: int) -> (
    ModeInfo,
    BoolState,
)
    decreases n,
{
    if n <= 0 {
        (mi, s)
    } else {
        let (m, t) = kf_submodes(s, mi, above, left, n - 1);
        let k = n - 1;
        let (b, u) = get_bmode(t, kf_b_prob(above_b(above, m, k), left_b(left, m, k)));
        (ModeInfo { bmi: spec_array_update(m.bmi, k, BModeInfo::Intra(b)), ..m }, u)
    }
}

/// Reads the modes of a macroblock in a key frame.
#[verifier::opaque]
pub open spec fn kf_modes(s: BoolState, mi: ModeInfo, above: ModeInfo, left: ModeInfo) -> (
    ModeInfo,
    BoolState,
) {
    let (y, s1) = get_kf_ymode(s);
    let m1 = ModeInfo {
        mbmi: MbModeInfo { ref_frame: MvReferenceFrame::Intra, mode: y, ..mi.mbmi },
        ..mi
    };
    let (m2, s2) = if y == MbPredictionMode::BPred {
        kf_submodes(
            s1,
            ModeInfo { mbmi: MbModeInfo { is_4x4: true, ..m1.mbmi }, ..m1 },
            above,
            left,
            16,
        )
    } else {
        (m1, s1)
    };
    let (uv, s3) = get_uv_mode(s2, VP8_KF_UV_MODE_PROB@);
    (ModeInfo { mbmi: MbModeInfo { uv_mode: uv, ..m2.mbmi }, ..m2 }, s3)
}

/// Reads the modes of a macroblock in a key frame.
pub fn read_kf_modes(bc: &mut Vp8Reader<'_>, mi: &mut ModeInfo, above: &ModeInfo, left: &ModeInfo)
    requires
        old(bc).wf(),
        cell_ok(*old(mi)),
        cell_ok(*above),
        cell_ok(*left),
    ensures
        final(bc).wf(),
        (*final(mi), final(bc)@) == kf_modes(old(bc)@, *old(mi), *above, *left),
        cell_ok(*final(mi)),
        final(mi).mbmi.ref_frame == MvReferenceFrame::Intra,
{
    proof {
        reveal(kf_modes);
    }
    mi.mbmi.ref_frame = MvReferenceFrame::Intra;
    let y: MbPredictionMode = read_kf_ymode(bc);
    mi.mbmi.mode = y;
    if y == MbPredictionMode::BPred {
        mi.mbmi.is_4x4 = true;
        let ghost s1 = bc@;
        let ghost m1 = *mi;
        let mut i: usize = 0;
        while i < 16
            invariant
                i <= 16,
                bc.wf(),
                cell_ok(*mi),
                cell_ok(*above),
                cell_ok(*left),
                mi.mbmi == m1.mbmi,
                (*mi, bc@) == kf_submodes(s1, m1, *above, *left, i as int),
            decreases 16 - i,
        {
            let a: BPredictionMode = above_block_mode(above, mi, i);
            let l: BPredictionMode = left_block_mode(left, mi, i);
            let p: [Prob; 9] = kf_prob(a, l);
            let m: BPredictionMode = read_bmode(bc, &p);
            mi.bmi[i] = BModeInfo::Intra(m);
            i += 1;
        }
    }
    mi.mbmi.uv_mode = read_uv_mode(bc, &VP8_KF_UV_MODE_PROB);
}

/// Every mode of a subblock inside the frame is the one with its own number.
pub proof fn law_mode_numbers(m: BPredictionMode, n: int)
    ensures
        b_number(m) < 10 ==> b_mode(b_number(m)) == m,
        0 <= n < 10 ==> b_number(b_mode(n)) == n,
{
}

/// The luma mode of a macroblock takes at most three bits. In a key frame the first says whether
/// the macroblock is split; elsewhere it says whether it is flat. The next bit parts the other
/// modes in twos, and the last has a probability for each of the two.
pub proof fn law_ymode_bits(s: BoolState, p: Seq<Prob>)
    ensures
        ({
            let (m, t) = get_ymode(s, p);
            let (b0, t0) = read_bool(s, p[0] as int);
            let (b1, t1) = read_bool(t0, p[1] as int);
            let (b2, t2) = read_bool(t1, p[if b1 == 0 { 2 } else { 3 }] as int);
            &&& b0 == 0 ==> m == MbPredictionMode::DcPred && t == t0
            &&& b0 == 1 ==> t == t2 && m == (if b1 == 0 {
                if b2 == 0 {
                    MbPredictionMode::VPred
                } else {
                    MbPredictionMode::HPred
                }
            } else if b2 == 0 {
                MbPredictionMode::TmPred
            } else {
                MbPredictionMode::BPred
            })
        }),
        ({
            let (m, t) = get_kf_ymode(s);
            let (b0, t0) = read_bool(s, 145);
            let (b1, t1) = read_bool(t0, 156);
            let (b2, t2) = read_bool(t1, if b1 == 0 { 163 } else { 128 });
            &&& b0 == 0 ==> m == MbPredictionMode::BPred && t == t0
            &&& b0 == 1 ==> t == t2 && m == (if b1 == 0 {
                if b2 == 0 {
                    MbPredictionMode::DcPred
                } else {
                    MbPredictionMode::VPred
                }
            } else if b2 == 0 {
                MbPredictionMode::HPred
            } else {
                MbPredictionMode::TmPred
            })
        }),
{
    reveal(get_ymode);
    reveal(get_kf_ymode);
    reveal(read_bool);
    reveal_with_fuel(read_tree_from, 4);
}

/// The chroma mode takes a bit for each mode that it is not.
pub proof fn law_uv_mode_bits(s: BoolState, p: Seq<Prob>)
    ensures
        ({
            let (m, t) = get_uv_mode(s, p);
            let (b0, t0) = read_bool(s, p[0] as int);
            let (b1, t1) = read_bool(t0, p[1] as int);
            let (b2, t2) = read_bool(t1, p[2] as int);
            &&& b0 == 0 ==> m == MbPredictionMode::DcPred && t == t0
            &&& b0 == 1 && b1 == 0 ==> m == MbPredictionMode::VPred && t == t1
            &&& b0 == 1 && b1 == 1 ==> t == t2 && m == (if b2 == 0 {
                MbPredictionMode::HPred
            } else {
                MbPredictionMode::TmPred
            })
        }),
{
    reveal(get_uv_mode);
    reveal(read_bool);
    reveal_with_fuel(read_tree_from, 4);
}

/// The mode of a subblock: flat, the gradient and from above take one to three bits; after a
/// fourth, horizontal modes and those along falling lines are parted from the others.
pub proof fn law_bmode_bits(s: BoolState, p: Seq<Prob>)
    ensures
        ({
            let (m, t) = get_bmode(s, p);
            let (b0, t0) = read_bool(s, p[0] as int);
            let (b1, t1) = read_bool(t0, p[1] as int);
            let (b2, t2) = read_bool(t1, p[2] as int);
            let (b3, t3) = read_bool(t2, p[3] as int);
            let (c4, u4) = read_bool(t3, p[4] as int);
            let (c5, u5) = read_bool(u4, p[5] as int);
            let (d4, v4) = read_bool(t3, p[6] as int);
            let (d5, v5) = read_bool(v4, p[7] as int);
            let (d6, v6) = read_bool(v5, p[8] as int);
            let late = b0 == 1 && b1 == 1 && b2 == 1;
            &&& b0 == 0 ==> m == BPredictionMode::DcPred && t == t0
            &&& b0 == 1 && b1 == 0 ==> m == BPredictionMode::TmPred && t == t1
            &&& b0 == 1 && b1 == 1 && b2 == 0 ==> m == BPredictionMode::VePred && t == t2
            &&& late && b3 == 0 && c4 == 0 ==> m == BPredictionMode::HePred && t == u4
            &&& late && b3 == 0 && c4 == 1 ==> t == u5 && m == (if c5 == 0 {
                BPredictionMode::RdPred
            } else {
                BPredictionMode::VrPred
            })
            &&& late && b3 == 1 && d4 == 0 ==> m == BPredictionMode::LdPred && t == v4
            &&& late && b3 == 1 && d4 == 1 && d5 == 0 ==> m == BPredictionMode::VlPred && t == v5
            &&& late && b3 == 1 && d4 == 1 && d5 == 1 ==> t == v6 && m == (if d6 == 0 {
                BPredictionMode::HdPred
            } else {
                BPredictionMode::HuPred
            })
        }),
{
    reveal(get_bmode);
    reveal(read_bool);
    reveal_with_fuel(read_tree_from, 8);
}

/// A macroblock that is not split counts as one whose subblocks all have the mode of its name, and
/// as a flat one where it is predicted from another frame.
pub proof fn law_implied_modes(mi: ModeInfo, k: int, n: int)
    ensures
        mi.mbmi.mode != MbPredictionMode::BPred ==> implied_b(mi, k) == implied_b(mi, n),
        mi.mbmi.mode == MbPredictionMode::VPred ==> implied_b(mi, k) == BPredictionMode::VePred,
        mi.mbmi.mode == MbPredictionMode::HPred ==> implied_b(mi, k) == BPredictionMode::HePred,
        mi.mbmi.mode == MbPredictionMode::TmPred ==> implied_b(mi, k) == BPredictionMode::TmPred,
        mi.mbmi.mode == MbPredictionMode::DcPred ==> implied_b(mi, k) == BPredictionMode::DcPred,
        mi.mbmi.mode == MbPredictionMode::SplitMv || mi.mbmi.mode == MbPredictionMode::ZeroMv
            || mi.mbmi.mode == MbPredictionMode::NearMv || mi.mbmi.mode
            == MbPredictionMode::NearestMv || mi.mbmi.mode == MbPredictionMode::NewMv
            ==> implied_b(mi, k) == BPredictionMode::DcPred,
        mi.mbmi.mode == MbPredictionMode::BPred ==> mi.bmi[k] == BModeInfo::Intra(implied_b(mi, k))
            || mi.bmi[k] is Mv,
{
}

/// The subblock in row `i` and column `j` has above it the one in the row before, and to its left
/// the one in the column before; at the edge these are those of the last row or column of the
/// macroblock next to it.
pub proof fn law_submode_neighbours(next: ModeInfo, mi: ModeInfo, i: int, j: int)
    requires
        0 <= i < 4,
        0 <= j < 4,
    ensures
        above_b(next, mi, 4 * i + j) == (if i == 0 {
            implied_b(next, 4 * 3 + j)
        } else {
            intra_b(mi.bmi[4 * (i - 1) + j])
        }),
        left_b(next, mi, 4 * i + j) == (if j == 0 {
            implied_b(next, 4 * i + 3)
        } else {
            intra_b(mi.bmi[4 * i + (j - 1)])
        }),
{
}

/// The subblocks' modes of a key frame are read in order, each with the probabilities that go by
/// the modes above it and to its left as they come out. Nothing but the subblocks' modes changes.
pub proof fn law_submodes_in_order(
    s: BoolState,
    mi: ModeInfo,
    above: ModeInfo,
    left: ModeInfo,
    n: int,
    k: int,
)
    requires
        0 <= k < n <= 16,
    ensures
        ({
            let (m, _) = kf_submodes(s, mi, above, left, n);
            let (_, t) = kf_submodes(s, mi, above, left, k);
            let (_, u) = kf_submodes(s, mi, above, left, k + 1);
            let a = b_number(above_b(above, m, k));
            let l = b_number(left_b(left, m, k));
            let (b, v) = get_bmode(t, VP8_KF_BMODE_PROB[a][l]@);
            &&& m.bmi[k] == BModeInfo::Intra(b)
            &&& u == v
            &&& m.mbmi == mi.mbmi
            &&& forall|i: int| n <= i < 16 ==> #[trigger] m.bmi[i] == mi.bmi[i]
        }),
    decreases n,
{
    reveal(kf_b_prob);
    lemma_submodes_keep(s, mi, above, left, n);
    lemma_submodes_keep(s, mi, above, left, n - 1);
    if k < n - 1 {
        law_submodes_in_order(s, mi, above, left, n - 1, k);
    }
}

proof fn lemma_submodes_keep(
    s: BoolState,
    mi: ModeInfo,
    above: ModeInfo,
    left: ModeInfo,
    n: int,
)
    requires
        0 <= n <= 16,
    ensures
        ({
            let m = kf_submodes(s, mi, above, left, n).0;
            &&& m.mbmi == mi.mbmi
            &&& forall|i: int| n <= i < 16 ==> #[trigger] m.bmi[i] == mi.bmi[i]
        }),
    decreases n,
{
    if n > 0 {
        lemma_submodes_keep(s, mi, above, left, n - 1);
    }
}

/// A macroblock of a key frame is predicted from its own frame. Its luma mode is read first, then
/// its subblocks' modes where it is split, and its chroma mode last; its segment and whether it has
/// coefficients are as they were.
pub proof fn law_kf_modes(s: BoolState, mi: ModeInfo, above: ModeInfo, left: ModeInfo)
    ensures
        ({
            let (m, t) = kf_modes(s, mi, above, left);
            let (y, s1) = get_kf_ymode(s);
            let split = ModeInfo {
                mbmi: MbModeInfo {
                    ref_frame: MvReferenceFrame::Intra,
                    mode: y,
                    is_4x4: true,
                    ..mi.mbmi
                },
                ..mi
            };
            let (b, s2) = kf_submodes(s1, split, above, left, 16);
            let (uv, s3) = get_uv_mode(
                if y == MbPredictionMode::BPred {
                    s2
                } else {
                    s1
                },
                seq![142, 114, 183],
            );
            &&& t == s3
            &&& m.mbmi.mode == y
            &&& m.mbmi.uv_mode == uv
            &&& m.mbmi.ref_frame == MvReferenceFrame::Intra
            &&& m.mbmi.segment_id == mi.mbmi.segment_id
            &&& m.mbmi.mb_skip_coeff == mi.mbmi.mb_skip_coeff
            &&& y == MbPredictionMode::BPred ==> m.mbmi.is_4x4 && m.bmi == b.bmi
            &&& y != MbPredictionMode::BPred ==> m.mbmi.is_4x4 == mi.mbmi.is_4x4 && m.bmi == mi.bmi
        }),
{
    reveal(kf_modes);
    assert(VP8_KF_UV_MODE_PROB@ =~= seq![142, 114, 183]);
    let (y, s1) = get_kf_ymode(s);
    let split = ModeInfo {
        mbmi: MbModeInfo { ref_frame: MvReferenceFrame::Intra, mode: y, is_4x4: true, ..mi.mbmi },
        ..mi
    };
    lemma_submodes_keep(s1, split, above, left, 16);
}

} // verus!
