//! The reconstruction of all macroblocks of a frame.

use crate::dboolhuff::{overrun, vp8dx_bool_error, BoolDecoder, BoolState, Vp8Reader};
use crate::decodemv::{cells_ok, reach_ok};
use crate::dequantizer::StepTable;
use crate::extend::{
    extend_bottom, extend_left_right, extend_row_end, extend_top, vp8_extend_mb_row,
    yv12_extend_frame_bottom_c, yv12_extend_frame_left_right_c, yv12_extend_frame_top_c,
};
use crate::grid::{is_rect, put, Grid};
use crate::intramode::cell_ok;
use crate::macroblock::{
    decode_macroblock, mb_decode, mb_intra, mb_residual, mb_tokens, MbEnv, MbState, RefFrames,
    RefPics,
};
use crate::mbmodes::inter_ok;
use crate::reconinter::mask_ok;
use crate::setupintrarecon::{
    left_lines, setup_intra_recon_left, top_lines, vp8_setup_intra_recon_top_line,
};
use crate::types::{
    edges_at, no_context, EntropyContextPlanes, FrameContext, FramePlanes, FrameType,
    LoopFilterInfoN, LoopFilterType, Macroblockd, ModeInfo, MvReferenceFrame, Yuv,
};
use crate::vp8_loopfilter::{
    grid_holds, levels_ok, lf_ready, lf_row, lf_row_simple, ref_index, ref_number, segments_ok,
    vp8_loop_filter_row_normal, vp8_loop_filter_row_simple, ModeGrid,
};
use vstd::prelude::*;

verus! {

/// What the decoding of a frame's macroblocks works on: the readers of the partitions, the
/// contexts above and to the left, the working area, the modes, and the picture.
#[verifier::ext_equal]
pub struct RowState {
    pub ts: Seq<BoolState>,
    pub above: Seq<EntropyContextPlanes>,
    pub left: EntropyContextPlanes,
    pub mb: Macroblockd,
    pub g: ModeGrid,
    pub d: Yuv,
}

/// What is the same for all macroblocks of a frame.
pub struct FrameEnv {
    pub env: MbEnv,
    pub refs: RefPics,
    /// Whether the reference frames may be wrong.
    pub corrupted: [i32; 4],
    /// The number of token partitions.
    pub parts: int,
    pub lf: LoopFilterInfoN,
    pub level: int,
    pub filter: LoopFilterType,
    pub frame_type: FrameType,
    pub rows: int,
    pub cols: int,
}

/// One where a reader has gone past the end of its data, else zero.
pub open spec fn error_flag(t: BoolState) -> i32 {
    if overrun(t) {
        1
    } else {
        0
    }
}

/// Decodes the macroblock in row `r` and column `c`.
pub open spec fn one_mb(s: RowState, f: FrameEnv, r: int, c: int) -> RowState {
    let p = r % f.parts;
    let mi = s.g[r + 1][c + 1];
    let m = mb_decode(
        MbState {
            t: s.ts[p],
            above: s.above[c],
            left: s.left,
            mb: Macroblockd {
                corrupted: s.mb.corrupted | f.corrupted[ref_number(mi.mbmi.ref_frame)],
                ..s.mb
            },
            mi,
            d: s.d,
        },
        f.env,
        f.refs,
        r,
        c,
        f.rows,
        f.cols,
    );
    RowState {
        ts: s.ts.update(p, m.t),
        above: s.above.update(c, m.above),
        left: m.left,
        mb: Macroblockd { corrupted: m.mb.corrupted | error_flag(m.t), ..m.mb },
        g: put(s.g, r + 1, c + 1, m.mi),
        d: m.d,
    }
}

/// Decodes the first `n` macroblocks of row `r`.
pub open spec fn row_mbs(s: RowState, f: FrameEnv, r: int, n: int) -> RowState
    decreases n,
{
    if n <= 0 {
        s
    } else {
        one_mb(row_mbs(s, f, r, n - 1), f, r, n - 1)
    }
}

/// Decodes row `r`.
#[verifier::opaque]
pub open spec fn one_row(s: RowState, f: FrameEnv, r: int) -> RowState {
    let s1 = row_mbs(RowState { left: no_context(), d: left_lines(s.d, r), ..s }, f, r, f.cols);
    RowState { d: extend_row_end(s1.d, r, f.cols), ..s1 }
}

/// Filters row `r` of a picture.
pub open spec fn filter_row(f: FrameEnv, g: ModeGrid, d: Yuv, r: int) -> Yuv {
    if f.filter == LoopFilterType::Normal {
        lf_row(f.lf, f.frame_type, g, d, r, f.cols)
    } else {
        Yuv { y: lf_row_simple(f.lf, g, d.y, r, f.cols), ..d }
    }
}

/// What follows the decoding of row `r`. The loop filter stays one row behind, since the next
/// row is predicted from unfiltered pixels, and the extension to the sides follows the filter.
#[verifier::opaque]
pub open spec fn after_row(f: FrameEnv, g: ModeGrid, d: Yuv, r: int) -> Yuv {
    if r == 0 {
        d
    } else if f.level != 0 {
        let d1 = filter_row(f, g, d, r - 1);
        if r > 1 {
            extend_left_right(d1, r - 2, f.cols)
        } else {
            d1
        }
    } else {
        extend_left_right(d, r - 1, f.cols)
    }
}

/// Decodes the first `n` rows.
pub open spec fn all_rows(s: RowState, f: FrameEnv, n: int) -> RowState
    decreases n,
{
    if n <= 0 {
        s
    } else {
        let u = one_row(all_rows(s, f, n - 1), f, n - 1);
        RowState { d: after_row(f, u.g, u.d, n - 1), ..u }
    }
}

/// What follows the last row: the rest of the loop filter, and the border.
#[verifier::opaque]
pub open spec fn after_rows(f: FrameEnv, g: ModeGrid, d: Yuv) -> Yuv {
    let e = if f.level != 0 {
        let k = if f.rows >= 2 {
            f.rows - 2
        } else {
            0
        };
        extend_left_right(
            extend_left_right(filter_row(f, g, d, f.rows - 1), k, f.cols),
            k + 1,
            f.cols,
        )
    } else {
        extend_left_right(d, f.rows - 1, f.cols)
    };
    extend_bottom(extend_top(e), f.rows)
}

/// Decodes all macroblocks of a frame.
#[verifier::opaque]
pub open spec fn frame_rows(s: RowState, f: FrameEnv) -> RowState {
    let u = all_rows(RowState { d: top_lines(s.d, f.cols), ..s }, f, f.rows);
    RowState { d: after_rows(f, u.g, u.d), ..u }
}

/// The states of several readers.
pub open spec fn reader_states(rs: Seq<BoolDecoder<'_>>) -> Seq<BoolState> {
    Seq::new(rs.len(), |i: int| rs[i]@)
}

/// All readers are in order.
pub open spec fn readers_ok(rs: Seq<BoolDecoder<'_>>) -> bool {
    forall|i: int| 0 <= i < rs.len() ==> (#[trigger] rs[i]).wf()
}

/// All contexts are zero or one.
pub open spec fn contexts_ok(s: Seq<EntropyContextPlanes>) -> bool {
    forall|i: int| 0 <= i < s.len() ==> (#[trigger] s[i]).ok()
}

/// What is the same for all macroblocks of a frame.
pub struct FrameParams<'a> {
    pub fc: &'a FrameContext,
    pub y1_dequant: &'a StepTable,
    pub y2_dequant: &'a StepTable,
    pub uv_dequant: &'a StepTable,
    pub base_qindex: i32,
    pub refs: RefFrames<'a>,
    pub corrupted: [i32; 4],
    pub num_part: usize,
    pub lf_info: &'a LoopFilterInfoN,
    pub filter_level: i32,
    pub filter_type: LoopFilterType,
    pub frame_type: FrameType,
    pub rows: usize,
    pub cols: usize,
}

impl<'a> FrameParams<'a> {
    /// The same as mathematical values.
    pub open spec fn view(&self) -> FrameEnv {
        FrameEnv {
            env: MbEnv {
                fc: *self.fc,
                y1: *self.y1_dequant,
                y2: *self.y2_dequant,
                uv: *self.uv_dequant,
                base: self.base_qindex as int,
            },
            refs: self.refs@,
            corrupted: self.corrupted,
            parts: self.num_part as int,
            lf: *self.lf_info,
            level: self.filter_level as int,
            filter: self.filter_type,
            frame_type: self.frame_type,
            rows: self.rows as int,
            cols: self.cols as int,
        }
    }

    /// What holds of the parameters of every frame.
    pub open spec fn ok(&self) -> bool {
        &&& 0 <= self.base_qindex <= 127
        &&& self.refs.hold(self.rows as int, self.cols as int)
        &&& 1 <= self.num_part <= 8
        &&& lf_ready(*self.lf_info)
        &&& levels_ok(*self.lf_info)
        &&& 1 <= self.rows <= 1024
        &&& 1 <= self.cols <= 1024
    }
}

/// The working area's parts that macroblocks change.
pub open spec fn mb_frame(a: Macroblockd, b: Macroblockd) -> bool {
    a == (Macroblockd {
        qcoeff: a.qcoeff,
        eobs: a.eobs,
        dequant_y1: a.dequant_y1,
        dequant_y1_dc: a.dequant_y1_dc,
        dequant_y2: a.dequant_y2,
        dequant_uv: a.dequant_uv,
        corrupted: a.corrupted,
        ..b
    })
}

/// What holds between two macroblocks.
pub open spec fn rows_inv(
    fp: FrameParams<'_>,
    readers: Seq<BoolDecoder<'_>>,
    above: Seq<EntropyContextPlanes>,
    left: EntropyContextPlanes,
    mb: Macroblockd,
    mip: Grid<ModeInfo>,
    dst: FramePlanes,
) -> bool {
    &&& fp.ok()
    &&& readers_ok(readers)
    &&& readers.len() >= fp.num_part
    &&& above.len() >= fp.cols
    &&& contexts_ok(above)
    &&& left.ok()
    &&& mask_ok(mb.fullpixel_mask)
    &&& grid_holds(mip, fp.rows as int, fp.cols as int)
    &&& cells_ok(mip@)
    &&& reach_ok(mip@, fp.rows as int, fp.cols as int, fp.rows as int, 0)
    &&& dst.holds(fp.rows as int, fp.cols as int)
}

/// What the decoding works on, as mathematical values.
pub open spec fn rows_view(
    readers: Seq<BoolDecoder<'_>>,
    above: Seq<EntropyContextPlanes>,
    left: EntropyContextPlanes,
    mb: Macroblockd,
    mip: Grid<ModeInfo>,
    dst: FramePlanes,
) -> RowState {
    RowState { ts: reader_states(readers), above, left, mb, g: mip@, d: dst@ }
}

/// Replacing a macroblock's modes by the same ones with another skip flag keeps what holds of
/// all of them.
proof fn lemma_put_keeps(g: ModeGrid, rows: int, cols: int, r: int, c: int, m: ModeInfo)
    requires
        is_rect(g, rows + 1, cols + 1),
        0 <= r < rows,
        0 <= c < cols,
        cells_ok(g),
        reach_ok(g, rows, cols, rows, 0),
        cell_ok(m),
        inter_ok(m, edges_at(r, c, rows, cols)),
    ensures
        cells_ok(put(g, r + 1, c + 1, m)),
        reach_ok(put(g, r + 1, c + 1, m), rows, cols, rows, 0),
{
    let h = put(g, r + 1, c + 1, m);
    assert forall|i: int, j: int| 0 <= i < h.len() && 0 <= j < h[i].len() implies cell_ok(
        #[trigger] h[i][j],
    ) by {
        if !(i == r + 1 && j == c + 1) {
            assert(h[i][j] == g[i][j]);
            assert(h[i].len() == g[i].len());
        }
    }
    assert forall|i: int, j: int|
        1 <= i <= rows && 1 <= j <= cols && (i <= rows || (i == rows + 1 && j <= 0)) implies inter_ok(
        #[trigger] h[i][j],
        edges_at(i - 1, j - 1, rows, cols),
    ) by {
        if !(i == r + 1 && j == c + 1) {
            assert(h[i][j] == g[i][j]);
        }
    }
}

/// Decodes the macroblock in row `r` and column `c`.
fn decode_one(
    fp: &FrameParams<'_>,
    readers: &mut Vec<Vp8Reader<'_>>,
    above: &mut Vec<EntropyContextPlanes>,
    left: &mut EntropyContextPlanes,
    mb: &mut Macroblockd,
    mip: &mut Grid<ModeInfo>,
    dst: &mut FramePlanes,
    r: usize,
    c: usize,
)
    requires
        rows_inv(*fp, old(readers)@, old(above)@, *old(left), *old(mb), *old(mip), *old(dst)),
        r < fp.rows,
        c < fp.cols,
    ensures
        rows_inv(
            *fp,
            final(readers)@,
            final(above)@,
            *final(left),
            *final(mb),
            *final(mip),
            *final(dst),
        ),
        rows_view(
            final(readers)@,
            final(above)@,
            *final(left),
            *final(mb),
            *final(mip),
            *final(dst),
        ) == one_mb(
            rows_view(
                old(readers)@,
                old(above)@,
                *old(left),
                *old(mb),
                *old(mip),
                *old(dst),
            ),
            fp@,
            r as int,
            c as int,
        ),
        mb_frame(*final(mb), *old(mb)),
        final(readers)@.len() == old(readers)@.len(),
        final(above)@.len() == old(above)@.len(),
        final(dst).sized_as(old(dst)),
{
    let ghost s0 = rows_view(readers@, above@, *left, *mb, *mip, *dst);
    proof {
        mip.lemma_rect();
    }
    let mut mi: ModeInfo = mip.get(r + 1, c + 1);
    assert(cell_ok(mip@[r + 1][c + 1]));
    assert(inter_ok(
        mip@[r + 1][c + 1],
        edges_at(r + 1 - 1, c + 1 - 1, fp.rows as int, fp.cols as int),
    ));
    mb.corrupted = mb.corrupted | fp.corrupted[ref_index(mi.mbmi.ref_frame)];
    let p: usize = r % fp.num_part;
    let mut slot: EntropyContextPlanes = above[c];
    assert(readers@[p as int].wf());
    assert(above@[c as int].ok());
    decode_macroblock(
        fp.fc,
        &mut slot,
        left,
        fp.y1_dequant,
        fp.y2_dequant,
        fp.uv_dequant,
        fp.base_qindex,
        mb,
        &mut mi,
        &mut readers[p],
        &fp.refs,
        dst,
        r,
        c,
        fp.rows,
        fp.cols,
    );
    above[c] = slot;
    proof {
        lemma_put_keeps(mip@, fp.rows as int, fp.cols as int, r as int, c as int, mi);
    }
    mip.set(r + 1, c + 1, mi);
    mb.corrupted = mb.corrupted | vp8dx_bool_error(&readers[p]);
    proof {
        let s1 = rows_view(readers@, above@, *left, *mb, *mip, *dst);
        let t = one_mb(s0, fp@, r as int, c as int);
        assert(s1.ts =~= t.ts);
        assert(s1.above =~= t.above);
    }
}

/// Decodes row `r`.
fn decode_row(
    fp: &FrameParams<'_>,
    readers: &mut Vec<Vp8Reader<'_>>,
    above: &mut Vec<EntropyContextPlanes>,
    left: &mut EntropyContextPlanes,
    mb: &mut Macroblockd,
    mip: &mut Grid<ModeInfo>,
    dst: &mut FramePlanes,
    r: usize,
)
    requires
        rows_inv(*fp, old(readers)@, old(above)@, *old(left), *old(mb), *old(mip), *old(dst)),
        r < fp.rows,
    ensures
        rows_inv(
            *fp,
            final(readers)@,
            final(above)@,
            *final(left),
            *final(mb),
            *final(mip),
            *final(dst),
        ),
        rows_view(
            final(readers)@,
            final(above)@,
            *final(left),
            *final(mb),
            *final(mip),
            *final(dst),
        ) == one_row(
            rows_view(
                old(readers)@,
                old(above)@,
                *old(left),
                *old(mb),
                *old(mip),
                *old(dst),
            ),
            fp@,
            r as int,
        ),
        mb_frame(*final(mb), *old(mb)),
        final(readers)@.len() == old(readers)@.len(),
        final(above)@.len() == old(above)@.len(),
        final(dst).sized_as(old(dst)),
        forall|k: int|
            0 <= k < final(readers)@.len() && (k >= fp.num_part || (r - k) % (fp.num_part as int)
                != 0) ==> (#[trigger] final(readers)@[k])@ == old(readers)@[k]@,
{
    proof {
        reveal(one_row);
    }
    let ghost s0 = rows_view(readers@, above@, *left, *mb, *mip, *dst);
    *left = EntropyContextPlanes::default();
    setup_intra_recon_left(dst, r, fp.rows, fp.cols);
    let ghost s1 = rows_view(readers@, above@, *left, *mb, *mip, *dst);
    let mut c: usize = 0;
    while c < fp.cols
        invariant
            c <= fp.cols,
            r < fp.rows,
            rows_inv(*fp, readers@, above@, *left, *mb, *mip, *dst),
            rows_view(readers@, above@, *left, *mb, *mip, *dst) == row_mbs(
                s1,
                fp@,
                r as int,
                c as int,
            ),
            mb_frame(*mb, *old(mb)),
            readers@.len() == old(readers)@.len(),
            above@.len() == old(above)@.len(),
            dst.sized_as(old(dst)),
        decreases fp.cols - c,
    {
        decode_one(fp, readers, above, left, mb, mip, dst, r, c);
        c += 1;
    }
    vp8_extend_mb_row(dst, r, fp.rows, fp.cols);
    proof {
        let n = fp.num_part as int;
        let k0 = r as int % n;
        let ts0 = reader_states(old(readers)@);
        let ts1 = reader_states(readers@);
        vstd::arithmetic::div_mod::lemma_fundamental_div_mod(r as int, n);
        let m = r as int / n;
        assert(n * m == m * n) by (nonlinear_arith);
        law_row_moves_one_reader(s0, fp@, r as int, k0, m);
        assert forall|k: int|
            0 <= k < readers@.len() && (k >= n || (r - k) % n != 0) implies (
        #[trigger] readers@[k])@ == old(readers)@[k]@ by {
            if k == k0 {
                vstd::arithmetic::div_mod::lemma_mod_multiples_vanish(r as int / n, 0, n);
                assert(r - k == n * (r as int / n) + 0);
            }
            assert(ts1[k] == ts0[k]);
        }
    }
}

/// Every macroblock belongs to a segment.
proof fn lemma_segments(g: ModeGrid)
    requires
        cells_ok(g),
    ensures
        segments_ok(g),
{
    assert forall|r: int, c: int| 0 <= r < g.len() && 0 <= c < g[r].len() implies (
    #[trigger] g[r][c]).mbmi.segment_id < 4 by {
        assert(cell_ok(g[r][c]));
    }
}

/// Filters row `r`.
fn filter_one_row(fp: &FrameParams<'_>, mip: &Grid<ModeInfo>, dst: &mut FramePlanes, r: usize)
    requires
        fp.ok(),
        grid_holds(*mip, fp.rows as int, fp.cols as int),
        cells_ok(mip@),
        old(dst).holds(fp.rows as int, fp.cols as int),
        r < fp.rows,
    ensures
        final(dst)@ == filter_row(fp@, mip@, old(dst)@, r as int),
        final(dst).sized_as(old(dst)),
{
    proof {
        lemma_segments(mip@);
    }
    if fp.filter_type == LoopFilterType::Normal {
        vp8_loop_filter_row_normal(fp.lf_info, fp.frame_type, mip, r, fp.rows, fp.cols, dst);
    } else {
        vp8_loop_filter_row_simple(fp.lf_info, mip, r, fp.rows, fp.cols, dst);
    }
}

/// Does what follows the decoding of row `r`.
fn finish_row(fp: &FrameParams<'_>, mip: &Grid<ModeInfo>, dst: &mut FramePlanes, r: usize)
    requires
        fp.ok(),
        grid_holds(*mip, fp.rows as int, fp.cols as int),
        cells_ok(mip@),
        old(dst).holds(fp.rows as int, fp.cols as int),
        r < fp.rows,
    ensures
        final(dst)@ == after_row(fp@, mip@, old(dst)@, r as int),
        final(dst).sized_as(old(dst)),
{
    proof {
        reveal(after_row);
    }
    if r == 0 {
        return ;
    }
    if fp.filter_level != 0 {
        filter_one_row(fp, mip, dst, r - 1);
        if r > 1 {
            yv12_extend_frame_left_right_c(dst, r - 2, fp.rows, fp.cols);
        }
    } else {
        yv12_extend_frame_left_right_c(dst, r - 1, fp.rows, fp.cols);
    }
}

/// Does what follows the last row.
fn finish_rows(fp: &FrameParams<'_>, mip: &Grid<ModeInfo>, dst: &mut FramePlanes)
    requires
        fp.ok(),
        grid_holds(*mip, fp.rows as int, fp.cols as int),
        cells_ok(mip@),
        old(dst).holds(fp.rows as int, fp.cols as int),
    ensures
        final(dst)@ == after_rows(fp@, mip@, old(dst)@),
        final(dst).sized_as(old(dst)),
{
    proof {
        reveal(after_rows);
    }
    if fp.filter_level != 0 {
        filter_one_row(fp, mip, dst, fp.rows - 1);
        let k: usize = if fp.rows >= 2 {
            fp.rows - 2
        } else {
            0
        };
        yv12_extend_frame_left_right_c(dst, k, fp.rows, fp.cols);
        yv12_extend_frame_left_right_c(dst, k + 1, fp.rows, fp.cols);
    } else {
        yv12_extend_frame_left_right_c(dst, fp.rows - 1, fp.rows, fp.cols);
    }
    yv12_extend_frame_top_c(dst, fp.rows, fp.cols);
    yv12_extend_frame_bottom_c(dst, fp.rows, fp.cols);
}

/// Decodes all macroblocks of a frame.
pub fn decode_rows(
    fp: &FrameParams<'_>,
    readers: &mut Vec<Vp8Reader<'_>>,
    above: &mut Vec<EntropyContextPlanes>,
    left: &mut EntropyContextPlanes,
    mb: &mut Macroblockd,
    mip: &mut Grid<ModeInfo>,
    dst: &mut FramePlanes,
)
    requires
        rows_inv(*fp, old(readers)@, old(above)@, *old(left), *old(mb), *old(mip), *old(dst)),
    ensures
        rows_inv(
            *fp,
            final(readers)@,
            final(above)@,
            *final(left),
            *final(mb),
            *final(mip),
            *final(dst),
        ),
        rows_view(
            final(readers)@,
            final(above)@,
            *final(left),
            *final(mb),
            *final(mip),
            *final(dst),
        ) == frame_rows(
            rows_view(
                old(readers)@,
                old(above)@,
                *old(left),
                *old(mb),
                *old(mip),
                *old(dst),
            ),
            fp@,
        ),
        mb_frame(*final(mb), *old(mb)),
        final(above)@.len() == old(above)@.len(),
        final(dst).sized_as(old(dst)),
{
    proof {
        reveal(frame_rows);
    }
    vp8_setup_intra_recon_top_line(dst, fp.rows, fp.cols);
    let ghost s1 = rows_view(readers@, above@, *left, *mb, *mip, *dst);
    let mut r: usize = 0;
    while r < fp.rows
        invariant
            r <= fp.rows,
            rows_inv(*fp, readers@, above@, *left, *mb, *mip, *dst),
            rows_view(readers@, above@, *left, *mb, *mip, *dst) == all_rows(s1, fp@, r as int),
            mb_frame(*mb, *old(mb)),
            above@.len() == old(above)@.len(),
            dst.sized_as(old(dst)),
        decreases fp.rows - r,
    {
        decode_row(fp, readers, above, left, mb, mip, dst, r);
        finish_row(fp, mip, dst, r);
        r += 1;
    }
    finish_rows(fp, mip, dst);
}

/// What decoding a macroblock of row `r` does to the readers: it moves on number `k`, where `r`
/// is `k` and a multiple of the number of partitions, and no other one.
proof fn lemma_one_reader(s: RowState, f: FrameEnv, r: int, c: int, k: int, m: int)
    requires
        0 <= k < f.parts <= s.ts.len(),
        0 <= m,
        r == k + m * f.parts,
    ensures
        one_mb(s, f, r, c).ts.len() == s.ts.len(),
        forall|j: int| 0 <= j < s.ts.len() && j != k ==> #[trigger] one_mb(s, f, r, c).ts[j] == s.ts[j],
{
    lemma_row_part(r, f.parts, k, m);
}

proof fn lemma_row_part(r: int, n: int, k: int, m: int)
    requires
        0 <= k < n,
        0 <= m,
        r == k + m * n,
    ensures
        r % n == k,
{
    vstd::arithmetic::div_mod::lemma_fundamental_div_mod_converse(r, n, m, k);
}

/// `t` is `s` with other readers, but for number `k`.
pub open spec fn other_readers(s: RowState, t: RowState, k: int) -> bool {
    &&& t == (RowState { ts: t.ts, ..s })
    &&& t.ts.len() == s.ts.len()
    &&& t.ts[k] == s.ts[k]
}

proof fn lemma_row_readers(
    s: RowState,
    t: RowState,
    f: FrameEnv,
    r: int,
    n: int,
    k: int,
    m: int,
)
    requires
        0 <= k < f.parts <= s.ts.len(),
        0 <= m,
        r == k + m * f.parts,
        other_readers(s, t, k),
    ensures
        row_mbs(s, f, r, n).ts.len() == s.ts.len(),
        forall|j: int|
            0 <= j < s.ts.len() && j != k ==> #[trigger] row_mbs(s, f, r, n).ts[j] == s.ts[j],
        other_readers(row_mbs(s, f, r, n), row_mbs(t, f, r, n), k),
    decreases n,
{
    if n > 0 {
        lemma_row_readers(s, t, f, r, n - 1, k, m);
        lemma_one_reader(row_mbs(s, f, r, n - 1), f, r, n - 1, k, m);
        lemma_row_part(r, f.parts, k, m);
    }
}

/// The token partitions take turns: with `n` of them the coefficients of row `r` come from
/// partition `k` where `r` and `k` differ by a multiple of `n`, so that rows `r` and `r + n` share
/// one. Decoding the row moves on this reader and no other.
pub proof fn law_row_moves_one_reader(s: RowState, f: FrameEnv, r: int, k: int, m: int)
    requires
        0 <= k < f.parts <= s.ts.len(),
        0 <= m,
        r == k + m * f.parts,
    ensures
        one_row(s, f, r).ts.len() == s.ts.len(),
        forall|j: int|
            0 <= j < s.ts.len() && j != k ==> #[trigger] one_row(s, f, r).ts[j] == s.ts[j],
{
    reveal(one_row);
    let s1 = RowState { left: no_context(), d: left_lines(s.d, r), ..s };
    lemma_row_readers(s1, s1, f, r, f.cols, k, m);
}

/// What becomes of a row depends on one reader only: where two states agree in reader `k` of `n`,
/// and `r` differs from `k` by a multiple of `n`, row `r` comes out the same, whatever the other
/// partitions hold.
pub proof fn law_row_reads_one_partition(
    s: RowState,
    t: RowState,
    f: FrameEnv,
    r: int,
    k: int,
    m: int,
)
    requires
        0 <= k < f.parts <= s.ts.len(),
        0 <= m,
        r == k + m * f.parts,
        other_readers(s, t, k),
    ensures
        other_readers(one_row(s, f, r), one_row(t, f, r), k),
{
    reveal(one_row);
    let s1 = RowState { left: no_context(), d: left_lines(s.d, r), ..s };
    let t1 = RowState { left: no_context(), d: left_lines(t.d, r), ..t };
    lemma_row_readers(s1, t1, f, r, f.cols, k, m);
}

/// The number of partitions says only which reader a row has: row `r` of a frame with `f.parts`
/// partitions comes out as it does in a frame with a single partition that holds what reader `k`
/// holds, where `r` and `k` differ by a multiple of `f.parts`.
pub proof fn law_row_as_with_one_partition(
    s: RowState,
    t: RowState,
    f: FrameEnv,
    r: int,
    k: int,
    m: int,
)
    requires
        0 <= k < f.parts <= s.ts.len(),
        0 <= m,
        0 <= r,
        r == k + m * f.parts,
        t == (RowState { ts: seq![s.ts[k]], ..s }),
    ensures
        ({
            let x = one_row(s, f, r);
            let y = one_row(t, FrameEnv { parts: 1, ..f }, r);
            x == (RowState { ts: x.ts, ..y }) && x.ts[k] == y.ts[0]
        }),
{
    reveal(one_row);
    let s1 = RowState { left: no_context(), d: left_lines(s.d, r), ..s };
    let t1 = RowState { left: no_context(), d: left_lines(t.d, r), ..t };
    lemma_row_one_partition(s1, t1, f, r, f.cols, k, m);
}

proof fn lemma_row_one_partition(
    s: RowState,
    t: RowState,
    f: FrameEnv,
    r: int,
    n: int,
    k: int,
    m: int,
)
    requires
        0 <= k < f.parts <= s.ts.len(),
        0 <= m,
        0 <= r,
        r == k + m * f.parts,
        t == (RowState { ts: t.ts, ..s }),
        t.ts.len() == 1,
        t.ts[0] == s.ts[k],
    ensures
        ({
            let x = row_mbs(s, f, r, n);
            let y = row_mbs(t, FrameEnv { parts: 1, ..f }, r, n);
            &&& x == (RowState { ts: x.ts, ..y })
            &&& x.ts[k] == y.ts[0]
            &&& x.ts.len() == s.ts.len()
            &&& y.ts.len() == 1
        }),
    decreases n,
{
    if n > 0 {
        lemma_row_one_partition(s, t, f, r, n - 1, k, m);
        lemma_row_part(r, f.parts, k, m);
        lemma_row_part(r, 1, 0, r);
    }
}

/// Where the loop filter is used, it runs over every row exactly once, the row before the last
/// one decoded first, and over the last row at the end; where it is not used, no pixel of any row
/// is filtered. Nothing but the frame's level decides which.
pub proof fn law_filter_follows_rows(f: FrameEnv, g: ModeGrid, d: Yuv, r: int)
    ensures
        after_row(f, g, d, 0) == d,
        f.level != 0 ==> after_row(f, g, d, 1) == filter_row(f, g, d, 0),
        f.level != 0 && r > 1 ==> after_row(f, g, d, r) == extend_left_right(
            filter_row(f, g, d, r - 1),
            r - 2,
            f.cols,
        ),
        f.level == 0 && r > 0 ==> after_row(f, g, d, r) == extend_left_right(d, r - 1, f.cols),
        f.level != 0 && f.rows >= 2 ==> after_rows(f, g, d) == extend_bottom(
            extend_top(
                extend_left_right(
                    extend_left_right(filter_row(f, g, d, f.rows - 1), f.rows - 2, f.cols),
                    f.rows - 1,
                    f.cols,
                ),
            ),
            f.rows,
        ),
        f.level == 0 ==> after_rows(f, g, d) == extend_bottom(
            extend_top(extend_left_right(d, f.rows - 1, f.cols)),
            f.rows,
        ),
{
    reveal(after_row);
    reveal(after_rows);
}

proof fn lemma_or(a: i32, b: i32)
    ensures
        (a | b) == 0 <==> a == 0 && b == 0,
{
    assert((a | b) == 0 <==> a == 0 && b == 0) by (bit_vector);
}

proof fn lemma_decode_corrupted(
    s: MbState,
    env: MbEnv,
    refs: RefPics,
    r: int,
    c: int,
    rows: int,
    cols: int,
)
    ensures
        mb_decode(s, env, refs, r, c, rows, cols).mb.corrupted == s.mb.corrupted,
{
    reveal(mb_decode);
    reveal(mb_tokens);
    reveal(mb_intra);
    reveal(mb_residual);
}

/// A frame counts as wrong from the first macroblock on that is predicted from a reference frame
/// that counts as wrong, or whose reader has gone past the end of its data, and never ceases to do
/// so. Otherwise it counts as right.
pub proof fn law_wrong_spreads(s: RowState, f: FrameEnv, r: int, c: int, k: int, m: int)
    requires
        0 <= k < f.parts <= s.ts.len(),
        0 <= m,
        r == k + m * f.parts,
    ensures
        ({
            let u = one_mb(s, f, r, c);
            let mi = s.g[r + 1][c + 1];
            u.mb.corrupted == 0 <==> {
                &&& s.mb.corrupted == 0
                &&& !overrun(u.ts[k])
                &&& match mi.mbmi.ref_frame {
                    MvReferenceFrame::Intra => f.corrupted[0] == 0,
                    MvReferenceFrame::Last => f.corrupted[1] == 0,
                    MvReferenceFrame::Golden => f.corrupted[2] == 0,
                    MvReferenceFrame::Altref => f.corrupted[3] == 0,
                }
            }
        }),
{
    lemma_row_part(r, f.parts, k, m);
    let mi = s.g[r + 1][c + 1];
    let x = f.corrupted[ref_number(mi.mbmi.ref_frame)];
    let st = MbState {
        t: s.ts[k],
        above: s.above[c],
        left: s.left,
        mb: Macroblockd { corrupted: s.mb.corrupted | x, ..s.mb },
        mi,
        d: s.d,
    };
    lemma_decode_corrupted(st, f.env, f.refs, r, c, f.rows, f.cols);
    let t = mb_decode(st, f.env, f.refs, r, c, f.rows, f.cols).t;
    lemma_or(s.mb.corrupted, x);
    lemma_or(s.mb.corrupted | x, error_flag(t));
}

/// A macroblock has to do with its own column of contexts above and with its own modes only: the
/// contexts above other columns, and the modes of other macroblocks, stay as they are.
pub proof fn law_macroblock_keeps_others(s: RowState, f: FrameEnv, r: int, c: int, i: int, j: int)
    requires
        0 <= c < s.above.len(),
        is_rect(s.g, f.rows + 1, f.cols + 1),
        0 <= r < f.rows,
        c < f.cols,
        0 <= i <= f.rows,
        0 <= j <= f.cols,
    ensures
        ({
            let u = one_mb(s, f, r, c);
            &&& u.above.len() == s.above.len()
            &&& j < s.above.len() && j != c ==> u.above[j] == s.above[j]
            &&& i != r + 1 || j != c + 1 ==> u.g[i][j] == s.g[i][j]
        }),
{
    assert(s.g[r + 1].len() == f.cols + 1);
}

} // verus!
