//! The modes of macroblocks by row and column.

use crate::grid::{is_rect, lemma_index_bound, lemma_index_injective, put, put_part};
use crate::types::{FrameBuffers, ModeInfo, Vp8Common, Vp8dComp};
use vstd::prelude::*;

verus! {

impl Vp8Common {
    /// There are modes for row `row` and column `col`; number minus one stands for what lies
    /// above and to the left of the frame.
    pub open spec fn has_mi(&self, row: int, col: int) -> bool {
        &&& -1 <= row
        &&& -1 <= col
        &&& row + 1 < self.mip.spec_rows()
        &&& col + 1 < self.mip.spec_stride()
    }

    /// The modes of the macroblock in row `row` and column `col`.
    pub open spec fn mi_cell(&self, row: int, col: int) -> ModeInfo {
        self.mip@[row + 1][col + 1]
    }

    /// The modes of the macroblocks in row `row`, without what lies to the left of the frame.
    pub open spec fn mi_cells(&self, row: int) -> Seq<ModeInfo> {
        self.mip@[row + 1].subrange(1, self.mb_cols + 1)
    }

    /// The modes of a macroblock.
    pub fn mi(&self, row: i32, col: i32) -> (m: &ModeInfo)
        requires
            self.has_mi(row as int, col as int),
            row < i32::MAX,
            col < i32::MAX,
        ensures
            *m == self.mi_cell(row as int, col as int),
    {
        self.mip.cell((row + 1) as usize, (col + 1) as usize)
    }

    /// The modes of a macroblock, to be changed.
    pub fn mi_mut(&mut self, row: i32, col: i32) -> (m: &mut ModeInfo)
        requires
            old(self).has_mi(row as int, col as int),
            row < i32::MAX,
            col < i32::MAX,
        ensures
            *m == old(self).mi_cell(row as int, col as int),
            final(self).mip@ == put(old(self).mip@, row + 1, col + 1, *final(m)),
            final(self).mip.spec_rows() == old(self).mip.spec_rows(),
            final(self).mip.spec_stride() == old(self).mip.spec_stride(),
            *final(self) == (Vp8Common { mip: final(self).mip, ..*old(self) }),
    {
        self.mip.cell_mut((row + 1) as usize, (col + 1) as usize)
    }

    /// The modes of the macroblock to the left.
    pub fn mi_left(&self, row: i32, col: i32) -> (m: &ModeInfo)
        requires
            self.has_mi(row as int, col - 1),
            row < i32::MAX,
        ensures
            *m == self.mi_cell(row as int, col - 1),
    {
        self.mi(row, col - 1)
    }

    /// The modes of the macroblock above.
    pub fn mi_above(&self, row: i32, col: i32) -> (m: &ModeInfo)
        requires
            self.has_mi(row - 1, col as int),
            col < i32::MAX,
        ensures
            *m == self.mi_cell(row - 1, col as int),
    {
        self.mi(row - 1, col)
    }

    /// The modes of the macroblock above and to the left.
    pub fn mi_above_left(&self, row: i32, col: i32) -> (m: &ModeInfo)
        requires
            self.has_mi(row - 1, col - 1),
        ensures
            *m == self.mi_cell(row - 1, col - 1),
    {
        self.mi(row - 1, col - 1)
    }

    /// The modes of a row of macroblocks.
    pub fn mi_row(&self, row: i32) -> (m: &[ModeInfo])
        requires
            0 <= self.mb_cols < i32::MAX,
            row < i32::MAX,
            self.has_mi(row as int, self.mb_cols - 1),
        ensures
            m@ == self.mi_cells(row as int),
            m@.len() == self.mb_cols,
    {
        proof {
            self.mip.lemma_rect();
        }
        self.mip.part_of_row((row + 1) as usize, 1, self.mb_cols as usize)
    }

    /// The modes of a row of macroblocks, to be changed.
    pub fn mi_row_mut(&mut self, row: i32) -> (m: &mut [ModeInfo])
        requires
            0 <= old(self).mb_cols < i32::MAX,
            row < i32::MAX,
            old(self).has_mi(row as int, old(self).mb_cols - 1),
        ensures
            m@ == old(self).mi_cells(row as int),
            m@.len() == old(self).mb_cols,
            final(m)@.len() == old(self).mb_cols ==> final(self).mip@ == put_part(
                old(self).mip@,
                row + 1,
                1,
                final(m)@,
            ) && final(self).mip.spec_rows() == old(self).mip.spec_rows(),
            final(self).mip.spec_stride() == old(self).mip.spec_stride(),
            *final(self) == (Vp8Common { mip: final(self).mip, ..*old(self) }),
    {
        proof {
            self.mip.lemma_rect();
        }
        self.mip.part_of_row_mut((row + 1) as usize, 1, self.mb_cols as usize)
    }

    /// The modes of a macroblock, to be changed, with those of the macroblocks above, to the left,
    /// and above and to the left, all from modes stored row after row in `slab`.
    pub fn mi_split_neighbors<'a>(slab: &'a mut [ModeInfo], stride: usize, row: i32, col: i32) -> (r: (
        &'a mut ModeInfo,
        &'a ModeInfo,
        &'a ModeInfo,
        &'a ModeInfo,
    ))
        requires
            0 <= row,
            0 <= col,
            stride >= 1,
            (row + 1) * stride + col + 1 < old(slab)@.len(),
        ensures
            *(r.0) == old(slab)@[(row + 1) * stride + col + 1],
            *(r.1) == old(slab)@[row * stride + col + 1],
            *(r.2) == old(slab)@[(row + 1) * stride + col],
            *(r.3) == old(slab)@[row * stride + col],
            final(slab)@ == old(slab)@.update((row + 1) * stride + col + 1, *final(r.0)),
    {
        assert(slab.len() == slab@.len());
        proof {
            assert((row + 1) * stride == row * stride + stride) by (nonlinear_arith);
            assert(row * stride >= 0) by (nonlinear_arith)
                requires
                    row >= 0,
                    stride >= 1,
            ;
        }
        let al: usize = (row as usize) * stride + (col as usize);
        let (before, rest) = slab.split_at_mut(al + stride + 1);
        let cur: &mut ModeInfo = &mut rest[0];
        let aboveleft: &ModeInfo = &before[al];
        let above: &ModeInfo = &before[al + 1];
        let left: &ModeInfo = &before[al + stride];
        (cur, above, left, aboveleft)
    }
}

/// The modes of a row are those of its macroblocks, from the first to the last.
pub proof fn law_mi_row(cm: Vp8Common, row: int)
    requires
        cm.mb_cols >= 0,
        -1 <= row,
        row + 1 < cm.mip@.len(),
        cm.mip@[row + 1].len() == cm.mb_cols + 1,
    ensures
        cm.mi_cells(row).len() == cm.mb_cols,
        forall|c: int|
            0 <= c < cm.mb_cols ==> #[trigger] cm.mi_cells(row)[c] == cm.mi_cell(row, c),
{
}

/// `slab` has the cells of `g` row after row, `stride` in each.
pub open spec fn is_slab(g: Seq<Seq<ModeInfo>>, slab: Seq<ModeInfo>, stride: int) -> bool {
    &&& is_rect(g, g.len() as int, stride)
    &&& slab.len() == g.len() * stride
    &&& forall|r: int, c: int|
        0 <= r < g.len() && 0 <= c < stride ==> #[trigger] g[r][c] == slab[r * stride + c]
}

/// In modes that are stored row after row, a macroblock and its neighbours stand where
/// [`Vp8Common::mi_split_neighbors`] takes them from, and changing the macroblock's changes no
/// other.
pub proof fn law_mi_neighbors(
    cm: Vp8Common,
    slab: Seq<ModeInfo>,
    stride: int,
    row: int,
    col: int,
    v: ModeInfo,
)
    requires
        is_slab(cm.mip@, slab, stride),
        0 <= row,
        0 <= col,
        col + 1 < stride,
        row + 1 < cm.mip@.len(),
    ensures
        slab[(row + 1) * stride + col + 1] == cm.mi_cell(row, col),
        slab[row * stride + col + 1] == cm.mi_cell(row - 1, col),
        slab[(row + 1) * stride + col] == cm.mi_cell(row, col - 1),
        slab[row * stride + col] == cm.mi_cell(row - 1, col - 1),
        is_slab(
            put(cm.mip@, row + 1, col + 1, v),
            slab.update((row + 1) * stride + col + 1, v),
            stride,
        ),
{
    let g = cm.mip@;
    let rows = g.len() as int;
    assert(g[row + 1][col + 1] == slab[(row + 1) * stride + (col + 1)]);
    assert(g[row][col + 1] == slab[row * stride + (col + 1)]);
    assert(g[row + 1][col] == slab[(row + 1) * stride + col]);
    assert(g[row][col] == slab[row * stride + col]);
    lemma_index_bound(row + 1, col + 1, stride, rows);
    let h = put(g, row + 1, col + 1, v);
    let t = slab.update((row + 1) * stride + col + 1, v);
    assert forall|r: int, c: int| 0 <= r < h.len() && 0 <= c < stride implies #[trigger] h[r][c]
        == t[r * stride + c] by {
        lemma_index_bound(r, c, stride, rows);
        assert(g[r].len() == stride);
        assert(g[r][c] == slab[r * stride + c]);
        if r * stride + c == (row + 1) * stride + (col + 1) {
            lemma_index_injective(r, c, row + 1, col + 1, stride);
        }
    }
}

impl FrameBuffers {
    /// The decoder, once it has been created.
    pub fn pbi_ptr(&mut self) -> (p: Option<&mut Vp8dComp>)
        ensures
            p is Some <==> old(self).pbi is Some,
            p matches Some(q) ==> *q == *(old(self).pbi->0),
            p matches Some(q) ==> final(self).pbi is Some,
            p matches Some(q) ==> *(final(self).pbi->0) == *final(q),
            p is None ==> final(self).pbi is None,
    {
        match &mut self.pbi {
            Some(b) => Some(&mut **b),
            None => None,
        }
    }
}

} // verus!
