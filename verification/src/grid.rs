//! Rectangular storage: a vector of cells addressed by row and column.
//!
//! Pixel planes and the macroblock mode grid are both kept in a [`Grid`]. The
//! mathematical picture of a grid is the sequence of its rows, so that no
//! contract elsewhere has to speak of strides and linear offsets.

use vstd::prelude::*;

verus! {

/// A `rows x stride` rectangle of cells, stored row after row.
pub struct Grid<T> {
    data: Vec<T>,
    stride: usize,
    rows: usize,
}

/// The rows of a pixel plane.
pub type Pic = Seq<Seq<u8>>;

/// A plane of pixels.
pub type Plane = Grid<u8>;

/// A linear index lies inside the rectangle exactly where row and column do.
pub proof fn lemma_index_bound(r: int, c: int, stride: int, rows: int)
    requires
        0 <= r < rows,
        0 <= c < stride,
    ensures
        0 <= r * stride + c < rows * stride,
        0 <= r * stride,
{
    assert(r * stride + c < rows * stride) by (nonlinear_arith)
        requires
            0 <= r < rows,
            0 <= c < stride,
    ;
    assert(0 <= r * stride) by (nonlinear_arith)
        requires
            0 <= r,
            0 <= c < stride,
    ;
}

/// Neighbouring cells of a row lie inside the rectangle.
proof fn lemma_part_bound(r: int, c: int, n: int, stride: int, rows: int)
    requires
        0 <= r < rows,
        0 <= c,
        0 <= n,
        c + n <= stride,
    ensures
        0 <= r * stride,
        r * stride + c + n <= rows * stride,
{
    assert(r * stride + c + n <= rows * stride) by (nonlinear_arith)
        requires
            0 <= r < rows,
            c + n <= stride,
            0 <= c + n,
    ;
    assert(0 <= r * stride) by (nonlinear_arith)
        requires
            0 <= r,
            0 <= stride,
    ;
}

/// Two cells share a linear index only if they are the same cell.
pub proof fn lemma_index_injective(r1: int, c1: int, r2: int, c2: int, stride: int)
    requires
        0 <= c1 < stride,
        0 <= c2 < stride,
        r1 * stride + c1 == r2 * stride + c2,
    ensures
        r1 == r2,
        c1 == c2,
{
    assert(r1 == r2) by (nonlinear_arith)
        requires
            0 <= c1 < stride,
            0 <= c2 < stride,
            r1 * stride + c1 == r2 * stride + c2,
    ;
}

/// The cells in rows.
spec fn rows_of<T>(data: Seq<T>, stride: int, rows: int) -> Seq<Seq<T>> {
    Seq::new(rows as nat, |r: int| Seq::new(stride as nat, |c: int| data[r * stride + c]))
}

/// Replacing a cell in the linear order replaces it in its row.
proof fn lemma_rows_put<T>(data: Seq<T>, stride: int, rows: int, r: int, c: int, v: T)
    requires
        data.len() >= rows * stride,
        0 <= r < rows,
        0 <= c < stride,
    ensures
        rows_of(data.update(r * stride + c, v), stride, rows) == put(
            rows_of(data, stride, rows),
            r,
            c,
            v,
        ),
{
    lemma_index_bound(r, c, stride, rows);
    let before = rows_of(data, stride, rows);
    let after = rows_of(data.update(r * stride + c, v), stride, rows);
    assert forall|r2: int| 0 <= r2 < after.len() implies #[trigger] after[r2] =~= put(
        before,
        r,
        c,
        v,
    )[r2] by {
        assert forall|c2: int| 0 <= c2 < stride implies after[r2][c2] == put(before, r, c, v)[r2][c2] by {
            lemma_index_bound(r2, c2, stride, rows);
            if r2 * stride + c2 == r * stride + c {
                lemma_index_injective(r2, c2, r, c, stride);
            }
        }
    }
    assert(after =~= put(before, r, c, v));
}

/// Replacing `n` neighbouring cells of a row in the linear order replaces them in the row.
proof fn lemma_rows_put_part<T>(
    data: Seq<T>,
    stride: int,
    rows: int,
    r: int,
    c: int,
    n: int,
    v: Seq<T>,
)
    requires
        data.len() >= rows * stride,
        0 <= r < rows,
        0 <= c,
        0 <= n,
        c + n <= stride,
    ensures
        v.len() == n ==> ({
            let k = r * stride + c;
            let d = data.subrange(0, k) + (v + data.subrange(k + n, data.len() as int));
            &&& d.len() == data.len()
            &&& rows_of(d, stride, rows) == put_part(rows_of(data, stride, rows), r, c, v)
        }),
{
    lemma_part_bound(r, c, n, stride, rows);
    if v.len() == n {
        let k = r * stride + c;
        let d = data.subrange(0, k) + (v + data.subrange(k + n, data.len() as int));
        let after = rows_of(d, stride, rows);
        let want = put_part(rows_of(data, stride, rows), r, c, v);
        assert forall|r2: int| 0 <= r2 < after.len() implies #[trigger] after[r2] =~= want[r2] by {
            assert forall|c2: int| 0 <= c2 < stride implies after[r2][c2] == want[r2][c2] by {
                lemma_index_bound(r2, c2, stride, rows);
                let i = r2 * stride + c2;
                if k <= i < k + n {
                    lemma_index_injective(r2, c2, r, c + (i - k), stride);
                }
            }
        }
        assert(after =~= want);
    }
}

impl<T> Grid<T> {
    /// There are cells for all rows.
    spec fn full(&self) -> bool {
        self.rows * self.stride <= self.data@.len()
    }

    /// The rows of the grid.
    pub closed spec fn view(&self) -> Seq<Seq<T>> {
        rows_of(self.data@, self.stride as int, self.spec_rows() as int)
    }

    /// The number of rows.
    pub closed spec fn spec_rows(&self) -> usize {
        if self.full() {
            self.rows
        } else {
            0
        }
    }

    /// The number of cells in a row.
    pub closed spec fn spec_stride(&self) -> usize {
        self.stride
    }
}

/// Every row of `p` has `w` cells and there are `h` of them.
pub open spec fn is_rect<T>(p: Seq<Seq<T>>, h: int, w: int) -> bool {
    &&& p.len() == h
    &&& forall|r: int| 0 <= r < h ==> (#[trigger] p[r]).len() == w
}

/// `p` with the cell in row `r` and column `c` replaced by `v`.
pub open spec fn put<T>(p: Seq<Seq<T>>, r: int, c: int, v: T) -> Seq<Seq<T>> {
    p.update(r, p[r].update(c, v))
}

/// `p` with the cells of row `r` from column `c` on replaced by those of `v`.
pub open spec fn put_part<T>(p: Seq<Seq<T>>, r: int, c: int, v: Seq<T>) -> Seq<Seq<T>> {
    p.update(
        r,
        Seq::new(
            p[r].len(),
            |j: int|
                if c <= j < c + v.len() {
                    v[j - c]
                } else {
                    p[r][j]
                },
        ),
    )
}

impl<T: Copy> Grid<T> {
    /// The view of a grid is rectangular.
    pub proof fn lemma_rect(&self)
        ensures
            is_rect(self@, self.spec_rows() as int, self.spec_stride() as int),
    {
    }

    /// The number of rows.
    pub fn rows(&self) -> (n: usize)
        ensures
            n == self.spec_rows(),
            is_rect(self@, self.spec_rows() as int, self.spec_stride() as int),
    {
        match self.rows.checked_mul(self.stride) {
            Some(n) => if n <= self.data.len() {
                self.rows
            } else {
                0
            },
            None => {
                assert(self.data.len() == self.data@.len());
                0
            },
        }
    }

    /// The number of cells in a row.
    pub fn stride(&self) -> (n: usize)
        ensures
            n == self.spec_stride(),
            is_rect(self@, self.spec_rows() as int, self.spec_stride() as int),
    {
        self.stride
    }

    /// A grid of `rows x stride` cells that all hold `v`.
    pub fn filled(rows: usize, stride: usize, v: T) -> (g: Self)
        requires
            rows * stride <= usize::MAX,
        ensures
            g.spec_rows() == rows,
            g.spec_stride() == stride,
            is_rect(g@, rows as int, stride as int),
            forall|r: int, c: int|
                0 <= r < rows && 0 <= c < stride ==> #[trigger] g@[r][c] == v,
    {
        let n: usize = rows * stride;
        let mut data: Vec<T> = Vec::new();
        let mut i: usize = 0;
        while i < n
            invariant
                i <= n,
                data@.len() == i,
                forall|k: int| 0 <= k < i ==> data@[k] == v,
            decreases n - i,
        {
            data.push(v);
            i += 1;
        }
        let g = Grid { data, stride, rows };
        proof {
            assert forall|r: int, c: int| 0 <= r < rows && 0 <= c < stride implies
                #[trigger] g@[r][c] == v by {
                lemma_index_bound(r, c, stride as int, rows as int);
            }
        }
        g
    }

    /// Sets all cells to `v`.
    pub fn fill(&mut self, v: T)
        ensures
            final(self).spec_rows() == old(self).spec_rows(),
            final(self).spec_stride() == old(self).spec_stride(),
            is_rect(final(self)@, old(self).spec_rows() as int, old(self).spec_stride() as int),
            forall|r: int, c: int|
                0 <= r < old(self).spec_rows() && 0 <= c < old(self).spec_stride()
                    ==> #[trigger] final(self)@[r][c] == v,
    {
        let n: usize = self.data.len();
        let mut i: usize = 0;
        while i < n
            invariant
                i <= n,
                n == self.data@.len(),
                n == old(self).data@.len(),
                self.stride == old(self).stride,
                self.rows == old(self).rows,
                forall|k: int| 0 <= k < i ==> self.data@[k] == v,
            decreases n - i,
        {
            self.data[i] = v;
            i += 1;
        }
        proof {
            let rows = self.spec_rows() as int;
            let stride = self.spec_stride() as int;
            assert forall|r: int, c: int| 0 <= r < rows && 0 <= c < stride implies
                #[trigger] self@[r][c] == v by {
                lemma_index_bound(r, c, stride, rows);
            }
        }
    }

    /// A grid with the same cells.
    pub fn copy(&self) -> (g: Self)
        ensures
            g@ == self@,
            g.spec_rows() == self.spec_rows(),
            g.spec_stride() == self.spec_stride(),
    {
        let n: usize = self.data.len();
        let mut data: Vec<T> = Vec::new();
        let mut i: usize = 0;
        while i < n
            invariant
                i <= n,
                n == self.data@.len(),
                data@.len() == i,
                forall|k: int| 0 <= k < i ==> data@[k] == self.data@[k],
            decreases n - i,
        {
            data.push(self.data[i]);
            i += 1;
        }
        assert(data@ =~= self.data@);
        Grid { data, stride: self.stride, rows: self.rows }
    }

    /// An empty grid.
    pub fn empty() -> (g: Self)
        ensures
            g.spec_rows() == 0,
            g.spec_stride() == 0,
            g@ =~= Seq::<Seq<T>>::empty(),
    {
        assert(0 * 0 == 0) by (nonlinear_arith);
        Grid { data: Vec::new(), stride: 0, rows: 0 }
    }

    /// The cell in row `r` and column `c`.
    pub fn get(&self, r: usize, c: usize) -> (v: T)
        requires
            r < self.spec_rows(),
            c < self.spec_stride(),
        ensures
            v == self@[r as int][c as int],
    {
        proof {
            assert(self.data.len() == self.data@.len());
            lemma_index_bound(r as int, c as int, self.stride as int, self.rows as int);
        }
        self.data[r * self.stride + c]
    }

    /// Replaces the cell in row `r` and column `c` by `v`.
    pub fn set(&mut self, r: usize, c: usize, v: T)
        requires
            r < old(self).spec_rows(),
            c < old(self).spec_stride(),
        ensures
            final(self)@ == put(old(self)@, r as int, c as int, v),
            final(self).spec_rows() == old(self).spec_rows(),
            final(self).spec_stride() == old(self).spec_stride(),
    {
        let ghost bdata = self.data@;
        proof {
            assert(self.data.len() == self.data@.len());
            lemma_index_bound(r as int, c as int, self.stride as int, self.rows as int);
        }
        let k: usize = r * self.stride + c;
        self.data[k] = v;
        proof {
            lemma_rows_put(
                bdata,
                self.stride as int,
                self.rows as int,
                r as int,
                c as int,
                v,
            );
        }
    }
}

impl<T> Grid<T> {
    /// A reference to the cell in row `r` and column `c`.
    pub fn cell(&self, r: usize, c: usize) -> (v: &T)
        requires
            r < self.spec_rows(),
            c < self.spec_stride(),
        ensures
            *v == self@[r as int][c as int],
    {
        proof {
            assert(self.data.len() == self.data@.len());
            lemma_index_bound(r as int, c as int, self.stride as int, self.rows as int);
        }
        &self.data[r * self.stride + c]
    }

    /// `n` cells of row `r` from column `c` on.
    pub fn part_of_row(&self, r: usize, c: usize, n: usize) -> (v: &[T])
        requires
            r < self.spec_rows(),
            c + n <= self.spec_stride(),
        ensures
            v@ == self@[r as int].subrange(c as int, c + n),
    {
        proof {
            assert(self.data.len() == self.data@.len());
            lemma_part_bound(r as int, c as int, n as int, self.stride as int, self.rows as int);
        }
        let k: usize = r * self.stride + c;
        let v: &[T] = vstd::slice::slice_subrange(self.data.as_slice(), k, k + n);
        assert(v@ =~= self@[r as int].subrange(c as int, c + n));
        v
    }

    /// The cells from row `r` and column `c` on, row after row with all that lies between, to the
    /// last of `h` rows of `w` cells.
    pub fn window(&self, r: usize, c: usize, h: usize, w: usize) -> (v: &[T])
        requires
            1 <= h,
            1 <= w,
            r + h <= self.spec_rows(),
            c + w <= self.spec_stride(),
        ensures
            v@.len() == (h - 1) * self.spec_stride() + w,
            forall|i: int, j: int|
                #![trigger self@[r + i][c + j]]
                0 <= i < h && 0 <= j < w ==> v@[i * self.spec_stride() + j] == self@[r + i][c + j],
    {
        let ghost stride = self.stride as int;
        proof {
            assert(self.data.len() == self.data@.len());
            lemma_index_bound(r as int, c as int, stride, self.rows as int);
            lemma_index_bound(r + h - 1, c + w - 1, stride, self.rows as int);
            assert((r + h - 1) * stride == r * stride + (h - 1) * stride) by (nonlinear_arith);
            assert((h - 1) * stride >= 0) by (nonlinear_arith)
                requires
                    h >= 1,
                    stride >= 0,
            ;
        }
        let from: usize = r * self.stride + c;
        let len: usize = (h - 1) * self.stride + w;
        let v: &[T] = vstd::slice::slice_subrange(self.data.as_slice(), from, from + len);
        proof {
            assert forall|i: int, j: int|
                #![trigger self@[r + i][c + j]]
                0 <= i < h && 0 <= j < w implies v@[i * stride + j] == self@[r + i][c + j] by {
                assert((r + i) * stride == r * stride + i * stride) by (nonlinear_arith);
                assert(0 <= i * stride <= (h - 1) * stride) by (nonlinear_arith)
                    requires
                        0 <= i <= h - 1,
                        stride >= 0,
                ;
            }
        }
        v
    }

    /// The cell in row `r` and column `c`, to be changed.
    pub fn cell_mut(&mut self, r: usize, c: usize) -> (v: &mut T)
        requires
            r < old(self).spec_rows(),
            c < old(self).spec_stride(),
        ensures
            *v == old(self)@[r as int][c as int],
            final(self)@ == put(old(self)@, r as int, c as int, *final(v)),
            final(self).spec_rows() == old(self).spec_rows(),
            final(self).spec_stride() == old(self).spec_stride(),
    {
        proof {
            assert(self.data.len() == self.data@.len());
            lemma_index_bound(r as int, c as int, self.stride as int, self.rows as int);
        }
        let k: usize = r * self.stride + c;
        let ghost d0 = self.data@;
        let ghost stride = self.stride as int;
        let ghost rows = self.rows as int;
        let v: &mut T = &mut self.data[k];
        proof {
            lemma_rows_put(d0, stride, rows, r as int, c as int, *final(v));
        }
        v
    }

    /// `n` cells of row `r` from column `c` on, to be changed.
    pub fn part_of_row_mut(&mut self, r: usize, c: usize, n: usize) -> (v: &mut [T])
        requires
            r < old(self).spec_rows(),
            c + n <= old(self).spec_stride(),
        ensures
            v@ == old(self)@[r as int].subrange(c as int, c + n),
            final(v)@.len() == n ==> final(self)@ == put_part(
                old(self)@,
                r as int,
                c as int,
                final(v)@,
            ),
            final(v)@.len() == n ==> final(self).spec_rows() == old(self).spec_rows(),
            final(self).spec_stride() == old(self).spec_stride(),
    {
        proof {
            assert(self.data.len() == self.data@.len());
            lemma_part_bound(r as int, c as int, n as int, self.stride as int, self.rows as int);
        }
        let k: usize = r * self.stride + c;
        let ghost d0 = self.data@;
        let ghost stride = self.stride as int;
        let ghost rows = self.rows as int;
        let all: &mut [T] = self.data.as_mut_slice();
        let (before, rest) = all.split_at_mut(k);
        let (v, behind) = rest.split_at_mut(n);
        proof {
            assert(v@ =~= old(self)@[r as int].subrange(c as int, c + n));
            assert(behind@ =~= d0.subrange(k + n, d0.len() as int));
            lemma_rows_put_part(d0, stride, rows, r as int, c as int, n as int, final(v)@);
        }
        v
    }
}

/// A square of working pixels; smaller blocks use its upper left corner.
pub type Block = [[u8; 16]; 16];

/// `p` with the `h x w` rectangle whose upper left cell is `(r0, c0)` replaced: the cell
/// `(r0 + i, c0 + j)` becomes `f(i, j)`.
pub open spec fn blit<T>(
    p: Seq<Seq<T>>,
    r0: int,
    c0: int,
    h: int,
    w: int,
    f: spec_fn(int, int) -> T,
) -> Seq<Seq<T>> {
    Seq::new(
        p.len(),
        |r: int|
            if r0 <= r < r0 + h {
                Seq::new(
                    p[r].len(),
                    |c: int|
                        if c0 <= c < c0 + w {
                            f(r - r0, c - c0)
                        } else {
                            p[r][c]
                        },
                )
            } else {
                p[r]
            },
    )
}

/// Two rectangles written from functions that agree on the rectangle are the same.
pub proof fn lemma_blit_same<T>(
    p: Seq<Seq<T>>,
    r0: int,
    c0: int,
    h: int,
    w: int,
    f: spec_fn(int, int) -> T,
    g: spec_fn(int, int) -> T,
)
    requires
        forall|i: int, j: int| 0 <= i < h && 0 <= j < w ==> #[trigger] f(i, j) == g(i, j),
    ensures
        blit(p, r0, c0, h, w, f) == blit(p, r0, c0, h, w, g),
{
    let a = blit(p, r0, c0, h, w, f);
    let b = blit(p, r0, c0, h, w, g);
    assert forall|r: int| 0 <= r < p.len() implies #[trigger] a[r] =~= b[r] by {
        if r0 <= r < r0 + h {
            assert forall|c: int| 0 <= c < p[r].len() implies a[r][c] == b[r][c] by {
                if c0 <= c < c0 + w {
                    assert(f(r - r0, c - c0) == g(r - r0, c - c0));
                }
            }
        }
    }
    assert(a =~= b);
}

impl Grid<u8> {
    /// Writes the upper left `h x w` corner of `b` with its first pixel at `(r0, c0)`.
    pub fn put_block(&mut self, r0: usize, c0: usize, h: usize, w: usize, b: &Block)
        requires
            h <= 16,
            w <= 16,
            r0 + h <= old(self).spec_rows(),
            c0 + w <= old(self).spec_stride(),
        ensures
            final(self)@ == blit(
                old(self)@,
                r0 as int,
                c0 as int,
                h as int,
                w as int,
                |i: int, j: int| b[i][j],
            ),
            final(self).spec_rows() == old(self).spec_rows(),
            final(self).spec_stride() == old(self).spec_stride(),
    {
        let ghost start = self@;
        let ghost f = |i: int, j: int| b[i][j];
        proof {
            self.lemma_rect();
            assert(blit(start, r0 as int, c0 as int, 0, w as int, f) =~= start);
        }
        let mut i: usize = 0;
        while i < h
            invariant
                i <= h,
                h <= 16,
                w <= 16,
                r0 + h <= self.spec_rows(),
                c0 + w <= self.spec_stride(),
                self.spec_rows() == old(self).spec_rows(),
                self.spec_stride() == old(self).spec_stride(),
                is_rect(start, self.spec_rows() as int, self.spec_stride() as int),
                f == (|i: int, j: int| b[i][j]),
                self@ == blit(start, r0 as int, c0 as int, i as int, w as int, f),
            decreases h - i,
        {
            let mut j: usize = 0;
            let ghost base = self@;
            proof {
                assert(blit(base, r0 + i, c0 as int, 1, 0, |a: int, b: int| f(i + a, b)) =~= base)
                    by {
                    let z = blit(base, r0 + i, c0 as int, 1, 0, |a: int, b: int| f(i + a, b));
                    assert(z[r0 + i] =~= base[r0 + i]);
                }
            }
            while j < w
                invariant
                    j <= w,
                    i < h,
                    h <= 16,
                    w <= 16,
                    r0 + h <= self.spec_rows(),
                    c0 + w <= self.spec_stride(),
                    self.spec_rows() == old(self).spec_rows(),
                    self.spec_stride() == old(self).spec_stride(),
                    is_rect(base, self.spec_rows() as int, self.spec_stride() as int),
                    f == (|i: int, j: int| b[i][j]),
                    self@ == blit(base, r0 + i, c0 as int, 1, j as int, |a: int, b: int| f(i + a, b)),
                decreases w - j,
            {
                self.set(r0 + i, c0 + j, b[i][j]);
                proof {
                    let g = |a: int, b: int| f(i + a, b);
                    let next = blit(base, r0 + i, c0 as int, 1, j + 1, g);
                    assert(self@[r0 + i] =~= next[r0 + i]);
                    assert(self@ =~= next);
                }
                j += 1;
            }
            proof {
                let next = blit(start, r0 as int, c0 as int, i + 1, w as int, f);
                assert forall|r: int| 0 <= r < start.len() implies #[trigger] self@[r] =~= next[r] by {
                }
                assert(self@ =~= next);
            }
            i += 1;
        }
    }
}

/// `p` with the rectangle of [`blit`] written in part: `i` rows of it and `j` cells of the next
/// one.
pub open spec fn blit_part<T>(
    p: Seq<Seq<T>>,
    r0: int,
    c0: int,
    w: int,
    f: spec_fn(int, int) -> T,
    i: int,
    j: int,
) -> Seq<Seq<T>> {
    Seq::new(
        p.len(),
        |r: int|
            Seq::new(
                p[r].len(),
                |c: int|
                    if r0 <= r && c0 <= c < c0 + w && (r < r0 + i || (r == r0 + i && c < c0 + j)) {
                        f(r - r0, c - c0)
                    } else {
                        p[r][c]
                    },
            ),
    )
}

/// Nothing of the rectangle is written at the start.
pub proof fn lemma_part_start<T>(
    p: Seq<Seq<T>>,
    r0: int,
    c0: int,
    w: int,
    f: spec_fn(int, int) -> T,
)
    ensures
        blit_part(p, r0, c0, w, f, 0, 0) == p,
{
    let a = blit_part(p, r0, c0, w, f, 0, 0);
    assert forall|r: int| 0 <= r < p.len() implies #[trigger] a[r] =~= p[r] by {
    }
    assert(a =~= p);
}

/// Writing the next cell.
pub proof fn lemma_part_step<T>(
    p: Seq<Seq<T>>,
    r0: int,
    c0: int,
    w: int,
    f: spec_fn(int, int) -> T,
    i: int,
    j: int,
)
    requires
        0 <= i,
        0 <= j < w,
        0 <= r0,
        0 <= c0,
        r0 + i < p.len(),
        c0 + j < p[r0 + i].len(),
    ensures
        put(blit_part(p, r0, c0, w, f, i, j), r0 + i, c0 + j, f(i, j)) == blit_part(
            p,
            r0,
            c0,
            w,
            f,
            i,
            j + 1,
        ),
{
    let a = put(blit_part(p, r0, c0, w, f, i, j), r0 + i, c0 + j, f(i, j));
    let b = blit_part(p, r0, c0, w, f, i, j + 1);
    assert forall|r: int| 0 <= r < p.len() implies #[trigger] a[r] =~= b[r] by {
    }
    assert(a =~= b);
}

/// A full row leads over to the next one.
pub proof fn lemma_part_row<T>(
    p: Seq<Seq<T>>,
    r0: int,
    c0: int,
    w: int,
    f: spec_fn(int, int) -> T,
    i: int,
)
    ensures
        blit_part(p, r0, c0, w, f, i, w) == blit_part(p, r0, c0, w, f, i + 1, 0),
{
    let a = blit_part(p, r0, c0, w, f, i, w);
    let b = blit_part(p, r0, c0, w, f, i + 1, 0);
    assert forall|r: int| 0 <= r < p.len() implies #[trigger] a[r] =~= b[r] by {
    }
    assert(a =~= b);
}

/// With all rows written the rectangle is complete.
pub proof fn lemma_part_end<T>(
    p: Seq<Seq<T>>,
    r0: int,
    c0: int,
    h: int,
    w: int,
    f: spec_fn(int, int) -> T,
)
    ensures
        blit_part(p, r0, c0, w, f, h, 0) == blit(p, r0, c0, h, w, f),
{
    let a = blit_part(p, r0, c0, w, f, h, 0);
    let b = blit(p, r0, c0, h, w, f);
    assert forall|r: int| 0 <= r < p.len() implies #[trigger] a[r] =~= b[r] by {
    }
    assert(a =~= b);
}

impl Grid<u8> {
    /// Sets the `h x w` rectangle at `(r0, c0)` to `v`.
    pub fn fill_rect(&mut self, r0: usize, c0: usize, h: usize, w: usize, v: u8)
        requires
            r0 + h <= old(self).spec_rows(),
            c0 + w <= old(self).spec_stride(),
        ensures
            final(self)@ == blit(
                old(self)@,
                r0 as int,
                c0 as int,
                h as int,
                w as int,
                |i: int, j: int| v,
            ),
            final(self).spec_rows() == old(self).spec_rows(),
            final(self).spec_stride() == old(self).spec_stride(),
    {
        let ghost p = self@;
        let ghost f = |i: int, j: int| v;
        let ghost (ri, ci, wi) = (r0 as int, c0 as int, w as int);
        proof {
            self.lemma_rect();
            lemma_part_start(p, ri, ci, wi, f);
        }
        let mut i: usize = 0;
        while i < h
            invariant
                i <= h,
                r0 + h <= self.spec_rows(),
                c0 + w <= self.spec_stride(),
                self.spec_rows() == old(self).spec_rows(),
                self.spec_stride() == old(self).spec_stride(),
                is_rect(p, self.spec_rows() as int, self.spec_stride() as int),
                ri == r0,
                ci == c0,
                wi == w,
                f == (|i: int, j: int| v),
                self@ == blit_part(p, ri, ci, wi, f, i as int, 0),
            decreases h - i,
        {
            let mut j: usize = 0;
            while j < w
                invariant
                    i < h,
                    j <= w,
                    r0 + h <= self.spec_rows(),
                    c0 + w <= self.spec_stride(),
                    self.spec_rows() == old(self).spec_rows(),
                    self.spec_stride() == old(self).spec_stride(),
                    is_rect(p, self.spec_rows() as int, self.spec_stride() as int),
                    ri == r0,
                    ci == c0,
                    wi == w,
                    f == (|i: int, j: int| v),
                    self@ == blit_part(p, ri, ci, wi, f, i as int, j as int),
                decreases w - j,
            {
                self.set(r0 + i, c0 + j, v);
                proof {
                    lemma_part_step(p, ri, ci, wi, f, i as int, j as int);
                }
                j += 1;
            }
            proof {
                lemma_part_row(p, ri, ci, wi, f, i as int);
            }
            i += 1;
        }
        proof {
            lemma_part_end(p, ri, ci, h as int, wi, f);
        }
    }

    /// Sets the `h x w` rectangle at `(r0, c0)` to that of `src` at `(sr, sc)`.
    pub fn copy_rect(
        &mut self,
        r0: usize,
        c0: usize,
        h: usize,
        w: usize,
        src: &Grid<u8>,
        sr: usize,
        sc: usize,
    )
        requires
            r0 + h <= old(self).spec_rows(),
            c0 + w <= old(self).spec_stride(),
            sr + h <= src.spec_rows(),
            sc + w <= src.spec_stride(),
        ensures
            final(self)@ == blit(
                old(self)@,
                r0 as int,
                c0 as int,
                h as int,
                w as int,
                |i: int, j: int| src@[sr + i][sc + j],
            ),
            final(self).spec_rows() == old(self).spec_rows(),
            final(self).spec_stride() == old(self).spec_stride(),
    {
        let ghost p = self@;
        let ghost f = |i: int, j: int| src@[sr + i][sc + j];
        let ghost (ri, ci, wi) = (r0 as int, c0 as int, w as int);
        proof {
            self.lemma_rect();
            lemma_part_start(p, ri, ci, wi, f);
        }
        let mut i: usize = 0;
        while i < h
            invariant
                i <= h,
                r0 + h <= self.spec_rows(),
                c0 + w <= self.spec_stride(),
                self.spec_rows() == old(self).spec_rows(),
                self.spec_stride() == old(self).spec_stride(),
                is_rect(p, self.spec_rows() as int, self.spec_stride() as int),
                ri == r0,
                ci == c0,
                wi == w,
                sr + h <= src.spec_rows(),
                sc + w <= src.spec_stride(),
                f == (|i: int, j: int| src@[sr + i][sc + j]),
                self@ == blit_part(p, ri, ci, wi, f, i as int, 0),
            decreases h - i,
        {
            let mut j: usize = 0;
            while j < w
                invariant
                    i < h,
                    j <= w,
                    r0 + h <= self.spec_rows(),
                    c0 + w <= self.spec_stride(),
                    self.spec_rows() == old(self).spec_rows(),
                    self.spec_stride() == old(self).spec_stride(),
                    is_rect(p, self.spec_rows() as int, self.spec_stride() as int),
                    ri == r0,
                    ci == c0,
                    wi == w,
                    sr + h <= src.spec_rows(),
                sc + w <= src.spec_stride(),
                f == (|i: int, j: int| src@[sr + i][sc + j]),
                    self@ == blit_part(p, ri, ci, wi, f, i as int, j as int),
                decreases w - j,
            {
                let v: u8 = src.get(sr + i, sc + j);
                self.set(r0 + i, c0 + j, v);
                proof {
                    lemma_part_step(p, ri, ci, wi, f, i as int, j as int);
                }
                j += 1;
            }
            proof {
                lemma_part_row(p, ri, ci, wi, f, i as int);
            }
            i += 1;
        }
        proof {
            lemma_part_end(p, ri, ci, h as int, wi, f);
        }
    }

    /// Repeats the pixel in column `src_c` of each of the `h` rows from `r0` on in the `w`
    /// columns from `c0` on.
    pub fn spread_column(&mut self, r0: usize, h: usize, src_c: usize, c0: usize, w: usize)
        requires
            r0 + h <= old(self).spec_rows(),
            c0 + w <= old(self).spec_stride(),
            src_c < old(self).spec_stride(),
            src_c < c0 || c0 + w <= src_c,
        ensures
            final(self)@ == blit(
                old(self)@,
                r0 as int,
                c0 as int,
                h as int,
                w as int,
                |i: int, j: int| old(self)@[r0 + i][src_c as int],
            ),
            final(self).spec_rows() == old(self).spec_rows(),
            final(self).spec_stride() == old(self).spec_stride(),
    {
        let ghost p = self@;
        let ghost f = |i: int, j: int| p[r0 + i][src_c as int];
        let ghost (ri, ci, wi) = (r0 as int, c0 as int, w as int);
        proof {
            self.lemma_rect();
            lemma_part_start(p, ri, ci, wi, f);
        }
        let mut i: usize = 0;
        while i < h
            invariant
                i <= h,
                r0 + h <= self.spec_rows(),
                c0 + w <= self.spec_stride(),
                src_c < self.spec_stride(),
                src_c < c0 || c0 + w <= src_c,
                self.spec_rows() == old(self).spec_rows(),
                self.spec_stride() == old(self).spec_stride(),
                is_rect(p, self.spec_rows() as int, self.spec_stride() as int),
                ri == r0,
                ci == c0,
                wi == w,
                f == (|i: int, j: int| p[r0 + i][src_c as int]),
                self@ == blit_part(p, ri, ci, wi, f, i as int, 0),
            decreases h - i,
        {
            let v: u8 = self.get(r0 + i, src_c);
            let mut j: usize = 0;
            while j < w
                invariant
                    i < h,
                    j <= w,
                    r0 + h <= self.spec_rows(),
                    c0 + w <= self.spec_stride(),
                    self.spec_rows() == old(self).spec_rows(),
                    self.spec_stride() == old(self).spec_stride(),
                    is_rect(p, self.spec_rows() as int, self.spec_stride() as int),
                    ri == r0,
                    ci == c0,
                    wi == w,
                    v == p[r0 + i][src_c as int],
                    f == (|i: int, j: int| p[r0 + i][src_c as int]),
                    self@ == blit_part(p, ri, ci, wi, f, i as int, j as int),
                decreases w - j,
            {
                self.set(r0 + i, c0 + j, v);
                proof {
                    lemma_part_step(p, ri, ci, wi, f, i as int, j as int);
                }
                j += 1;
            }
            proof {
                lemma_part_row(p, ri, ci, wi, f, i as int);
            }
            i += 1;
        }
        proof {
            lemma_part_end(p, ri, ci, h as int, wi, f);
        }
    }

    /// Repeats row `src_r` in the `h` rows from `r0` on.
    pub fn spread_row(&mut self, src_r: usize, r0: usize, h: usize)
        requires
            r0 + h <= old(self).spec_rows(),
            src_r < old(self).spec_rows(),
            src_r < r0 || r0 + h <= src_r,
        ensures
            final(self)@ == blit(
                old(self)@,
                r0 as int,
                0,
                h as int,
                old(self).spec_stride() as int,
                |i: int, j: int| old(self)@[src_r as int][j],
            ),
            final(self).spec_rows() == old(self).spec_rows(),
            final(self).spec_stride() == old(self).spec_stride(),
    {
        let w: usize = self.stride();
        let ghost p = self@;
        let ghost f = |i: int, j: int| p[src_r as int][j];
        let ghost (ri, wi) = (r0 as int, w as int);
        proof {
            lemma_part_start(p, ri, 0, wi, f);
        }
        let mut i: usize = 0;
        while i < h
            invariant
                i <= h,
                w == self.spec_stride(),
                r0 + h <= self.spec_rows(),
                src_r < self.spec_rows(),
                src_r < r0 || r0 + h <= src_r,
                self.spec_rows() == old(self).spec_rows(),
                self.spec_stride() == old(self).spec_stride(),
                is_rect(p, self.spec_rows() as int, self.spec_stride() as int),
                ri == r0,
                wi == w,
                f == (|i: int, j: int| p[src_r as int][j]),
                self@ == blit_part(p, ri, 0, wi, f, i as int, 0),
            decreases h - i,
        {
            let mut j: usize = 0;
            while j < w
                invariant
                    i < h,
                    j <= w,
                    w == self.spec_stride(),
                    r0 + h <= self.spec_rows(),
                    src_r < self.spec_rows(),
                    src_r < r0 || r0 + h <= src_r,
                    self.spec_rows() == old(self).spec_rows(),
                    self.spec_stride() == old(self).spec_stride(),
                    is_rect(p, self.spec_rows() as int, self.spec_stride() as int),
                    ri == r0,
                    wi == w,
                    f == (|i: int, j: int| p[src_r as int][j]),
                    self@ == blit_part(p, ri, 0, wi, f, i as int, j as int),
                decreases w - j,
            {
                let v: u8 = self.get(src_r, j);
                assert(v == p[src_r as int][j as int]);
                self.set(r0 + i, j, v);
                proof {
                    lemma_part_step(p, ri, 0, wi, f, i as int, j as int);
                }
                j += 1;
            }
            proof {
                lemma_part_row(p, ri, 0, wi, f, i as int);
            }
            i += 1;
        }
        proof {
            lemma_part_end(p, ri, 0, h as int, wi, f);
        }
    }
}

} // verus!
