//! A fixed-size grid addressed by (row, column), stored row by row.
use vstd::prelude::*;

verus! {

/// `g` has exactly `rows` rows of `cols` entries each.
pub open spec fn is_grid<T>(g: Seq<Seq<T>>, rows: int, cols: int) -> bool {
    &&& g.len() == rows
    &&& forall|r: int| 0 <= r < rows ==> (#[trigger] g[r]).len() == cols
}

/// `g` with the entry at (`r`, `c`) replaced by `v`.
pub open spec fn grid_update<T>(g: Seq<Seq<T>>, r: int, c: int, v: T) -> Seq<Seq<T>> {
    g.update(r, g[r].update(c, v))
}

/// A grid whose every entry is `fill`.
pub open spec fn grid_filled<T>(rows: int, cols: int, fill: T) -> Seq<Seq<T>> {
    Seq::new(rows as nat, |r: int| Seq::new(cols as nat, |c: int| fill))
}

/// The slot of (`r`, `c`) in row-major storage with `cols` entries per row.
pub open spec fn slot(r: int, c: int, cols: int) -> int {
    r * cols + c
}

/// The slot of a cell of the grid lies inside the storage.
pub proof fn lemma_slot_in_bounds(r: int, c: int, rows: int, cols: int)
    requires
        0 <= r < rows,
        0 <= c < cols,
    ensures
        0 <= r * cols <= slot(r, c, cols) < rows * cols,
{
    assert(r * cols >= 0) by (nonlinear_arith)
        requires
            r >= 0,
            cols >= 0,
    ;
    assert((r + 1) * cols <= rows * cols) by (nonlinear_arith)
        requires
            r + 1 <= rows,
            cols >= 0,
    ;
    assert((r + 1) * cols == r * cols + cols) by (nonlinear_arith);
}

/// Two cells that share a slot in row-major storage are the same cell.
pub proof fn lemma_slot_injective(r1: int, c1: int, r2: int, c2: int, cols: int)
    requires
        0 <= r1,
        0 <= r2,
        0 <= c1 < cols,
        0 <= c2 < cols,
        slot(r1, c1, cols) == slot(r2, c2, cols),
    ensures
        r1 == r2,
        c1 == c2,
{
    if r1 < r2 {
        assert((r1 + 1) * cols <= r2 * cols) by (nonlinear_arith)
            requires
                r1 + 1 <= r2,
                cols >= 0,
        ;
        assert((r1 + 1) * cols == r1 * cols + cols) by (nonlinear_arith);
    } else if r2 < r1 {
        assert((r2 + 1) * cols <= r1 * cols) by (nonlinear_arith)
            requires
                r2 + 1 <= r1,
                cols >= 0,
        ;
        assert((r2 + 1) * cols == r2 * cols + cols) by (nonlinear_arith);
    }
}

/// A `rows` by `cols` grid of `T`, sized once at construction.
pub struct Grid<T> {
    n_rows: usize,
    n_cols: usize,
    cells: Vec<T>,
}

impl<T> View for Grid<T> {
    type V = Seq<Seq<T>>;

    closed spec fn view(&self) -> Seq<Seq<T>> {
        Seq::new(
            self.n_rows as nat,
            |r: int| Seq::new(self.n_cols as nat, |c: int| self.cells@[slot(r, c, self.n_cols as int)]),
        )
    }
}

impl<T: Copy> Grid<T> {
    /// Number of rows.
    pub closed spec fn rows(&self) -> int {
        self.n_rows as int
    }

    /// Number of columns.
    pub closed spec fn cols(&self) -> int {
        self.n_cols as int
    }

    /// The storage holds exactly one entry per cell.
    pub closed spec fn wf(&self) -> bool {
        &&& self.n_rows * self.n_cols <= usize::MAX
        &&& self.cells@.len() == self.n_rows * self.n_cols
    }

    /// The view of a grid has the grid's shape.
    pub proof fn lemma_shape(&self)
        ensures
            is_grid(self@, self.rows(), self.cols()),
    {
    }

    /// Builds a grid with every entry set to `fill`.
    pub fn new(rows: usize, cols: usize, fill: T) -> (g: Self)
        requires
            rows * cols <= usize::MAX,
        ensures
            g.wf(),
            g.rows() == rows,
            g.cols() == cols,
            g@ == grid_filled(rows as int, cols as int, fill),
    {
        let total: usize = rows * cols;
        let mut cells: Vec<T> = Vec::new();
        let mut k: usize = 0;
        while k < total
            invariant
                k <= total,
                cells@.len() == k,
                forall|j: int| 0 <= j < k ==> cells@[j] == fill,
            decreases total - k,
        {
            cells.push(fill);
            k = k + 1;
        }
        let g = Grid { n_rows: rows, n_cols: cols, cells };
        proof {
            assert forall|r: int, c: int| 0 <= r < rows && 0 <= c < cols implies g.cells@[#[trigger] slot(
                r,
                c,
                cols as int,
            )] == fill by {
                lemma_slot_in_bounds(r, c, rows as int, cols as int);
            }
            assert(g@ =~~= grid_filled(rows as int, cols as int, fill));
        }
        g
    }

    /// Number of rows.
    pub fn row_count(&self) -> (n: usize)
        ensures
            n == self.rows(),
    {
        self.n_rows
    }

    /// Number of columns.
    pub fn col_count(&self) -> (n: usize)
        ensures
            n == self.cols(),
    {
        self.n_cols
    }

    /// Reads the entry at (`r`, `c`).
    pub fn get(&self, r: usize, c: usize) -> (v: T)
        requires
            self.wf(),
            r < self.rows(),
            c < self.cols(),
        ensures
            v == self@[r as int][c as int],
    {
        proof {
            lemma_slot_in_bounds(r as int, c as int, self.n_rows as int, self.n_cols as int);
        }
        self.cells[r * self.n_cols + c]
    }

    /// Replaces the entry at (`r`, `c`) and leaves every other entry alone.
    pub fn set(&mut self, r: usize, c: usize, v: T)
        requires
            old(self).wf(),
            r < old(self).rows(),
            c < old(self).cols(),
        ensures
            final(self).wf(),
            final(self).rows() == old(self).rows(),
            final(self).cols() == old(self).cols(),
            final(self)@ == grid_update(old(self)@, r as int, c as int, v),
    {
        proof {
            lemma_slot_in_bounds(r as int, c as int, self.n_rows as int, self.n_cols as int);
        }
        let at: usize = r * self.n_cols + c;
        self.cells.set(at, v);
        proof {
            let cols = self.n_cols as int;
            assert forall|r2: int, c2: int|
                0 <= r2 < self.n_rows && 0 <= c2 < cols && !(r2 == r && c2 == c) implies #[trigger] slot(
                r2,
                c2,
                cols,
            ) != at by {
                if slot(r2, c2, cols) == at {
                    lemma_slot_injective(r2, c2, r as int, c as int, cols);
                }
            }
            let target = grid_update(old(self)@, r as int, c as int, v);
            assert forall|r2: int| 0 <= r2 < self.n_rows implies #[trigger] self@[r2] =~= target[r2] by {
                assert forall|c2: int| 0 <= c2 < cols implies self@[r2][c2] == target[r2][c2] by {
                    lemma_slot_in_bounds(r2, c2, self.n_rows as int, cols);
                    if !(r2 == r && c2 == c) {
                        assert(slot(r2, c2, cols) != at);
                    }
                }
            }
            assert(self@ =~= target);
        }
    }
}

} // verus!
