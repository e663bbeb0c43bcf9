//! A generic dense 2D grid with row-major storage and bounds-checked
//! `(row, col)` addressing.
use vstd::prelude::*;

verus! {

/// Rectangular `num_rows x num_cols` storage over a row-major `Vec`.
///
/// The cell at `(row, col)` lives at linear index `row * num_cols + col`.
/// The shape is fixed for the grid's lifetime.
#[derive(Debug)]
pub struct Minefield<T> {
    pub num_rows: usize,
    pub num_cols: usize,
    pub data: Vec<T>,
}

impl<T> View for Minefield<T> {
    type V = Seq<T>;

    closed spec fn view(&self) -> Seq<T> {
        self.data@
    }
}

impl<T> Minefield<T> {
    /// The storage holds exactly one slot per `(row, col)` address.
    pub open spec fn wf(self) -> bool {
        self@.len() == self.num_rows * self.num_cols
    }

    /// The cell stored at `(row, col)`.
    pub open spec fn cell(self, row: int, col: int) -> T {
        self@[row * self.num_cols + col]
    }
}

/// A row-major address of an in-bounds cell never exceeds the grid size.
pub proof fn lemma_index_in_bounds(row: int, col: int, num_rows: int, num_cols: int)
    requires
        0 <= row < num_rows,
        0 <= col < num_cols,
    ensures
        0 <= row * num_cols + col < num_rows * num_cols,
{
    assert(0 <= row * num_cols + col < num_rows * num_cols) by (nonlinear_arith)
        requires
            0 <= row < num_rows,
            0 <= col < num_cols,
    ;
}

/// Distinct `(row, col)` addresses map to distinct linear indices: row-major
/// addressing never aliases two cells of the grid.
pub proof fn lemma_index_injective(
    r1: int,
    c1: int,
    r2: int,
    c2: int,
    num_rows: int,
    num_cols: int,
)
    requires
        0 <= r1 < num_rows,
        0 <= c1 < num_cols,
        0 <= r2 < num_rows,
        0 <= c2 < num_cols,
        (r1, c1) != (r2, c2),
    ensures
        r1 * num_cols + c1 != r2 * num_cols + c2,
{
    assert(r1 * num_cols + c1 != r2 * num_cols + c2) by (nonlinear_arith)
        requires
            0 <= r1 < num_rows,
            0 <= c1 < num_cols,
            0 <= r2 < num_rows,
            0 <= c2 < num_cols,
            r1 != r2 || c1 != c2,
    ;
}

impl<T: Copy> Minefield<T> {
    /// Allocates a `num_rows x num_cols` grid with every cell set to
    /// `initial_state`.
    pub fn new(num_rows: usize, num_cols: usize, initial_state: T) -> (mf: Minefield<T>)
        requires
            num_rows > 0,
            num_cols > 0,
            num_rows * num_cols <= usize::MAX,
        ensures
            mf.wf(),
            mf.num_rows == num_rows,
            mf.num_cols == num_cols,
            forall|k: int| 0 <= k < mf@.len() ==> mf@[k] == initial_state,
    {
        let n = num_rows * num_cols;
        let mut data: Vec<T> = Vec::new();
        let mut i: usize = 0;
        while i < n
            invariant
                i <= n,
                data@.len() == i,
                forall|k: int| 0 <= k < i ==> data@[k] == initial_state,
            decreases n - i,
        {
            data.push(initial_state);
            i += 1;
        }
        Minefield { num_rows, num_cols, data }
    }

    fn row_col_to_index(&self, row: usize, col: usize) -> (idx: usize)
        requires
            self.wf(),
            row < self.num_rows,
            col < self.num_cols,
        ensures
            idx == row * self.num_cols + col,
            idx < self@.len(),
    {
        let n = self.data.len();
        proof {
            lemma_index_in_bounds(
                row as int,
                col as int,
                self.num_rows as int,
                self.num_cols as int,
            );
            assert(row * self.num_cols + col < n);
        }
        row * self.num_cols + col
    }

    /// Reads the cell at `(row, col)`. Out-of-bounds addresses are a caller
    /// error and are excluded by precondition.
    pub fn get_at(&self, row: usize, col: usize) -> (t: &T)
        requires
            self.wf(),
            row < self.num_rows,
            col < self.num_cols,
        ensures
            *t == self.cell(row as int, col as int),
    {
        let idx = self.row_col_to_index(row, col);
        &self.data[idx]
    }

    /// Borrows the cell at `(row, col)` mutably; writes through the borrow
    /// land at exactly that cell and leave every other cell and the grid's
    /// shape unchanged.
    pub fn get_at_mut(&mut self, row: usize, col: usize) -> (t: &mut T)
        requires
            old(self).wf(),
            row < old(self).num_rows,
            col < old(self).num_cols,
        ensures
            *t == old(self).cell(row as int, col as int),
            final(self).num_rows == old(self).num_rows,
            final(self).num_cols == old(self).num_cols,
            final(self)@ == old(self)@.update(
                row * old(self).num_cols + col,
                *final(t),
            ),
            final(self).wf(),
    {
        let idx = self.row_col_to_index(row, col);
        &mut self.data[idx]
    }
}

} // verus!
