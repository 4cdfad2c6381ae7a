//! The nine-by-nine grid of assigned cells and its twenty-seven groups.

use vstd::prelude::*;

verus! {

/// The side of a board.
pub const SIDE: usize = 9;

/// The number of cells of a board.
pub const CELLS: usize = 81;

/// Row `i` of a grid given in row-major order.
pub open spec fn row_of<A>(grid: Seq<A>, i: int) -> Seq<A> {
    Seq::new(9, |k: int| grid[9 * i + k])
}

/// Column `j` of a grid given in row-major order.
pub open spec fn column_of<A>(grid: Seq<A>, j: int) -> Seq<A> {
    Seq::new(9, |k: int| grid[9 * k + j])
}

/// The three-by-three square whose top left corner is at `(row, col)`, row by
/// row.
pub open spec fn square_of<A>(grid: Seq<A>, row: int, col: int) -> Seq<A> {
    Seq::new(9, |k: int| grid[9 * (row + k / 3) + col + k % 3])
}

/// The cells of a loaded board: for each position, in row-major order, the
/// row of the witness column that holds its value.
#[derive(Debug)]
pub struct AssignedGrid {
    pub cells: Vec<usize>,
}

impl AssignedGrid {
    /// The grid has exactly eighty-one cells.
    pub open spec fn wf(&self) -> bool {
        self.cells@.len() == 81
    }

    /// The cell at `(row, col)`.
    pub fn get(&self, row: usize, col: usize) -> (cell: usize)
        requires
            self.wf(),
            row < 9,
            col < 9,
        ensures
            cell == self.cells@[row * 9 + col],
    {
        self.cells[row * SIDE + col]
    }

    /// The nine cells of row `i`, left to right.
    pub fn row(&self, i: usize) -> (group: Vec<usize>)
        requires
            self.wf(),
            i < 9,
        ensures
            group@ == row_of(self.cells@, i as int),
    {
        let mut group: Vec<usize> = Vec::new();
        let mut k: usize = 0;
        while k < SIDE
            invariant
                self.wf(),
                i < 9,
                0 <= k <= 9,
                group@.len() == k,
                forall|m: int| 0 <= m < k ==> group@[m] == self.cells@[9 * i + m],
            decreases 9 - k,
        {
            group.push(self.cells[SIDE * i + k]);
            k = k + 1;
        }
        assert(group@ =~= row_of(self.cells@, i as int));
        group
    }

    /// The nine cells of column `j`, top to bottom.
    pub fn column(&self, j: usize) -> (group: Vec<usize>)
        requires
            self.wf(),
            j < 9,
        ensures
            group@ == column_of(self.cells@, j as int),
    {
        let mut group: Vec<usize> = Vec::new();
        let mut k: usize = 0;
        while k < SIDE
            invariant
                self.wf(),
                j < 9,
                0 <= k <= 9,
                group@.len() == k,
                forall|m: int| 0 <= m < k ==> group@[m] == self.cells@[9 * m + j],
            decreases 9 - k,
        {
            group.push(self.cells[SIDE * k + j]);
            k = k + 1;
        }
        assert(group@ =~= column_of(self.cells@, j as int));
        group
    }

    /// The nine cells of the square whose top left corner is at
    /// `(row, col)`, row by row.
    pub fn square(&self, row: usize, col: usize) -> (group: Vec<usize>)
        requires
            self.wf(),
            row <= 6,
            col <= 6,
        ensures
            group@ == square_of(self.cells@, row as int, col as int),
    {
        let mut group: Vec<usize> = Vec::new();
        let mut k: usize = 0;
        while k < SIDE
            invariant
                self.wf(),
                row <= 6,
                col <= 6,
                0 <= k <= 9,
                group@.len() == k,
                forall|m: int|
                    0 <= m < k ==> group@[m] == self.cells@[9 * (row + m / 3) + col + m % 3],
            decreases 9 - k,
        {
            group.push(self.cells[SIDE * (row + k / 3) + col + k % 3]);
            k = k + 1;
        }
        assert(group@ =~= square_of(self.cells@, row as int, col as int));
        group
    }
}

} // verus!
