//! The Sudoku circuit: its descriptor, and the synthesis that lays a puzzle
//! and a solution out as witness values and constraints.

use vstd::prelude::*;
use itertools::Itertools;
use crate::cells::{AssignedGrid, row_of, column_of, square_of, SIDE, CELLS};
use crate::gate::MAX_SUDOKU_CELL_VALUE;
use crate::grid::{Grid, grid_cells, grid_nrows, grid_ncols};
use crate::acceptance::{accepts, lemma_satisfied_iff_accepted};
use crate::region::{Region, RegionView, ConstraintView, indicator, failures};

verus! {

/// The constant term of a group's sum: the nine cells and it add up to zero,
/// so the cells add up to forty-five.
pub const GROUP_CONSTANT: i64 = -45;

/// Why a circuit could not be synthesized.
#[derive(Clone, Copy, Debug, PartialEq, Eq, Structural)]
pub enum Error {
    /// A board is not nine by nine; `rows` and `cols` are what it has.
    BoardShape { rows: usize, cols: usize },
}

/// Why a circuit was not verified.
#[derive(Debug, PartialEq, Eq)]
pub enum VerifyError {
    /// The circuit could not be built.
    Synthesis(Error),
    /// The circuit was built, and the witness or the public input does not
    /// meet the constraints at these places in the list of constraints.
    Unsatisfied(Vec<usize>),
}

/// The columns of the arithmetic gate that the circuit is built on.
#[derive(Clone, Copy, Debug, PartialEq, Eq)]
pub struct MainGateConfig {
    /// The five advice columns. Values are assigned into the first.
    pub advices: [usize; 5],
}

/// The range-check gate as it is registered: where `selector` is on, the
/// value in `column` on that row is one of `0..range`.
#[derive(Clone, Copy, Debug, PartialEq, Eq, Structural)]
pub struct RangeCheckGate {
    pub selector: usize,
    pub column: usize,
    pub range: usize,
}

impl RangeCheckGate {
    /// The degree of its polynomial.
    pub fn degree(&self) -> (d: usize)
        ensures
            d == self.range,
    {
        self.range
    }
}

/// The part of the circuit that does not depend on the witness: the columns
/// in use, the public input column, and the range-check gate. It is fixed
/// when it is made, and any number of syntheses share it.
#[derive(Debug)]
pub struct SudokuConfig {
    main_gate_config: MainGateConfig,
    public_input_puzzle: usize,
    range_check_selector: usize,
    range_check: RangeCheckGate,
}

/// A descriptor as a mathematical value.
pub struct SudokuConfigView {
    pub advices: Seq<usize>,
    pub public_input_puzzle: usize,
    pub range_check_selector: usize,
    pub range_check: RangeCheckGate,
}

impl View for SudokuConfig {
    type V = SudokuConfigView;

    closed spec fn view(&self) -> SudokuConfigView {
        SudokuConfigView {
            advices: self.main_gate_config.advices@,
            public_input_puzzle: self.public_input_puzzle,
            range_check_selector: self.range_check_selector,
            range_check: self.range_check,
        }
    }
}

impl SudokuConfigView {
    /// The range-check gate watches the column into which values are
    /// assigned, on the rows that its selector marks, with the bound for
    /// Sudoku cells.
    pub open spec fn wf(self) -> bool {
        &&& self.advices.len() == 5
        &&& self.range_check == (RangeCheckGate {
            selector: self.range_check_selector,
            column: self.advices[0],
            range: MAX_SUDOKU_CELL_VALUE,
        })
    }
}

impl SudokuConfig {
    #[verifier::type_invariant]
    spec fn inv(&self) -> bool {
        self@.wf()
    }

    /// Describes the circuit over the columns of an arithmetic gate, an
    /// instance column for the puzzle, and a selector for the range check.
    /// Values go into the first advice column, so that is the
    /// column which the range check watches.
    pub fn new(
        main_gate_config: MainGateConfig,
        public_input_puzzle: usize,
        range_check_selector: usize,
    ) -> (config: SudokuConfig)
        ensures
            config@.wf(),
            config@.advices == main_gate_config.advices@,
            config@.public_input_puzzle == public_input_puzzle,
            config@.range_check_selector == range_check_selector,
    {
        let input_column: usize = main_gate_config.advices[0];
        let range_check = RangeCheckGate {
            selector: range_check_selector,
            column: input_column,
            range: MAX_SUDOKU_CELL_VALUE,
        };
        SudokuConfig { main_gate_config, public_input_puzzle, range_check_selector, range_check }
    }

    /// The columns of the arithmetic gate.
    pub fn main_gate(&self) -> (gate: &MainGateConfig)
        ensures
            gate.advices@ == self@.advices,
    {
        &self.main_gate_config
    }

    /// The instance column that holds the puzzle.
    pub fn public_input_puzzle(&self) -> (column: usize)
        ensures
            column == self@.public_input_puzzle,
    {
        self.public_input_puzzle
    }

    /// The selector that marks the rows to be range-checked.
    pub fn range_check_selector(&self) -> (selector: usize)
        ensures
            selector == self@.range_check_selector,
    {
        self.range_check_selector
    }

    /// The range-check gate as it was registered.
    pub fn range_check(&self) -> (gate: RangeCheckGate)
        ensures
            self@.wf(),
            gate == self@.range_check,
    {
        proof {
            use_type_invariant(self);
        }
        self.range_check
    }
}

/// The pairs of neighbours in `cells`, in order.
pub open spec fn adjacent_pairs(cells: Seq<usize>) -> Seq<(usize, usize)> {
    Seq::new(
        if cells.len() == 0 {
            0
        } else {
            (cells.len() - 1) as nat
        },
        |i: int| (cells[i], cells[i + 1]),
    )
}

/// `Itertools::tuple_windows`, two at a time, collected: each element paired
/// with the one behind it, in order. Fewer than two elements give no pair.
#[verifier::external_body]
fn tuple_windows(cells: &Vec<usize>) -> (pairs: Vec<(usize, usize)>)
    ensures
        pairs@ == adjacent_pairs(cells@),
{
    cells.iter().copied().tuple_windows().collect()
}

/// The region after the range check is enabled for, and a value assigned in,
/// one row for each of `values` in turn.
pub open spec fn loaded(r: RegionView, values: Seq<u8>, range: usize) -> RegionView
    decreases values.len(),
{
    if values.len() == 0 {
        r
    } else {
        let before = loaded(r, values.drop_last(), range);
        before.constrain(
            ConstraintView::Range { cell: before.witness.len() as usize, range },
        ).assign(values.last() as u64)
    }
}

/// The region after each of `pairs`, in turn, is asserted to differ.
pub open spec fn told_apart(r: RegionView, pairs: Seq<(usize, usize)>) -> RegionView
    decreases pairs.len(),
{
    if pairs.len() == 0 {
        r
    } else {
        told_apart(r, pairs.drop_last()).constrain(
            ConstraintView::NotEqual { a: pairs.last().0, b: pairs.last().1 },
        )
    }
}

/// The region after a group is checked: its cells add up to forty-five, and
/// each differs from the next.
pub open spec fn checked(r: RegionView, cells: Seq<usize>) -> RegionView {
    told_apart(
        r.constrain(ConstraintView::ZeroSum { cells, constant: GROUP_CONSTANT }),
        adjacent_pairs(cells),
    )
}

/// Loading adds one row and one constraint for each value.
pub proof fn lemma_loaded_len(r: RegionView, values: Seq<u8>, range: usize)
    ensures
        loaded(r, values, range).witness.len() == r.witness.len() + values.len(),
        loaded(r, values, range).constraints.len() == r.constraints.len() + values.len(),
    decreases values.len(),
{
    if values.len() > 0 {
        lemma_loaded_len(r, values.drop_last(), range);
    }
}

/// The region after a puzzle cell is bound to its solution cell: a cell
/// telling whether the puzzle cell is blank, a cell telling whether the two
/// are equal, and the assertion that one of the two is so.
pub open spec fn bound(r: RegionView, puzzle_cell: usize, solution_cell: usize) -> RegionView {
    let is_zero = r.witness.len() as usize;
    let is_equal = (r.witness.len() + 1) as usize;
    r.assign(indicator(r.witness[puzzle_cell as int] == 0)).constrain(
        ConstraintView::IsZero { a: puzzle_cell, out: is_zero },
    ).assign(
        indicator(r.witness[puzzle_cell as int] == r.witness[solution_cell as int]),
    ).constrain(
        ConstraintView::IsEqual { a: puzzle_cell, b: solution_cell, out: is_equal },
    ).constrain(ConstraintView::OneOrOne { a: is_zero, b: is_equal })
}

/// The region after the first `n` rows and the first `n` columns are
/// checked: row, then column, for each index in turn.
pub open spec fn lines(r: RegionView, solution: Seq<usize>, n: nat) -> RegionView
    decreases n,
{
    if n == 0 {
        r
    } else {
        checked(
            checked(lines(r, solution, (n - 1) as nat), row_of(solution, n - 1)),
            column_of(solution, n - 1),
        )
    }
}

/// The region after the first `n` squares are checked, the squares taken
/// row by row.
pub open spec fn squares(r: RegionView, solution: Seq<usize>, n: nat) -> RegionView
    decreases n,
{
    if n == 0 {
        r
    } else {
        checked(
            squares(r, solution, (n - 1) as nat),
            square_of(solution, 3 * ((n - 1) / 3), 3 * ((n - 1) % 3)),
        )
    }
}

/// The region after the first `n` puzzle cells, in row-major order, are
/// bound to their solution cells.
pub open spec fn binds(r: RegionView, puzzle: Seq<usize>, solution: Seq<usize>, n: nat) -> RegionView
    decreases n,
{
    if n == 0 {
        r
    } else {
        bound(binds(r, puzzle, solution, (n - 1) as nat), puzzle[n - 1], solution[n - 1])
    }
}

/// The region after the first `n` puzzle cells, in row-major order, are
/// bound to the public input slots of the same index.
pub open spec fn published(r: RegionView, puzzle: Seq<usize>, n: nat) -> RegionView
    decreases n,
{
    if n == 0 {
        r
    } else {
        published(r, puzzle, (n - 1) as nat).constrain(
            ConstraintView::Instance { cell: puzzle[n - 1], row: (n - 1) as usize },
        )
    }
}

/// The cells of the puzzle: the first eighty-one rows of the witness column.
pub open spec fn puzzle_cells() -> Seq<usize> {
    Seq::new(81, |k: int| k as usize)
}

/// The cells of the solution: the eighty-one rows behind the puzzle's.
pub open spec fn solution_cells() -> Seq<usize> {
    Seq::new(81, |k: int| (81 + k) as usize)
}

/// The circuit of a puzzle and a solution, each given in row-major order:
/// both boards loaded, the puzzle first; the nine rows and nine columns of
/// the solution checked, then its nine squares; every puzzle cell bound to
/// its solution cell; every puzzle cell bound to its public input slot.
pub open spec fn synthesis(puzzle: Seq<u8>, solution: Seq<u8>, range: usize) -> RegionView {
    let boards = loaded(loaded(RegionView::empty(), puzzle, range), solution, range);
    let groups = squares(lines(boards, solution_cells(), 9), solution_cells(), 9);
    published(binds(groups, puzzle_cells(), solution_cells(), 81), puzzle_cells(), 81)
}

/// Asserting that cells differ assigns nothing.
pub proof fn lemma_told_apart_witness(r: RegionView, pairs: Seq<(usize, usize)>)
    ensures
        told_apart(r, pairs).witness == r.witness,
    decreases pairs.len(),
{
    if pairs.len() > 0 {
        lemma_told_apart_witness(r, pairs.drop_last());
    }
}

/// Checking groups assigns nothing.
pub proof fn lemma_lines_witness(r: RegionView, solution: Seq<usize>, n: nat)
    ensures
        lines(r, solution, n).witness == r.witness,
    decreases n,
{
    if n > 0 {
        let before = lines(r, solution, (n - 1) as nat);
        lemma_lines_witness(r, solution, (n - 1) as nat);
        let row = row_of(solution, n - 1);
        let with_row = checked(before, row);
        lemma_told_apart_witness(
            before.constrain(ConstraintView::ZeroSum { cells: row, constant: GROUP_CONSTANT }),
            adjacent_pairs(row),
        );
        let column = column_of(solution, n - 1);
        lemma_told_apart_witness(
            with_row.constrain(ConstraintView::ZeroSum { cells: column, constant: GROUP_CONSTANT }),
            adjacent_pairs(column),
        );
    }
}

/// Checking squares assigns nothing.
pub proof fn lemma_squares_witness(r: RegionView, solution: Seq<usize>, n: nat)
    ensures
        squares(r, solution, n).witness == r.witness,
    decreases n,
{
    if n > 0 {
        let before = squares(r, solution, (n - 1) as nat);
        lemma_squares_witness(r, solution, (n - 1) as nat);
        let square = square_of(solution, 3 * ((n - 1) / 3), 3 * ((n - 1) % 3));
        lemma_told_apart_witness(
            before.constrain(ConstraintView::ZeroSum { cells: square, constant: GROUP_CONSTANT }),
            adjacent_pairs(square),
        );
    }
}

/// Binding `n` cells assigns two rows for each and leaves the rows before
/// them as they were.
pub proof fn lemma_binds_witness(r: RegionView, puzzle: Seq<usize>, solution: Seq<usize>, n: nat)
    ensures
        binds(r, puzzle, solution, n).witness.len() == r.witness.len() + 2 * n,
        forall|k: int|
            0 <= k < r.witness.len() ==> #[trigger] binds(r, puzzle, solution, n).witness[k]
                == r.witness[k],
    decreases n,
{
    if n > 0 {
        lemma_binds_witness(r, puzzle, solution, (n - 1) as nat);
    }
}

/// A puzzle and a solution to it, to be laid out as a circuit.
#[derive(Debug)]
pub struct SudokuCircuit {
    /// The puzzle, public: digits, and zero for a blank.
    pub puzzle: Grid,
    /// The solution, private to the prover.
    pub solution: Grid,
}

impl SudokuCircuit {
    /// Both boards are nine by nine.
    pub open spec fn well_shaped(&self) -> bool {
        &&& grid_nrows(self.puzzle) == 9
        &&& grid_ncols(self.puzzle) == 9
        &&& grid_nrows(self.solution) == 9
        &&& grid_ncols(self.solution) == 9
    }

    /// The error that names the first board, the puzzle before the
    /// solution, that is not nine by nine.
    pub open spec fn shape_error(&self) -> Error {
        if grid_nrows(self.puzzle) == 9 && grid_ncols(self.puzzle) == 9 {
            Error::BoardShape {
                rows: grid_nrows(self.solution) as usize,
                cols: grid_ncols(self.solution) as usize,
            }
        } else {
            Error::BoardShape {
                rows: grid_nrows(self.puzzle) as usize,
                cols: grid_ncols(self.puzzle) as usize,
            }
        }
    }

    /// A circuit of two boards.
    pub fn new(puzzle: Grid, solution: Grid) -> (circuit: SudokuCircuit)
        ensures
            circuit.puzzle == puzzle,
            circuit.solution == solution,
    {
        SudokuCircuit { puzzle, solution }
    }

    /// The descriptor of the circuit: see [`SudokuConfig::new`].
    pub fn configure(
        main_gate_config: MainGateConfig,
        public_input_puzzle: usize,
        range_check_selector: usize,
    ) -> (config: SudokuConfig)
        ensures
            config@.wf(),
            config@.advices == main_gate_config.advices@,
            config@.public_input_puzzle == public_input_puzzle,
            config@.range_check_selector == range_check_selector,
    {
        SudokuConfig::new(main_gate_config, public_input_puzzle, range_check_selector)
    }

    /// The circuit with nothing in it: both boards empty.
    pub fn without_witnesses(&self) -> (circuit: SudokuCircuit)
        ensures
            grid_nrows(circuit.puzzle) == 0 && grid_ncols(circuit.puzzle) == 0,
            grid_nrows(circuit.solution) == 0 && grid_ncols(circuit.solution) == 0,
            grid_cells(circuit.puzzle) == Seq::<u8>::empty(),
            grid_cells(circuit.solution) == Seq::<u8>::empty(),
    {
        SudokuCircuit { puzzle: Grid::default(), solution: Grid::default() }
    }

    /// Loads a board into the witness column, one row for each cell in
    /// row-major order, with the range check enabled on every row, and
    /// returns the cells. A board that is not nine by nine is refused, and
    /// the region is left as it was.
    pub fn load_board(&self, config: &SudokuConfig, ctx: &mut Region, board: &Grid) -> (r: Result<
        AssignedGrid,
        Error,
    >)
        ensures
            r is Ok <==> grid_nrows(*board) == 9 && grid_ncols(*board) == 9,
            r is Err ==> r->Err_0 == (Error::BoardShape {
                rows: grid_nrows(*board) as usize,
                cols: grid_ncols(*board) as usize,
            }) && final(ctx)@ == old(ctx)@,
            r is Ok ==> final(ctx)@ == loaded(
                old(ctx)@,
                grid_cells(*board),
                MAX_SUDOKU_CELL_VALUE,
            ),
            r is Ok ==> r->Ok_0.wf() && forall|k: int|
                0 <= k < 81 ==> #[trigger] r->Ok_0.cells@[k] == old(ctx)@.witness.len() + k,
    {
        let (rows, cols) = board.dim();
        if rows != SIDE || cols != SIDE {
            return Err(Error::BoardShape { rows, cols });
        }
        let values: Vec<u8> = board.to_vec();
        let range: usize = config.range_check().range;
        assert(values@.len() == 81) by {
            assert(rows * cols == 81) by (nonlinear_arith)
                requires
                    rows == 9,
                    cols == 9,
            ;
        }
        let mut cells: Vec<usize> = Vec::new();
        let mut i: usize = 0;
        while i < CELLS
            invariant
                values@.len() == 81,
                0 <= i <= 81,
                ctx@ == loaded(old(ctx)@, values@.take(i as int), range),
                cells@.len() == i,
                forall|k: int| 0 <= k < i ==> #[trigger] cells@[k] == old(ctx)@.witness.len() + k,
            decreases 81 - i,
        {
            proof {
                assert(values@.take(i + 1).drop_last() =~= values@.take(i as int));
                lemma_loaded_len(old(ctx)@, values@.take(i as int), range);
            }
            ctx.enable_range_check(range);
            let cell: usize = ctx.assign_value(values[i] as u64);
            cells.push(cell);
            i = i + 1;
        }
        proof {
            assert(values@.take(i as int) =~= values@);
        }
        Ok(AssignedGrid { cells })
    }

    /// Checks one group: asserts that the cells add up to forty-five and
    /// that each cell differs from the next.
    pub fn check_nine_cells(&self, config: &SudokuConfig, ctx: &mut Region, cells: Vec<usize>)
        ensures
            final(ctx)@ == checked(old(ctx)@, cells@),
    {
        let pairs: Vec<(usize, usize)> = tuple_windows(&cells);
        ctx.assert_zero_sum(cells, GROUP_CONSTANT);
        let mut i: usize = 0;
        while i < pairs.len()
            invariant
                0 <= i <= pairs.len(),
                ctx@ == told_apart(
                    old(ctx)@.constrain(ConstraintView::ZeroSum { cells: cells@, constant: GROUP_CONSTANT }),
                    pairs@.take(i as int),
                ),
            decreases pairs.len() - i,
        {
            proof {
                assert(pairs@.take(i + 1).drop_last() =~= pairs@.take(i as int));
            }
            let (cell_a, cell_b) = pairs[i];
            ctx.assert_not_equal(cell_a, cell_b);
            i = i + 1;
        }
        proof {
            assert(pairs@.take(i as int) =~= pairs@);
        }
    }
    /// Lays the circuit out: witness values and constraints, in the order in
    /// which they are assigned and laid. A board that is not nine by nine is
    /// refused before anything is built; the puzzle is looked at first.
    pub fn synthesize(&self, config: &SudokuConfig) -> (r: Result<Region, Error>)
        ensures
            r is Ok <==> self.well_shaped(),
            r is Err ==> r->Err_0 == self.shape_error(),
            r is Ok ==> grid_cells(self.puzzle).len() == 81 && grid_cells(self.solution).len()
                == 81,
            r is Ok ==> r->Ok_0@ == synthesis(
                grid_cells(self.puzzle),
                grid_cells(self.solution),
                MAX_SUDOKU_CELL_VALUE,
            ),
    {
        let (puzzle_rows, puzzle_cols) = self.puzzle.dim();
        if puzzle_rows != SIDE || puzzle_cols != SIDE {
            return Err(Error::BoardShape { rows: puzzle_rows, cols: puzzle_cols });
        }
        let (solution_rows, solution_cols) = self.solution.dim();
        if solution_rows != SIDE || solution_cols != SIDE {
            return Err(Error::BoardShape { rows: solution_rows, cols: solution_cols });
        }
        let ghost range = MAX_SUDOKU_CELL_VALUE;
        let ghost p = puzzle_cells();
        let ghost s = solution_cells();
        let mut ctx = Region::new();

        // Load the puzzle, which is public, and then the solution, which is
        // private. Both go into the witness column.
        let puzzle_cells = match self.load_board(config, &mut ctx, &self.puzzle) {
            Ok(cells) => cells,
            Err(e) => {
                return Err(e);
            },
        };
        let ghost loaded_puzzle = ctx@;
        let solution_cells = match self.load_board(config, &mut ctx, &self.solution) {
            Ok(cells) => cells,
            Err(e) => {
                return Err(e);
            },
        };
        let ghost boards = ctx@;
        proof {
            assert(grid_cells(self.puzzle).len() == 81 && grid_cells(self.solution).len() == 81)
                by (nonlinear_arith)
                requires
                    grid_cells(self.puzzle).len() == puzzle_rows * puzzle_cols,
                    grid_cells(self.solution).len() == solution_rows * solution_cols,
                    puzzle_rows == 9,
                    puzzle_cols == 9,
                    solution_rows == 9,
                    solution_cols == 9,
            ;
            lemma_loaded_len(RegionView::empty(), grid_cells(self.puzzle), range);
            lemma_loaded_len(loaded_puzzle, grid_cells(self.solution), range);
            assert(puzzle_cells.cells@ =~= p);
            assert(solution_cells.cells@ =~= s);
            assert(boards.witness.len() == 162);
        }

        // Check every row and every column of the solution.
        let mut i: usize = 0;
        while i < SIDE
            invariant
                0 <= i <= 9,
                solution_cells.wf(),
                solution_cells.cells@ == s,
                ctx@ == lines(boards, s, i as nat),
            decreases 9 - i,
        {
            let row: Vec<usize> = solution_cells.row(i);
            let col: Vec<usize> = solution_cells.column(i);
            self.check_nine_cells(config, &mut ctx, row);
            self.check_nine_cells(config, &mut ctx, col);
            i = i + 1;
        }
        let ghost lined = ctx@;

        // Check every three-by-three square.
        let mut sq_row: usize = 0;
        while sq_row < 3
            invariant
                0 <= sq_row <= 3,
                solution_cells.wf(),
                solution_cells.cells@ == s,
                ctx@ == squares(lined, s, (3 * sq_row) as nat),
            decreases 3 - sq_row,
        {
            let mut sq_col: usize = 0;
            while sq_col < 3
                invariant
                    0 <= sq_row < 3,
                    0 <= sq_col <= 3,
                    solution_cells.wf(),
                    solution_cells.cells@ == s,
                    ctx@ == squares(lined, s, (3 * sq_row + sq_col) as nat),
                decreases 3 - sq_col,
            {
                let square: Vec<usize> = solution_cells.square(3 * sq_row, 3 * sq_col);
                proof {
                    let n = 3 * sq_row + sq_col + 1;
                    assert((n - 1) / 3 == sq_row && (n - 1) % 3 == sq_col);
                }
                self.check_nine_cells(config, &mut ctx, square);
                sq_col = sq_col + 1;
            }
            sq_row = sq_row + 1;
        }
        let ghost grouped = ctx@;
        proof {
            lemma_lines_witness(boards, s, 9);
            lemma_squares_witness(lined, s, 9);
        }

        // Bind the puzzle to the solution: each puzzle cell is blank or
        // equals the solution cell at the same place.
        let mut row_idx: usize = 0;
        while row_idx < SIDE
            invariant
                0 <= row_idx <= 9,
                puzzle_cells.wf(),
                solution_cells.wf(),
                puzzle_cells.cells@ == p,
                solution_cells.cells@ == s,
                p == self::puzzle_cells(),
                s == self::solution_cells(),
                grouped.witness.len() == 162,
                ctx@ == binds(grouped, p, s, (9 * row_idx) as nat),
            decreases 9 - row_idx,
        {
            let mut col_idx: usize = 0;
            while col_idx < SIDE
                invariant
                    0 <= row_idx < 9,
                    0 <= col_idx <= 9,
                    puzzle_cells.wf(),
                    solution_cells.wf(),
                    puzzle_cells.cells@ == p,
                    solution_cells.cells@ == s,
                    p == self::puzzle_cells(),
                    s == self::solution_cells(),
                    grouped.witness.len() == 162,
                    ctx@ == binds(grouped, p, s, (9 * row_idx + col_idx) as nat),
                decreases 9 - col_idx,
            {
                let board_cell: usize = puzzle_cells.get(row_idx, col_idx);
                let solution_cell: usize = solution_cells.get(row_idx, col_idx);
                proof {
                    lemma_binds_witness(grouped, p, s, (9 * row_idx + col_idx) as nat);
                }
                let board_cell_is_zero: usize = ctx.is_zero(board_cell);
                let board_cell_equals_solution: usize = ctx.is_equal(board_cell, solution_cell);
                ctx.one_or_one(board_cell_is_zero, board_cell_equals_solution);
                col_idx = col_idx + 1;
            }
            row_idx = row_idx + 1;
        }
        let ghost tied = ctx@;

        // Mark each cell of the puzzle as public input.
        let mut public_input_idx: usize = 0;
        while public_input_idx < CELLS
            invariant
                0 <= public_input_idx <= 81,
                puzzle_cells.wf(),
                puzzle_cells.cells@ == p,
                ctx@ == published(tied, p, public_input_idx as nat),
            decreases 81 - public_input_idx,
        {
            let assigned: usize = puzzle_cells.cells[public_input_idx];
            ctx.constrain_instance(assigned, public_input_idx);
            public_input_idx = public_input_idx + 1;
        }
        Ok(ctx)
    }
    /// Builds the circuit and checks it against the public input. Succeeds
    /// exactly when both boards are nine by nine and the boards and the
    /// public input are accepted. A board of another shape is reported as
    /// such, before anything is checked; otherwise the constraints that
    /// are not met are reported.
    pub fn prove_and_verify(&self, config: &SudokuConfig, public_input: &Vec<u64>) -> (r: Result<
        (),
        VerifyError,
    >)
        ensures
            r is Ok <==> self.well_shaped() && accepts(
                grid_cells(self.puzzle),
                grid_cells(self.solution),
                public_input@,
            ),
            !self.well_shaped() ==> r == Err::<(), VerifyError>(
                VerifyError::Synthesis(self.shape_error()),
            ),
            self.well_shaped() && r is Err ==> r->Err_0 is Unsatisfied && ({
                let circuit = synthesis(
                    grid_cells(self.puzzle),
                    grid_cells(self.solution),
                    MAX_SUDOKU_CELL_VALUE,
                );
                r->Err_0->Unsatisfied_0@ == failures(
                    circuit.constraints,
                    circuit.witness,
                    public_input@,
                )
            }),
    {
        let region = match self.synthesize(config) {
            Ok(region) => region,
            Err(e) => {
                return Err(VerifyError::Synthesis(e));
            },
        };
        proof {
            lemma_satisfied_iff_accepted(
                grid_cells(self.puzzle),
                grid_cells(self.solution),
                public_input@,
            );
        }
        match region.verify(public_input) {
            Ok(()) => Ok(()),
            Err(failed) => Err(VerifyError::Unsatisfied(failed)),
        }
    }
}

} // verus!
