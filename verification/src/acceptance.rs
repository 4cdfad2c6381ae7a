//! What the circuit accepts, said of the boards themselves: the circuit of
//! a puzzle and a solution is satisfied by a public input exactly when the
//! three meet the conditions below.

use vstd::prelude::*;
use crate::cells::{row_of, column_of, square_of};
use crate::circuit::{
    loaded, lines, squares, binds, published, synthesis, puzzle_cells, solution_cells,
};
use crate::gate::MAX_SUDOKU_CELL_VALUE;
use crate::region::{RegionView, cell_sum};
use crate::satisfaction::{
    group_holds, line_holds, square_holds, bind_holds, slot_holds, lemma_loaded, lemma_lines,
    lemma_squares, lemma_binds, lemma_published,
};

verus! {

/// The sum of the values of a group.
pub open spec fn digit_sum(group: Seq<u8>) -> int
    decreases group.len(),
{
    if group.len() == 0 {
        0
    } else {
        digit_sum(group.drop_last()) + group.last()
    }
}

/// What is checked of a group: its values add up to forty-five, and each
/// differs from the next. Values further apart are not compared.
pub open spec fn group_accepted(group: Seq<u8>) -> bool {
    &&& digit_sum(group) == 45
    &&& forall|k: int| 0 <= k < group.len() - 1 ==> #[trigger] group[k] != group[k + 1]
}

/// What is checked of a puzzle, a solution and a public input, the boards
/// given in row-major order: every cell is below ten; every row, column
/// and square of the solution is accepted as a group; every puzzle cell is
/// blank or equals the solution cell at its place; and the public input
/// holds the puzzle in its first eighty-one slots, in row-major order.
pub open spec fn accepts(puzzle: Seq<u8>, solution: Seq<u8>, instance: Seq<u64>) -> bool {
    &&& forall|k: int| 0 <= k < 81 ==> #[trigger] puzzle[k] < 10
    &&& forall|k: int| 0 <= k < 81 ==> #[trigger] solution[k] < 10
    &&& forall|i: int| 0 <= i < 9 ==> group_accepted(#[trigger] row_of(solution, i))
    &&& forall|i: int| 0 <= i < 9 ==> group_accepted(#[trigger] column_of(solution, i))
    &&& forall|b: int|
        0 <= b < 9 ==> group_accepted(#[trigger] square_of(solution, 3 * (b / 3), 3 * (b % 3)))
    &&& forall|k: int| 0 <= k < 81 ==> #[trigger] puzzle[k] == 0 || puzzle[k] == solution[k]
    &&& instance.len() >= 81
    &&& forall|k: int| 0 <= k < 81 ==> #[trigger] instance[k] == puzzle[k]
}

/// The sum over cells is the sum of the values that the cells hold.
pub proof fn lemma_cell_sum_digits(witness: Seq<u64>, cells: Seq<usize>, group: Seq<u8>)
    requires
        cells.len() == group.len(),
        forall|k: int| 0 <= k < cells.len() ==> witness[#[trigger] cells[k] as int] == group[k],
    ensures
        cell_sum(witness, cells) == digit_sum(group),
    decreases cells.len(),
{
    if cells.len() > 0 {
        let front = cells.drop_last();
        assert forall|k: int| 0 <= k < front.len() implies witness[#[trigger] front[k] as int]
            == group.drop_last()[k] by {
            assert(front[k] == cells[k]);
        }
        lemma_cell_sum_digits(witness, front, group.drop_last());
        assert(witness[cells[cells.len() - 1] as int] == group[cells.len() - 1]);
    }
}

/// A group of cells holds exactly when the values in those cells are
/// accepted as a group.
pub proof fn lemma_group_holds(witness: Seq<u64>, cells: Seq<usize>, group: Seq<u8>)
    requires
        cells.len() == group.len(),
        forall|k: int| 0 <= k < cells.len() ==> witness[#[trigger] cells[k] as int] == group[k],
    ensures
        group_holds(witness, cells) == group_accepted(group),
{
    lemma_cell_sum_digits(witness, cells, group);
    if group_holds(witness, cells) {
        assert forall|k: int| 0 <= k < group.len() - 1 implies #[trigger] group[k] != group[k
            + 1] by {
            assert(witness[cells[k] as int] != witness[cells[k + 1] as int]);
            assert(witness[cells[k + 1] as int] == group[k + 1]);
        }
    }
    if group_accepted(group) {
        assert forall|i: int| 0 <= i < cells.len() - 1 implies #[trigger] witness[cells[i] as int]
            != witness[cells[i + 1] as int] by {
            assert(group[i] != group[i + 1]);
            assert(witness[cells[i + 1] as int] == group[i + 1]);
        }
    }
}

/// With the solution in the rows behind the puzzle, the groups of cells
/// hold exactly when the groups of the solution are accepted.
pub proof fn lemma_groups_of_solution(witness: Seq<u64>, solution: Seq<u8>)
    requires
        solution.len() == 81,
        witness.len() >= 162,
        forall|k: int| 0 <= k < 81 ==> #[trigger] witness[81 + k] == solution[k],
    ensures
        forall|i: int|
            0 <= i < 9 ==> #[trigger] line_holds(witness, solution_cells(), i) == (group_accepted(
                row_of(solution, i),
            ) && group_accepted(column_of(solution, i))),
        forall|b: int|
            0 <= b < 9 ==> #[trigger] square_holds(witness, solution_cells(), b) == group_accepted(
                square_of(solution, 3 * (b / 3), 3 * (b % 3)),
            ),
{
    let s = solution_cells();
    assert forall|i: int| 0 <= i < 9 implies #[trigger] line_holds(witness, s, i) == (
    group_accepted(row_of(solution, i)) && group_accepted(column_of(solution, i))) by {
        let row = row_of(s, i);
        let values = row_of(solution, i);
        assert forall|k: int| 0 <= k < row.len() implies witness[#[trigger] row[k] as int]
            == values[k] by {
            assert(row[k] == 81 + (9 * i + k));
            assert(witness[81 + (9 * i + k)] == solution[9 * i + k]);
        }
        lemma_group_holds(witness, row, values);
        let column = column_of(s, i);
        let values = column_of(solution, i);
        assert forall|k: int| 0 <= k < column.len() implies witness[#[trigger] column[k] as int]
            == values[k] by {
            assert(column[k] == 81 + (9 * k + i));
            assert(witness[81 + (9 * k + i)] == solution[9 * k + i]);
        }
        lemma_group_holds(witness, column, values);
    }
    assert forall|b: int| 0 <= b < 9 implies #[trigger] square_holds(witness, s, b)
        == group_accepted(square_of(solution, 3 * (b / 3), 3 * (b % 3))) by {
        let row = 3 * (b / 3);
        let col = 3 * (b % 3);
        let square = square_of(s, row, col);
        let values = square_of(solution, row, col);
        assert forall|k: int| 0 <= k < square.len() implies witness[#[trigger] square[k] as int]
            == values[k] by {
            let at = 9 * (row + k / 3) + col + k % 3;
            assert(0 <= at < 81);
            assert(square[k] == 81 + at);
            assert(witness[81 + at] == solution[at]);
        }
        lemma_group_holds(witness, square, values);
    }
}

/// The circuit of a puzzle and a solution is satisfied by a public input
/// exactly when the three are accepted.
pub proof fn lemma_satisfied_iff_accepted(puzzle: Seq<u8>, solution: Seq<u8>, instance: Seq<u64>)
    requires
        puzzle.len() == 81,
        solution.len() == 81,
    ensures
        synthesis(puzzle, solution, MAX_SUDOKU_CELL_VALUE).satisfied(instance) <==> accepts(
            puzzle,
            solution,
            instance,
        ),
{
    let range = MAX_SUDOKU_CELL_VALUE;
    let p = puzzle_cells();
    let s = solution_cells();
    let r0 = RegionView::empty();
    let r1 = loaded(r0, puzzle, range);
    let r2 = loaded(r1, solution, range);
    let r3 = lines(r2, s, 9);
    let r4 = squares(r3, s, 9);
    let r5 = binds(r4, p, s, 81);
    let r6 = published(r5, p, 81);
    assert(r6 == synthesis(puzzle, solution, range));
    assert(r0.closed() && r0.satisfied(instance));
    lemma_loaded(r0, puzzle, range, instance);
    lemma_loaded(r1, solution, range, instance);
    let w = r2.witness;
    assert(w.len() == 162);
    assert forall|k: int| 0 <= k < 81 implies #[trigger] w[k] == puzzle[k] by {
        assert(r1.witness[0 + k] == puzzle[k]);
        assert(r2.witness[k] == r1.witness[k]);
    }
    assert forall|k: int| 0 <= k < 81 implies #[trigger] w[81 + k] == solution[k] by {
        assert(r2.witness[r1.witness.len() + k] == solution[k]);
    }
    lemma_lines(r2, s, 9, instance);
    lemma_squares(r3, s, 9, instance);
    lemma_binds(r4, p, s, 81, instance);
    lemma_published(r5, p, 81, instance);
    lemma_groups_of_solution(w, solution);
    let w5 = r5.witness;
    assert forall|k: int| 0 <= k < 81 implies #[trigger] bind_holds(w, p[k], s[k]) == (puzzle[k]
        == 0 || puzzle[k] == solution[k]) by {
        assert(w[k] == puzzle[k]);
        assert(w[81 + k] == solution[k]);
    }
    assert forall|k: int| 0 <= k < 81 implies #[trigger] slot_holds(w5, instance, p[k], k) == (k
        < instance.len() && instance[k] == puzzle[k]) by {
        assert(w5[k] == w[k]);
        assert(w[k] == puzzle[k]);
    }
    if r6.satisfied(instance) {
        assert forall|i: int| 0 <= i < 9 implies group_accepted(#[trigger] row_of(solution, i)) by {
            assert(line_holds(w, s, i));
        }
        assert forall|i: int| 0 <= i < 9 implies group_accepted(
            #[trigger] column_of(solution, i),
        ) by {
            assert(line_holds(w, s, i));
        }
        assert forall|b: int| 0 <= b < 9 implies group_accepted(
            #[trigger] square_of(solution, 3 * (b / 3), 3 * (b % 3)),
        ) by {
            assert(square_holds(w, s, b));
        }
        assert forall|k: int| 0 <= k < 81 implies #[trigger] puzzle[k] == 0 || puzzle[k]
            == solution[k] by {
            assert(bind_holds(w, p[k], s[k]));
        }
        assert forall|k: int| 0 <= k < 81 implies k < instance.len() && #[trigger] instance[k]
            == puzzle[k] by {
            assert(slot_holds(w5, instance, p[k], k));
        }
        assert(slot_holds(w5, instance, p[80], 80));
        assert(accepts(puzzle, solution, instance));
    }
    if accepts(puzzle, solution, instance) {
        assert forall|i: int| 0 <= i < 9 implies #[trigger] line_holds(w, s, i) by {
            assert(group_accepted(row_of(solution, i)));
            assert(group_accepted(column_of(solution, i)));
        }
        assert forall|b: int| 0 <= b < 9 implies #[trigger] square_holds(w, s, b) by {
            assert(group_accepted(square_of(solution, 3 * (b / 3), 3 * (b % 3))));
        }
        assert forall|k: int| 0 <= k < 81 implies #[trigger] bind_holds(w, p[k], s[k]) by {
            assert(puzzle[k] == 0 || puzzle[k] == solution[k]);
        }
        assert forall|k: int| 0 <= k < 81 implies #[trigger] slot_holds(w5, instance, p[k], k) by {
            assert(instance[k] == puzzle[k]);
        }
        assert(r6.satisfied(instance));
    }
}

} // verus!
