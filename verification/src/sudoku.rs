//! Sudoku itself, and what the circuit makes of it: a solved puzzle is
//! accepted, and what breaks a solution in the ways below is rejected.

use vstd::prelude::*;
use crate::acceptance::{accepts, digit_sum, group_accepted, lemma_satisfied_iff_accepted};
use crate::cells::{row_of, column_of, square_of};
use crate::circuit::synthesis;
use crate::gate::MAX_SUDOKU_CELL_VALUE;

verus! {

/// The group holds each of the digits one to nine exactly once: nine
/// digits, no two of them equal.
pub open spec fn is_permutation(group: Seq<u8>) -> bool {
    &&& group.len() == 9
    &&& forall|k: int| 0 <= k < 9 ==> 1 <= #[trigger] group[k] <= 9
    &&& forall|j: int, k: int| 0 <= j < k < 9 ==> #[trigger] group[j] != #[trigger] group[k]
}

/// Every row, column and square of the board is a permutation of the
/// digits.
pub open spec fn is_solved(solution: Seq<u8>) -> bool {
    &&& solution.len() == 81
    &&& forall|i: int| 0 <= i < 9 ==> is_permutation(#[trigger] row_of(solution, i))
    &&& forall|i: int| 0 <= i < 9 ==> is_permutation(#[trigger] column_of(solution, i))
    &&& forall|b: int|
        0 <= b < 9 ==> is_permutation(#[trigger] square_of(solution, 3 * (b / 3), 3 * (b % 3)))
}

/// Every cell of the puzzle is blank or holds what the solution holds at
/// its place.
pub open spec fn is_consistent(puzzle: Seq<u8>, solution: Seq<u8>) -> bool {
    &&& puzzle.len() == 81
    &&& solution.len() == 81
    &&& forall|k: int| 0 <= k < 81 ==> #[trigger] puzzle[k] == 0 || puzzle[k] == solution[k]
}

/// The public input that belongs to a puzzle: its cells in row-major order.
pub open spec fn public_input_of(puzzle: Seq<u8>) -> Seq<u64> {
    Seq::new(puzzle.len(), |k: int| puzzle[k] as u64)
}

/// How often `v` stands in the group.
pub open spec fn occurrences(group: Seq<u8>, v: int) -> nat
    decreases group.len(),
{
    if group.len() == 0 {
        0
    } else {
        occurrences(group.drop_last(), v) + if group.last() == v {
            1nat
        } else {
            0nat
        }
    }
}

/// A value that occurs stands somewhere.
proof fn lemma_occurs_somewhere(group: Seq<u8>, v: int)
    requires
        occurrences(group, v) > 0,
    ensures
        exists|k: int| 0 <= k < group.len() && #[trigger] group[k] == v,
    decreases group.len(),
{
    if group.len() > 0 {
        if group.last() == v {
            assert(group[group.len() - 1] == v);
        } else {
            lemma_occurs_somewhere(group.drop_last(), v);
            let k = choose|k: int|
                0 <= k < group.drop_last().len() && #[trigger] group.drop_last()[k] == v;
            assert(group[k] == v);
        }
    }
}

/// Where no two values are equal, none occurs twice.
proof fn lemma_occurs_once(group: Seq<u8>, v: int)
    requires
        forall|j: int, k: int|
            0 <= j < k < group.len() ==> #[trigger] group[j] != #[trigger] group[k],
    ensures
        occurrences(group, v) <= 1,
    decreases group.len(),
{
    if group.len() > 0 {
        let front = group.drop_last();
        assert forall|j: int, k: int| 0 <= j < k < front.len() implies #[trigger] front[j]
            != #[trigger] front[k] by {
            assert(front[j] == group[j] && front[k] == group[k]);
        }
        lemma_occurs_once(front, v);
        if group.last() == v && occurrences(front, v) > 0 {
            lemma_occurs_somewhere(front, v);
            let k = choose|k: int| 0 <= k < front.len() && #[trigger] front[k] == v;
            assert(group[k] == group[group.len() - 1]);
        }
    }
}

/// Of digits, the sum and the number are told by how often each digit
/// occurs.
proof fn lemma_sum_by_occurrences(group: Seq<u8>)
    requires
        forall|k: int| 0 <= k < group.len() ==> 1 <= #[trigger] group[k] <= 9,
    ensures
        digit_sum(group) == occurrences(group, 1) + 2 * occurrences(group, 2) + 3 * occurrences(
            group,
            3,
        ) + 4 * occurrences(group, 4) + 5 * occurrences(group, 5) + 6 * occurrences(group, 6) + 7
            * occurrences(group, 7) + 8 * occurrences(group, 8) + 9 * occurrences(group, 9),
        group.len() == occurrences(group, 1) + occurrences(group, 2) + occurrences(group, 3)
            + occurrences(group, 4) + occurrences(group, 5) + occurrences(group, 6) + occurrences(
            group,
            7,
        ) + occurrences(group, 8) + occurrences(group, 9),
    decreases group.len(),
{
    if group.len() > 0 {
        let front = group.drop_last();
        assert forall|k: int| 0 <= k < front.len() implies 1 <= #[trigger] front[k] <= 9 by {
            assert(front[k] == group[k]);
        }
        lemma_sum_by_occurrences(front);
        assert(1 <= group[group.len() - 1] <= 9);
    }
}

/// A permutation of the digits is accepted as a group.
pub proof fn lemma_permutation_accepted(group: Seq<u8>)
    requires
        is_permutation(group),
    ensures
        group_accepted(group),
{
    lemma_sum_by_occurrences(group);
    lemma_occurs_once(group, 1);
    lemma_occurs_once(group, 2);
    lemma_occurs_once(group, 3);
    lemma_occurs_once(group, 4);
    lemma_occurs_once(group, 5);
    lemma_occurs_once(group, 6);
    lemma_occurs_once(group, 7);
    lemma_occurs_once(group, 8);
    lemma_occurs_once(group, 9);
    assert forall|k: int| 0 <= k < group.len() - 1 implies #[trigger] group[k] != group[k + 1] by {
        assert(group[k] != group[k + 1]);
    }
}

/// A solved board, a puzzle that is consistent with it, and the public
/// input that belongs to the puzzle are accepted, and satisfy the circuit.
pub proof fn lemma_solved_puzzle_accepted(puzzle: Seq<u8>, solution: Seq<u8>)
    requires
        is_solved(solution),
        is_consistent(puzzle, solution),
    ensures
        accepts(puzzle, solution, public_input_of(puzzle)),
        synthesis(puzzle, solution, MAX_SUDOKU_CELL_VALUE).satisfied(public_input_of(puzzle)),
{
    let instance = public_input_of(puzzle);
    assert forall|k: int| 0 <= k < 81 implies 1 <= #[trigger] solution[k] <= 9 by {
        let row = row_of(solution, k / 9);
        assert(is_permutation(row));
        assert(row[k % 9] == solution[k]);
    }
    assert forall|k: int| 0 <= k < 81 implies #[trigger] puzzle[k] < 10 by {
        assert(puzzle[k] == 0 || puzzle[k] == solution[k]);
    }
    assert forall|i: int| 0 <= i < 9 implies group_accepted(#[trigger] row_of(solution, i)) by {
        lemma_permutation_accepted(row_of(solution, i));
    }
    assert forall|i: int| 0 <= i < 9 implies group_accepted(#[trigger] column_of(solution, i)) by {
        lemma_permutation_accepted(column_of(solution, i));
    }
    assert forall|b: int| 0 <= b < 9 implies group_accepted(
        #[trigger] square_of(solution, 3 * (b / 3), 3 * (b % 3)),
    ) by {
        lemma_permutation_accepted(square_of(solution, 3 * (b / 3), 3 * (b % 3)));
    }
    assert forall|k: int| 0 <= k < 81 implies #[trigger] instance[k] == puzzle[k] by {}
    lemma_satisfied_iff_accepted(puzzle, solution, instance);
}

/// Changing one value of a group changes its sum by the difference.
pub proof fn lemma_digit_sum_update(group: Seq<u8>, k: int, v: u8)
    requires
        0 <= k < group.len(),
    ensures
        digit_sum(group.update(k, v)) == digit_sum(group) - group[k] + v,
    decreases group.len(),
{
    let changed = group.update(k, v);
    if k == group.len() - 1 {
        assert(changed.drop_last() =~= group.drop_last());
    } else {
        lemma_digit_sum_update(group.drop_last(), k, v);
        assert(changed.drop_last() =~= group.drop_last().update(k, v));
    }
}

/// Where boards and public input are accepted, changing one cell of the
/// solution to another value, whatever that value is, makes them rejected:
/// the row of that cell no longer adds up to forty-five. So a change that
/// leaves a value twice in a row is rejected, and so is any other change
/// of a row's sum.
pub proof fn lemma_changed_cell_rejected(
    puzzle: Seq<u8>,
    solution: Seq<u8>,
    instance: Seq<u64>,
    k: int,
    v: u8,
)
    requires
        puzzle.len() == 81,
        solution.len() == 81,
        accepts(puzzle, solution, instance),
        0 <= k < 81,
        v != solution[k],
    ensures
        !accepts(puzzle, solution.update(k, v), instance),
        !synthesis(puzzle, solution.update(k, v), MAX_SUDOKU_CELL_VALUE).satisfied(instance),
{
    let changed = solution.update(k, v);
    let i = k / 9;
    let row = row_of(solution, i);
    assert(group_accepted(row));
    assert(row_of(changed, i) =~= row.update(k % 9, v));
    lemma_digit_sum_update(row, k % 9, v);
    assert(row[k % 9] == solution[k]);
    assert(!group_accepted(row_of(changed, i)));
    lemma_satisfied_iff_accepted(puzzle, changed, instance);
}

/// A solution with a row that does not add up to forty-five is rejected.
pub proof fn lemma_row_sum_rejected(
    puzzle: Seq<u8>,
    solution: Seq<u8>,
    instance: Seq<u64>,
    i: int,
)
    requires
        puzzle.len() == 81,
        solution.len() == 81,
        0 <= i < 9,
        digit_sum(row_of(solution, i)) != 45,
    ensures
        !accepts(puzzle, solution, instance),
        !synthesis(puzzle, solution, MAX_SUDOKU_CELL_VALUE).satisfied(instance),
{
    assert(!group_accepted(row_of(solution, i)));
    lemma_satisfied_iff_accepted(puzzle, solution, instance);
}

/// A solution with a cell that holds ten or more is rejected.
pub proof fn lemma_out_of_range_rejected(
    puzzle: Seq<u8>,
    solution: Seq<u8>,
    instance: Seq<u64>,
    k: int,
)
    requires
        puzzle.len() == 81,
        solution.len() == 81,
        0 <= k < 81,
        solution[k] >= 10,
    ensures
        !accepts(puzzle, solution, instance),
        !synthesis(puzzle, solution, MAX_SUDOKU_CELL_VALUE).satisfied(instance),
{
    lemma_satisfied_iff_accepted(puzzle, solution, instance);
}

/// A puzzle cell that is not blank and differs from the solution cell at
/// its place makes the boards rejected, whatever the groups of the
/// solution are.
pub proof fn lemma_mismatch_rejected(
    puzzle: Seq<u8>,
    solution: Seq<u8>,
    instance: Seq<u64>,
    k: int,
)
    requires
        puzzle.len() == 81,
        solution.len() == 81,
        0 <= k < 81,
        puzzle[k] != 0,
        puzzle[k] != solution[k],
    ensures
        !accepts(puzzle, solution, instance),
        !synthesis(puzzle, solution, MAX_SUDOKU_CELL_VALUE).satisfied(instance),
{
    lemma_satisfied_iff_accepted(puzzle, solution, instance);
}

/// A public input of eighty-one values that is not the puzzle in
/// row-major order is rejected: the order of the slots binds.
pub proof fn lemma_other_public_input_rejected(
    puzzle: Seq<u8>,
    solution: Seq<u8>,
    instance: Seq<u64>,
)
    requires
        puzzle.len() == 81,
        solution.len() == 81,
        instance.len() == 81,
        instance != public_input_of(puzzle),
    ensures
        !accepts(puzzle, solution, instance),
        !synthesis(puzzle, solution, MAX_SUDOKU_CELL_VALUE).satisfied(instance),
{
    if accepts(puzzle, solution, instance) {
        assert forall|k: int| 0 <= k < 81 implies instance[k] == public_input_of(puzzle)[k] by {
            assert(instance[k] == puzzle[k]);
        }
        assert(instance =~= public_input_of(puzzle));
    }
    lemma_satisfied_iff_accepted(puzzle, solution, instance);
}

/// The public input of a puzzle, reversed, is rejected, unless the puzzle
/// reads the same in both directions.
pub proof fn lemma_reversed_public_input_rejected(puzzle: Seq<u8>, solution: Seq<u8>)
    requires
        puzzle.len() == 81,
        solution.len() == 81,
        public_input_of(puzzle).reverse() != public_input_of(puzzle),
    ensures
        !accepts(puzzle, solution, public_input_of(puzzle).reverse()),
        !synthesis(puzzle, solution, MAX_SUDOKU_CELL_VALUE).satisfied(
            public_input_of(puzzle).reverse(),
        ),
{
    lemma_other_public_input_rejected(puzzle, solution, public_input_of(puzzle).reverse());
}

} // verus!
