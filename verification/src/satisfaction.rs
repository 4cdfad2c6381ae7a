//! When a region is satisfied: how each step of the synthesis adds to what
//! the witness and the public input must meet.

use vstd::prelude::*;
use crate::gate::lemma_range_product_zero;
use crate::cells::{row_of, column_of, square_of};
use crate::circuit::{
    loaded, told_apart, checked, adjacent_pairs, bound, lines, squares, binds, published,
    GROUP_CONSTANT,
};
use crate::region::{RegionView, ConstraintView, cell_sum, indicator};

verus! {

/// The sum over cells depends only on the rows that the cells name.
pub proof fn lemma_cell_sum_stable(w1: Seq<u64>, w2: Seq<u64>, cells: Seq<usize>, n: nat)
    requires
        n <= w1.len(),
        n <= w2.len(),
        forall|k: int| 0 <= k < n ==> w1[k] == w2[k],
        forall|i: int| 0 <= i < cells.len() ==> #[trigger] cells[i] < n,
    ensures
        cell_sum(w1, cells) == cell_sum(w2, cells),
    decreases cells.len(),
{
    if cells.len() > 0 {
        let front = cells.drop_last();
        assert forall|i: int| 0 <= i < front.len() implies #[trigger] front[i] < n by {
            assert(front[i] == cells[i]);
        }
        lemma_cell_sum_stable(w1, w2, front, n);
        assert(cells[cells.len() - 1] < n);
    }
}

/// Whether a constraint is met depends only on the rows that it names.
pub proof fn lemma_holds_stable(
    c: ConstraintView,
    w1: Seq<u64>,
    w2: Seq<u64>,
    n: nat,
    instance: Seq<u64>,
)
    requires
        c.within(n),
        n <= w1.len(),
        n <= w2.len(),
        forall|k: int| 0 <= k < n ==> w1[k] == w2[k],
    ensures
        c.holds(w1, instance) == c.holds(w2, instance),
{
    match c {
        ConstraintView::ZeroSum { cells, constant } => {
            lemma_cell_sum_stable(w1, w2, cells, n);
            assert(c.within(w1.len()));
            assert(c.within(w2.len()));
        },
        _ => {},
    }
}

/// Laying a constraint on assigned rows keeps the region closed, and the
/// region is then satisfied exactly when it was before and the new
/// constraint is met.
pub proof fn lemma_constrain(r: RegionView, c: ConstraintView, instance: Seq<u64>)
    requires
        r.closed(),
        c.within(r.witness.len()),
    ensures
        r.constrain(c).closed(),
        r.constrain(c).witness == r.witness,
        r.constrain(c).satisfied(instance) <==> r.satisfied(instance) && c.holds(
            r.witness,
            instance,
        ),
{
    let after = r.constrain(c);
    assert forall|i: int| 0 <= i < after.constraints.len() implies (
    #[trigger] after.constraints[i]).within(after.witness.len()) by {
        if i < r.constraints.len() {
            assert(after.constraints[i] == r.constraints[i]);
        }
    }
    if after.satisfied(instance) {
        assert forall|i: int| 0 <= i < r.constraints.len() implies (
        #[trigger] r.constraints[i]).holds(r.witness, instance) by {
            assert(after.constraints[i] == r.constraints[i]);
        }
        assert(after.constraints[r.constraints.len() as int] == c);
    }
    if r.satisfied(instance) && c.holds(r.witness, instance) {
        assert forall|i: int| 0 <= i < after.constraints.len() implies (
        #[trigger] after.constraints[i]).holds(after.witness, instance) by {
            if i < r.constraints.len() {
                assert(after.constraints[i] == r.constraints[i]);
            }
        }
    }
}

/// Assigning a row keeps the region closed and changes nothing in whether
/// it is satisfied.
pub proof fn lemma_assign(r: RegionView, value: u64, instance: Seq<u64>)
    requires
        r.closed(),
    ensures
        r.assign(value).closed(),
        r.assign(value).satisfied(instance) == r.satisfied(instance),
{
    let after = r.assign(value);
    let n = r.witness.len();
    assert forall|i: int| 0 <= i < after.constraints.len() implies (
    #[trigger] after.constraints[i]).within(after.witness.len()) && after.constraints[i].holds(
        after.witness,
        instance,
    ) == r.constraints[i].holds(r.witness, instance) by {
        let c = r.constraints[i];
        assert(c.within(n));
        lemma_holds_stable(c, r.witness, after.witness, n, instance);
        match c {
            ConstraintView::ZeroSum { cells, constant } => {
                assert(c.within(after.witness.len()));
            },
            _ => {},
        }
    }
    if after.satisfied(instance) {
        assert forall|i: int| 0 <= i < r.constraints.len() implies (
        #[trigger] r.constraints[i]).holds(r.witness, instance) by {
            assert(after.constraints[i].holds(after.witness, instance));
        }
    }
    if r.satisfied(instance) {
        assert forall|i: int| 0 <= i < after.constraints.len() implies (
        #[trigger] after.constraints[i]).holds(after.witness, instance) by {
            assert(r.constraints[i].holds(r.witness, instance));
        }
    }
}

/// Enabling the range check on the next row and then assigning it keeps
/// the region closed, and the region is then satisfied exactly when it
/// was before and the value is below the bound.
pub proof fn lemma_enable_assign(r: RegionView, range: usize, value: u64, instance: Seq<u64>)
    requires
        r.closed(),
        r.witness.len() <= usize::MAX,
    ensures
        ({
            let after = r.constrain(
                ConstraintView::Range { cell: r.witness.len() as usize, range },
            ).assign(value);
            &&& after.closed()
            &&& after.satisfied(instance) <==> r.satisfied(instance) && value < range
        }),
{
    let n = r.witness.len();
    let c = ConstraintView::Range { cell: n as usize, range };
    let after = r.constrain(c).assign(value);
    lemma_range_product_zero(value as int, range as nat);
    assert forall|i: int| 0 <= i < after.constraints.len() implies (
    #[trigger] after.constraints[i]).within(after.witness.len()) && (i < r.constraints.len()
        ==> after.constraints[i].holds(after.witness, instance) == r.constraints[i].holds(
        r.witness,
        instance,
    )) by {
        if i < r.constraints.len() {
            let ci = r.constraints[i];
            assert(after.constraints[i] == ci);
            assert(ci.within(n));
            lemma_holds_stable(ci, r.witness, after.witness, n, instance);
            match ci {
                ConstraintView::ZeroSum { cells, constant } => {
                    assert(ci.within(after.witness.len()));
                },
                _ => {},
            }
        } else {
            assert(after.constraints[i] == c);
        }
    }
    assert(after.constraints[r.constraints.len() as int] == c);
    assert(c.holds(after.witness, instance) <==> value < range);
    if after.satisfied(instance) {
        assert forall|i: int| 0 <= i < r.constraints.len() implies (
        #[trigger] r.constraints[i]).holds(r.witness, instance) by {
            assert(after.constraints[i].holds(after.witness, instance));
        }
    }
    if r.satisfied(instance) && value < range {
        assert forall|i: int| 0 <= i < after.constraints.len() implies (
        #[trigger] after.constraints[i]).holds(after.witness, instance) by {
            if i < r.constraints.len() {
                assert(r.constraints[i].holds(r.witness, instance));
            }
        }
    }
}

/// What a loaded board adds: its values behind the rows already there, and
/// for the region to be satisfied, that every value is below the bound.
pub proof fn lemma_loaded(r: RegionView, values: Seq<u8>, range: usize, instance: Seq<u64>)
    requires
        r.closed(),
        r.witness.len() + values.len() <= usize::MAX,
    ensures
        ({
            let after = loaded(r, values, range);
            &&& after.closed()
            &&& after.witness.len() == r.witness.len() + values.len()
            &&& forall|k: int| 0 <= k < r.witness.len() ==> #[trigger] after.witness[k] == r.witness[k]
            &&& forall|i: int|
                0 <= i < values.len() ==> after.witness[r.witness.len() + i] == #[trigger] values[i]
            &&& after.satisfied(instance) <==> r.satisfied(instance) && forall|i: int|
                0 <= i < values.len() ==> #[trigger] values[i] < range
        }),
    decreases values.len(),
{
    if values.len() > 0 {
        let front = values.drop_last();
        let before = loaded(r, front, range);
        lemma_loaded(r, front, range, instance);
        lemma_enable_assign(before, range, values.last() as u64, instance);
        let after = loaded(r, values, range);
        assert forall|i: int| 0 <= i < values.len() implies after.witness[r.witness.len() + i]
            == #[trigger] values[i] by {
            if i < front.len() {
                assert(front[i] == values[i]);
            }
        }
        if after.satisfied(instance) {
            assert forall|i: int| 0 <= i < values.len() implies #[trigger] values[i] < range by {
                if i < front.len() {
                    assert(front[i] == values[i]);
                }
            }
        }
        if r.satisfied(instance) && (forall|i: int|
            0 <= i < values.len() ==> #[trigger] values[i] < range) {
            assert forall|i: int| 0 <= i < front.len() implies #[trigger] front[i] < range by {
                assert(front[i] == values[i]);
            }
            assert(values[values.len() - 1] < range);
        }
    }
}

/// What asserting pairs to differ adds: no row, and for the region to be
/// satisfied, that the two cells of each pair hold different values.
pub proof fn lemma_told_apart(r: RegionView, pairs: Seq<(usize, usize)>, instance: Seq<u64>)
    requires
        r.closed(),
        forall|i: int|
            0 <= i < pairs.len() ==> (#[trigger] pairs[i]).0 < r.witness.len() && pairs[i].1
                < r.witness.len(),
    ensures
        ({
            let after = told_apart(r, pairs);
            &&& after.closed()
            &&& after.witness == r.witness
            &&& after.satisfied(instance) <==> r.satisfied(instance) && forall|i: int|
                0 <= i < pairs.len() ==> r.witness[(#[trigger] pairs[i]).0 as int]
                    != r.witness[pairs[i].1 as int]
        }),
    decreases pairs.len(),
{
    if pairs.len() > 0 {
        let front = pairs.drop_last();
        let before = told_apart(r, front);
        assert forall|i: int| 0 <= i < front.len() implies (#[trigger] front[i]).0
            < r.witness.len() && front[i].1 < r.witness.len() by {
            assert(front[i] == pairs[i]);
        }
        lemma_told_apart(r, front, instance);
        let last = pairs[pairs.len() - 1];
        let c = ConstraintView::NotEqual { a: last.0, b: last.1 };
        lemma_constrain(before, c, instance);
        let after = told_apart(r, pairs);
        if after.satisfied(instance) {
            assert forall|i: int| 0 <= i < pairs.len() implies r.witness[(
            #[trigger] pairs[i]).0 as int] != r.witness[pairs[i].1 as int] by {
                if i < front.len() {
                    assert(front[i] == pairs[i]);
                }
            }
        }
        if r.satisfied(instance) && (forall|i: int|
            0 <= i < pairs.len() ==> r.witness[(#[trigger] pairs[i]).0 as int]
                != r.witness[pairs[i].1 as int]) {
            assert forall|i: int| 0 <= i < front.len() implies r.witness[(
            #[trigger] front[i]).0 as int] != r.witness[front[i].1 as int] by {
                assert(front[i] == pairs[i]);
            }
        }
    }
}

/// What the check of a group asks of a witness: the cells add up to
/// forty-five, and each differs from the next.
pub open spec fn group_holds(witness: Seq<u64>, cells: Seq<usize>) -> bool {
    &&& cell_sum(witness, cells) == 45
    &&& forall|i: int|
        0 <= i < cells.len() - 1 ==> #[trigger] witness[cells[i] as int] != witness[cells[i
            + 1] as int]
}

/// What the check of a group adds: no row, and for the region to be
/// satisfied, that the group holds.
pub proof fn lemma_checked(r: RegionView, cells: Seq<usize>, instance: Seq<u64>)
    requires
        r.closed(),
        forall|i: int| 0 <= i < cells.len() ==> #[trigger] cells[i] < r.witness.len(),
    ensures
        ({
            let after = checked(r, cells);
            &&& after.closed()
            &&& after.witness == r.witness
            &&& after.satisfied(instance) <==> r.satisfied(instance) && group_holds(
                r.witness,
                cells,
            )
        }),
{
    let sum = ConstraintView::ZeroSum { cells, constant: GROUP_CONSTANT };
    let summed = r.constrain(sum);
    let pairs = adjacent_pairs(cells);
    lemma_constrain(r, sum, instance);
    lemma_told_apart(summed, pairs, instance);
    let after = checked(r, cells);
    if after.satisfied(instance) {
        assert forall|i: int| 0 <= i < cells.len() - 1 implies #[trigger] r.witness[cells[i] as int]
            != r.witness[cells[i + 1] as int] by {
            assert(pairs[i].0 == cells[i] && pairs[i].1 == cells[i + 1]);
        }
    }
    if r.satisfied(instance) && group_holds(r.witness, cells) {
        assert forall|i: int| 0 <= i < pairs.len() implies r.witness[(#[trigger] pairs[i]).0 as int]
            != r.witness[pairs[i].1 as int] by {
            assert(r.witness[cells[i] as int] != r.witness[cells[i + 1] as int]);
        }
    }
}

/// Row `i` and column `i` of the grid of cells both hold.
pub open spec fn line_holds(witness: Seq<u64>, grid: Seq<usize>, i: int) -> bool {
    group_holds(witness, row_of(grid, i)) && group_holds(witness, column_of(grid, i))
}

/// Square `b` of the grid of cells holds, the squares counted row by row.
pub open spec fn square_holds(witness: Seq<u64>, grid: Seq<usize>, b: int) -> bool {
    group_holds(witness, square_of(grid, 3 * (b / 3), 3 * (b % 3)))
}

/// The puzzle cell is blank or equals the solution cell.
pub open spec fn bind_holds(witness: Seq<u64>, puzzle_cell: usize, solution_cell: usize) -> bool {
    witness[puzzle_cell as int] == 0 || witness[puzzle_cell as int]
        == witness[solution_cell as int]
}

/// The public input has a slot at `row`, and it equals the cell.
pub open spec fn slot_holds(witness: Seq<u64>, instance: Seq<u64>, cell: usize, row: int) -> bool {
    0 <= row < instance.len() && instance[row] == witness[cell as int]
}

/// What the checks of rows and columns add: no row of the witness, and for
/// the region to be satisfied, that each of those groups holds.
pub proof fn lemma_lines(r: RegionView, grid: Seq<usize>, n: nat, instance: Seq<u64>)
    requires
        r.closed(),
        n <= 9,
        grid.len() == 81,
        forall|k: int| 0 <= k < 81 ==> #[trigger] grid[k] < r.witness.len(),
    ensures
        ({
            let after = lines(r, grid, n);
            &&& after.closed()
            &&& after.witness == r.witness
            &&& after.satisfied(instance) <==> r.satisfied(instance) && forall|i: int|
                0 <= i < n ==> #[trigger] line_holds(r.witness, grid, i)
        }),
    decreases n,
{
    if n > 0 {
        let before = lines(r, grid, (n - 1) as nat);
        lemma_lines(r, grid, (n - 1) as nat, instance);
        let row = row_of(grid, n - 1);
        let column = column_of(grid, n - 1);
        assert forall|i: int| 0 <= i < row.len() implies #[trigger] row[i] < r.witness.len() by {
            assert(row[i] == grid[9 * (n - 1) + i]);
        }
        assert forall|i: int| 0 <= i < column.len() implies #[trigger] column[i]
            < r.witness.len() by {
            assert(column[i] == grid[9 * i + (n - 1)]);
        }
        lemma_checked(before, row, instance);
        lemma_checked(checked(before, row), column, instance);
        if r.satisfied(instance) && (forall|i: int|
            0 <= i < n ==> #[trigger] line_holds(r.witness, grid, i)) {
            assert(line_holds(r.witness, grid, n - 1));
        }
    }
}

/// What the checks of squares add: no row of the witness, and for the
/// region to be satisfied, that each of those groups holds.
pub proof fn lemma_squares(r: RegionView, grid: Seq<usize>, n: nat, instance: Seq<u64>)
    requires
        r.closed(),
        n <= 9,
        grid.len() == 81,
        forall|k: int| 0 <= k < 81 ==> #[trigger] grid[k] < r.witness.len(),
    ensures
        ({
            let after = squares(r, grid, n);
            &&& after.closed()
            &&& after.witness == r.witness
            &&& after.satisfied(instance) <==> r.satisfied(instance) && forall|b: int|
                0 <= b < n ==> #[trigger] square_holds(r.witness, grid, b)
        }),
    decreases n,
{
    if n > 0 {
        let before = squares(r, grid, (n - 1) as nat);
        lemma_squares(r, grid, (n - 1) as nat, instance);
        let row = 3 * ((n - 1) / 3);
        let col = 3 * ((n - 1) % 3);
        let square = square_of(grid, row, col);
        assert forall|i: int| 0 <= i < square.len() implies #[trigger] square[i]
            < r.witness.len() by {
            assert(square[i] == grid[9 * (row + i / 3) + col + i % 3]);
        }
        lemma_checked(before, square, instance);
        if r.satisfied(instance) && (forall|b: int|
            0 <= b < n ==> #[trigger] square_holds(r.witness, grid, b)) {
            assert(square_holds(r.witness, grid, n - 1));
        }
    }
}

/// What binding one puzzle cell adds: two rows that tell whether the
/// puzzle cell is blank and whether it equals the solution cell, and for
/// the region to be satisfied, that one of the two is so.
pub proof fn lemma_bound(r: RegionView, puzzle_cell: usize, solution_cell: usize, instance: Seq<u64>)
    requires
        r.closed(),
        puzzle_cell < r.witness.len(),
        solution_cell < r.witness.len(),
        r.witness.len() + 2 <= usize::MAX,
    ensures
        ({
            let after = bound(r, puzzle_cell, solution_cell);
            let n = r.witness.len() as int;
            &&& after.closed()
            &&& after.witness.len() == n + 2
            &&& forall|k: int| 0 <= k < n ==> #[trigger] after.witness[k] == r.witness[k]
            &&& after.witness[n] == indicator(r.witness[puzzle_cell as int] == 0)
            &&& after.witness[n + 1] == indicator(
                r.witness[puzzle_cell as int] == r.witness[solution_cell as int],
            )
            &&& after.satisfied(instance) <==> r.satisfied(instance) && bind_holds(
                r.witness,
                puzzle_cell,
                solution_cell,
            )
        }),
{
    let n = r.witness.len();
    let is_zero = n as usize;
    let is_equal = (n + 1) as usize;
    let zero_bit = indicator(r.witness[puzzle_cell as int] == 0);
    let equal_bit = indicator(r.witness[puzzle_cell as int] == r.witness[solution_cell as int]);
    let r1 = r.assign(zero_bit);
    lemma_assign(r, zero_bit, instance);
    let c2 = ConstraintView::IsZero { a: puzzle_cell, out: is_zero };
    let r2 = r1.constrain(c2);
    lemma_constrain(r1, c2, instance);
    let r3 = r2.assign(equal_bit);
    lemma_assign(r2, equal_bit, instance);
    let c4 = ConstraintView::IsEqual { a: puzzle_cell, b: solution_cell, out: is_equal };
    let r4 = r3.constrain(c4);
    lemma_constrain(r3, c4, instance);
    let c5 = ConstraintView::OneOrOne { a: is_zero, b: is_equal };
    let r5 = r4.constrain(c5);
    lemma_constrain(r4, c5, instance);
    assert(r5 == bound(r, puzzle_cell, solution_cell));
}

/// What binding the first `n` puzzle cells adds: two rows for each, and
/// for the region to be satisfied, that each of those puzzle cells is
/// blank or equals its solution cell.
pub proof fn lemma_binds(
    r: RegionView,
    puzzle: Seq<usize>,
    solution: Seq<usize>,
    n: nat,
    instance: Seq<u64>,
)
    requires
        r.closed(),
        n <= puzzle.len(),
        n <= solution.len(),
        forall|k: int| 0 <= k < n ==> #[trigger] puzzle[k] < r.witness.len(),
        forall|k: int| 0 <= k < n ==> #[trigger] solution[k] < r.witness.len(),
        r.witness.len() + 2 * n <= usize::MAX,
    ensures
        ({
            let after = binds(r, puzzle, solution, n);
            &&& after.closed()
            &&& after.witness.len() == r.witness.len() + 2 * n
            &&& forall|k: int| 0 <= k < r.witness.len() ==> #[trigger] after.witness[k] == r.witness[k]
            &&& after.satisfied(instance) <==> r.satisfied(instance) && forall|k: int|
                0 <= k < n ==> #[trigger] bind_holds(r.witness, puzzle[k], solution[k])
        }),
    decreases n,
{
    if n > 0 {
        let before = binds(r, puzzle, solution, (n - 1) as nat);
        lemma_binds(r, puzzle, solution, (n - 1) as nat, instance);
        let p = puzzle[n - 1];
        let s = solution[n - 1];
        assert(before.witness[p as int] == r.witness[p as int]);
        assert(before.witness[s as int] == r.witness[s as int]);
        lemma_bound(before, p, s, instance);
        assert(bind_holds(before.witness, p, s) == bind_holds(r.witness, p, s));
        if r.satisfied(instance) && (forall|k: int|
            0 <= k < n ==> #[trigger] bind_holds(r.witness, puzzle[k], solution[k])) {
            assert(bind_holds(r.witness, puzzle[n - 1], solution[n - 1]));
        }
    }
}

/// What binding the first `n` puzzle cells to the public input adds: no
/// row of the witness, and for the region to be satisfied, that each of
/// those cells equals the slot of its index.
pub proof fn lemma_published(r: RegionView, puzzle: Seq<usize>, n: nat, instance: Seq<u64>)
    requires
        r.closed(),
        n <= puzzle.len(),
        n <= usize::MAX,
        forall|k: int| 0 <= k < n ==> #[trigger] puzzle[k] < r.witness.len(),
    ensures
        ({
            let after = published(r, puzzle, n);
            &&& after.closed()
            &&& after.witness == r.witness
            &&& after.satisfied(instance) <==> r.satisfied(instance) && forall|k: int|
                0 <= k < n ==> #[trigger] slot_holds(r.witness, instance, puzzle[k], k)
        }),
    decreases n,
{
    if n > 0 {
        let before = published(r, puzzle, (n - 1) as nat);
        lemma_published(r, puzzle, (n - 1) as nat, instance);
        let c = ConstraintView::Instance { cell: puzzle[n - 1], row: (n - 1) as usize };
        lemma_constrain(before, c, instance);
        assert(c.holds(r.witness, instance) == slot_holds(r.witness, instance, puzzle[n - 1], n - 1));
        if r.satisfied(instance) && (forall|k: int|
            0 <= k < n ==> #[trigger] slot_holds(r.witness, instance, puzzle[k], k)) {
            assert(slot_holds(r.witness, instance, puzzle[n - 1], n - 1));
        }
    }
}

} // verus!
