//! The range-check gate: a polynomial that vanishes exactly on `0..range`.

use vstd::prelude::*;

verus! {

/// Cell values are checked against `[0, MAX_SUDOKU_CELL_VALUE)`: the digits
/// and the blank.
pub const MAX_SUDOKU_CELL_VALUE: usize = 10;

/// The polynomial of the range check at `v`: `v * (v - 1) * ... * (v - (range - 1))`.
/// Its degree is `range`; for `range == 0` it is the constant one.
pub open spec fn range_product(v: int, range: nat) -> int
    decreases range,
{
    if range == 0 {
        1
    } else {
        range_product(v, (range - 1) as nat) * (v - (range - 1))
    }
}

/// The polynomial vanishes at `v` exactly when `v` is one of `0..range`.
pub proof fn lemma_range_product_zero(v: int, range: nat)
    ensures
        range_product(v, range) == 0 <==> 0 <= v < range,
    decreases range,
{
    if range > 0 {
        let rest = range_product(v, (range - 1) as nat);
        let last = v - (range - 1);
        lemma_range_product_zero(v, (range - 1) as nat);
        assert(rest * last == 0 <==> rest == 0 || last == 0) by (nonlinear_arith);
    }
}

/// Whether the range check with bound `range` is satisfied on a row that holds
/// `value`.
pub fn range_check(value: u64, range: usize) -> (satisfied: bool)
    ensures
        satisfied == (range_product(value as int, range as nat) == 0),
        satisfied == (value < range),
{
    proof {
        lemma_range_product_zero(value as int, range as nat);
    }
    value < range as u64
}

} // verus!
