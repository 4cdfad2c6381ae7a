//! A region of the circuit: one witness column and the constraints laid over
//! it.
//!
//! Values stand for field elements by their canonical representatives. Every
//! value here is below `2^64` and every sum has fewer than `2^64` terms, so in
//! a field whose characteristic exceeds `2^128` the equalities below mean the
//! same over the field as over the integers.

use vstd::prelude::*;
use crate::gate::{range_product, range_check};

verus! {

/// One constraint over cells of the witness column. A cell is named by its
/// row in that column.
#[derive(Clone, Debug, PartialEq, Eq)]
pub enum Constraint {
    /// The range-check selector is on at the row of `cell`, with the bound
    /// `range` of the range check.
    Range { cell: usize, range: usize },
    /// The cells, each with weight one, and `constant` add up to zero.
    ZeroSum { cells: Vec<usize>, constant: i64 },
    /// The two cells differ.
    NotEqual { a: usize, b: usize },
    /// `out` is one if `a` is zero, and zero otherwise.
    IsZero { a: usize, out: usize },
    /// `out` is one if `a` equals `b`, and zero otherwise.
    IsEqual { a: usize, b: usize, out: usize },
    /// At least one of the two cells is one.
    OneOrOne { a: usize, b: usize },
    /// The cell equals the public input at `row`.
    Instance { cell: usize, row: usize },
}

/// A constraint as a mathematical value.
pub enum ConstraintView {
    Range { cell: usize, range: usize },
    ZeroSum { cells: Seq<usize>, constant: i64 },
    NotEqual { a: usize, b: usize },
    IsZero { a: usize, out: usize },
    IsEqual { a: usize, b: usize, out: usize },
    OneOrOne { a: usize, b: usize },
    Instance { cell: usize, row: usize },
}

impl View for Constraint {
    type V = ConstraintView;

    open spec fn view(&self) -> ConstraintView {
        match *self {
            Constraint::Range { cell, range } => ConstraintView::Range { cell, range },
            Constraint::ZeroSum { cells, constant } => ConstraintView::ZeroSum {
                cells: cells@,
                constant,
            },
            Constraint::NotEqual { a, b } => ConstraintView::NotEqual { a, b },
            Constraint::IsZero { a, out } => ConstraintView::IsZero { a, out },
            Constraint::IsEqual { a, b, out } => ConstraintView::IsEqual { a, b, out },
            Constraint::OneOrOne { a, b } => ConstraintView::OneOrOne { a, b },
            Constraint::Instance { cell, row } => ConstraintView::Instance { cell, row },
        }
    }
}

/// The sum of the witness values at `cells`.
pub open spec fn cell_sum(witness: Seq<u64>, cells: Seq<usize>) -> int
    decreases cells.len(),
{
    if cells.len() == 0 {
        0
    } else {
        cell_sum(witness, cells.drop_last()) + witness[cells.last() as int]
    }
}

/// One for true, zero for false.
pub open spec fn indicator(b: bool) -> u64 {
    if b {
        1
    } else {
        0
    }
}

impl ConstraintView {
    /// Every cell that the constraint names is one of the first `n` rows.
    pub open spec fn within(self, n: nat) -> bool {
        match self {
            ConstraintView::Range { cell, range } => cell < n,
            ConstraintView::ZeroSum { cells, constant } => forall|i: int|
                0 <= i < cells.len() ==> #[trigger] cells[i] < n,
            ConstraintView::NotEqual { a, b } => a < n && b < n,
            ConstraintView::IsZero { a, out } => a < n && out < n,
            ConstraintView::IsEqual { a, b, out } => a < n && b < n && out < n,
            ConstraintView::OneOrOne { a, b } => a < n && b < n,
            ConstraintView::Instance { cell, row } => cell < n,
        }
    }

    /// Whether the witness and the public input meet the constraint. A
    /// constraint on a row that the witness lacks, or on a public input slot
    /// that was not supplied, is not met.
    pub open spec fn holds(self, witness: Seq<u64>, instance: Seq<u64>) -> bool {
        &&& self.within(witness.len())
        &&& match self {
            ConstraintView::Range { cell, range } => range_product(
                witness[cell as int] as int,
                range as nat,
            ) == 0,
            ConstraintView::ZeroSum { cells, constant } => cell_sum(witness, cells) + constant
                == 0,
            ConstraintView::NotEqual { a, b } => witness[a as int] != witness[b as int],
            ConstraintView::IsZero { a, out } => witness[out as int] == indicator(
                witness[a as int] == 0,
            ),
            ConstraintView::IsEqual { a, b, out } => witness[out as int] == indicator(
                witness[a as int] == witness[b as int],
            ),
            ConstraintView::OneOrOne { a, b } => witness[a as int] == 1 || witness[b as int] == 1,
            ConstraintView::Instance { cell, row } => row < instance.len() && instance[row as int]
                == witness[cell as int],
        }
    }
}

/// Whether `cells` all lie in the witness and add up, with `constant`, to zero.
fn zero_sum_holds(cells: &Vec<usize>, constant: i64, witness: &Vec<u64>) -> (ok: bool)
    ensures
        ok == (ConstraintView::ZeroSum { cells: cells@, constant }).holds(witness@, Seq::empty()),
{
    let mut acc: u128 = 0;
    let mut i: usize = 0;
    while i < cells.len()
        invariant
            0 <= i <= cells.len(),
            forall|j: int| 0 <= j < i ==> #[trigger] cells@[j] < witness@.len(),
            acc == cell_sum(witness@, cells@.take(i as int)),
            acc <= i * 0xffff_ffff_ffff_ffff,
        decreases cells.len() - i,
    {
        let c: usize = cells[i];
        if c >= witness.len() {
            return false;
        }
        proof {
            assert(cells@.take(i + 1).drop_last() =~= cells@.take(i as int));
            assert((i + 1) * 0xffff_ffff_ffff_ffff <= 0xffff_ffff_ffff_ffff * 0xffff_ffff_ffff_ffff)
                by (nonlinear_arith)
                requires
                    i + 1 <= 0xffff_ffff_ffff_ffff,
            ;
        }
        acc = acc + witness[c] as u128;
        i = i + 1;
    }
    proof {
        assert(cells@.take(i as int) =~= cells@);
    }
    if constant > 0 {
        false
    } else {
        let target: i128 = -(constant as i128);
        acc == target as u128
    }
}

impl Constraint {
    /// Evaluates the constraint on a witness column and a public input.
    pub fn holds(&self, witness: &Vec<u64>, instance: &Vec<u64>) -> (ok: bool)
        ensures
            ok == self@.holds(witness@, instance@),
    {
        let n: usize = witness.len();
        match self {
            Constraint::Range { cell, range } => *cell < n && range_check(witness[*cell], *range),
            Constraint::ZeroSum { cells, constant } => zero_sum_holds(cells, *constant, witness),
            Constraint::NotEqual { a, b } => *a < n && *b < n && witness[*a] != witness[*b],
            Constraint::IsZero { a, out } => {
                *a < n && *out < n && witness[*out] == (if witness[*a] == 0 {
                    1
                } else {
                    0
                })
            },
            Constraint::IsEqual { a, b, out } => {
                *a < n && *b < n && *out < n && witness[*out] == (if witness[*a] == witness[*b] {
                    1
                } else {
                    0
                })
            },
            Constraint::OneOrOne { a, b } => *a < n && *b < n && (witness[*a] == 1 || witness[*b]
                == 1),
            Constraint::Instance { cell, row } => *cell < n && *row < instance.len()
                && instance[*row] == witness[*cell],
        }
    }
}

/// The witness column, one value per row, and the constraints laid so far, in
/// the order in which they were laid.
#[derive(Debug)]
pub struct Region {
    pub witness: Vec<u64>,
    pub constraints: Vec<Constraint>,
}

/// A region as a mathematical value.
pub struct RegionView {
    pub witness: Seq<u64>,
    pub constraints: Seq<ConstraintView>,
}

impl View for Region {
    type V = RegionView;

    open spec fn view(&self) -> RegionView {
        RegionView {
            witness: self.witness@,
            constraints: Seq::new(self.constraints@.len(), |i: int| self.constraints@[i]@),
        }
    }
}

/// The rows of the constraints that are not met, in increasing order.
pub open spec fn failures(
    constraints: Seq<ConstraintView>,
    witness: Seq<u64>,
    instance: Seq<u64>,
) -> Seq<usize>
    decreases constraints.len(),
{
    if constraints.len() == 0 {
        Seq::empty()
    } else {
        let rest = failures(constraints.drop_last(), witness, instance);
        if constraints.last().holds(witness, instance) {
            rest
        } else {
            rest.push((constraints.len() - 1) as usize)
        }
    }
}

/// Nothing fails exactly when every constraint is met.
pub proof fn lemma_failures_empty(
    constraints: Seq<ConstraintView>,
    witness: Seq<u64>,
    instance: Seq<u64>,
)
    ensures
        failures(constraints, witness, instance).len() == 0 <==> forall|i: int|
            0 <= i < constraints.len() ==> (#[trigger] constraints[i]).holds(witness, instance),
    decreases constraints.len(),
{
    if constraints.len() > 0 {
        let front = constraints.drop_last();
        lemma_failures_empty(front, witness, instance);
        assert(forall|i: int| 0 <= i < front.len() ==> front[i] == constraints[i]);
        if failures(constraints, witness, instance).len() == 0 {
            assert forall|i: int| 0 <= i < constraints.len() implies (
            #[trigger] constraints[i]).holds(witness, instance) by {
                if i < front.len() {
                    assert(front[i].holds(witness, instance));
                }
            }
        } else if constraints.last().holds(witness, instance) {
            let i = choose|i: int|
                0 <= i < front.len() && !(#[trigger] front[i]).holds(witness, instance);
            assert(!constraints[i].holds(witness, instance));
        } else {
            assert(!constraints[constraints.len() - 1].holds(witness, instance));
        }
    }
}

impl RegionView {
    /// The region before anything is assigned or constrained.
    pub open spec fn empty() -> RegionView {
        RegionView { witness: Seq::empty(), constraints: Seq::empty() }
    }

    /// The region after `value` is assigned in the next free row.
    pub open spec fn assign(self, value: u64) -> RegionView {
        RegionView { witness: self.witness.push(value), constraints: self.constraints }
    }

    /// The region after `c` is laid.
    pub open spec fn constrain(self, c: ConstraintView) -> RegionView {
        RegionView { witness: self.witness, constraints: self.constraints.push(c) }
    }

    /// Every constraint names assigned rows only.
    pub open spec fn closed(self) -> bool {
        forall|i: int|
            0 <= i < self.constraints.len() ==> (#[trigger] self.constraints[i]).within(
                self.witness.len(),
            )
    }

    /// Every constraint is met by the witness and the public input.
    pub open spec fn satisfied(self, instance: Seq<u64>) -> bool {
        forall|i: int|
            0 <= i < self.constraints.len() ==> (#[trigger] self.constraints[i]).holds(
                self.witness,
                instance,
            )
    }
}

impl Region {
    /// A region with no row assigned and no constraint laid.
    pub fn new() -> (r: Region)
        ensures
            r@ == RegionView::empty(),
    {
        let r = Region { witness: Vec::new(), constraints: Vec::new() };
        assert(r@.constraints =~= Seq::empty());
        r
    }

    /// Lays `c` behind the constraints laid so far.
    pub fn constrain(&mut self, c: Constraint)
        ensures
            final(self)@ == old(self)@.constrain(c@),
    {
        self.constraints.push(c);
        assert(self@.constraints =~= old(self)@.constraints.push(c@));
    }

    /// Assigns `value` in the next free row and returns that row.
    pub fn assign_value(&mut self, value: u64) -> (cell: usize)
        ensures
            cell == old(self)@.witness.len(),
            final(self)@ == old(self)@.assign(value),
    {
        let cell: usize = self.witness.len();
        self.witness.push(value);
        assert(self@.constraints =~= old(self)@.constraints);
        cell
    }

    /// Turns the range-check selector on for the next row to be assigned.
    pub fn enable_range_check(&mut self, range: usize)
        ensures
            final(self)@ == old(self)@.constrain(
                ConstraintView::Range { cell: old(self)@.witness.len() as usize, range },
            ),
    {
        let cell: usize = self.witness.len();
        self.constrain(Constraint::Range { cell, range });
    }

    /// Asserts that the cells, each with weight one, and `constant` add up to
    /// zero.
    pub fn assert_zero_sum(&mut self, cells: Vec<usize>, constant: i64)
        ensures
            final(self)@ == old(self)@.constrain(
                ConstraintView::ZeroSum { cells: cells@, constant },
            ),
    {
        self.constrain(Constraint::ZeroSum { cells, constant });
    }

    /// Asserts that the two cells differ.
    pub fn assert_not_equal(&mut self, a: usize, b: usize)
        ensures
            final(self)@ == old(self)@.constrain(ConstraintView::NotEqual { a, b }),
    {
        self.constrain(Constraint::NotEqual { a, b });
    }

    /// Assigns a cell that tells whether `a` is zero, constrains it to do so,
    /// and returns it.
    pub fn is_zero(&mut self, a: usize) -> (out: usize)
        requires
            a < old(self)@.witness.len(),
        ensures
            out == old(self)@.witness.len(),
            final(self)@ == old(self)@.assign(indicator(old(self)@.witness[a as int] == 0)).constrain(
                ConstraintView::IsZero { a, out },
            ),
    {
        let bit: u64 = if self.witness[a] == 0 {
            1
        } else {
            0
        };
        let out: usize = self.assign_value(bit);
        self.constrain(Constraint::IsZero { a, out });
        out
    }

    /// Assigns a cell that tells whether `a` equals `b`, constrains it to do
    /// so, and returns it.
    pub fn is_equal(&mut self, a: usize, b: usize) -> (out: usize)
        requires
            a < old(self)@.witness.len(),
            b < old(self)@.witness.len(),
        ensures
            out == old(self)@.witness.len(),
            final(self)@ == old(self)@.assign(
                indicator(old(self)@.witness[a as int] == old(self)@.witness[b as int]),
            ).constrain(ConstraintView::IsEqual { a, b, out }),
    {
        let bit: u64 = if self.witness[a] == self.witness[b] {
            1
        } else {
            0
        };
        let out: usize = self.assign_value(bit);
        self.constrain(Constraint::IsEqual { a, b, out });
        out
    }

    /// Asserts that at least one of the two cells is one.
    pub fn one_or_one(&mut self, a: usize, b: usize)
        ensures
            final(self)@ == old(self)@.constrain(ConstraintView::OneOrOne { a, b }),
    {
        self.constrain(Constraint::OneOrOne { a, b });
    }

    /// Binds `cell` to the public input at `row`.
    pub fn constrain_instance(&mut self, cell: usize, row: usize)
        ensures
            final(self)@ == old(self)@.constrain(ConstraintView::Instance { cell, row }),
    {
        self.constrain(Constraint::Instance { cell, row });
    }

    /// Checks every constraint against the witness and the public input.
    /// Succeeds if all are met; otherwise reports the rows, in the list of
    /// constraints, of those that are not.
    pub fn verify(&self, instance: &Vec<u64>) -> (r: Result<(), Vec<usize>>)
        ensures
            r is Ok <==> self@.satisfied(instance@),
            r is Err ==> r->Err_0@ == failures(self@.constraints, self@.witness, instance@),
            r is Err ==> r->Err_0@.len() > 0,
    {
        let mut failed: Vec<usize> = Vec::new();
        let mut i: usize = 0;
        while i < self.constraints.len()
            invariant
                0 <= i <= self.constraints.len(),
                failed@ == failures(self@.constraints.take(i as int), self@.witness, instance@),
            decreases self.constraints.len() - i,
        {
            proof {
                assert(self@.constraints.take(i + 1).drop_last() =~= self@.constraints.take(
                    i as int,
                ));
            }
            if !self.constraints[i].holds(&self.witness, instance) {
                failed.push(i);
            }
            i = i + 1;
        }
        proof {
            assert(self@.constraints.take(i as int) =~= self@.constraints);
            lemma_failures_empty(self@.constraints, self@.witness, instance@);
        }
        if failed.len() == 0 {
            Ok(())
        } else {
            Err(failed)
        }
    }
}

} // verus!
