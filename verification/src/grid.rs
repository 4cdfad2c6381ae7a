//! A two-dimensional array of small integers, stored in an `ndarray` array.
//!
//! The array itself is opaque to the verifier. What it holds is named by three
//! specification functions, and every operation on it is a thin call into
//! `ndarray` whose contract is stated over those names and taken on trust.

use vstd::prelude::*;

verus! {

/// A rectangular grid of bytes, the form in which boards are handed in.
#[verifier::external_body]
#[derive(Debug, PartialEq, Eq)]
pub struct Grid {
    cells: ndarray::Array2<u8>,
}

/// `ndarray::ShapeError`, carried through as an opaque value.
#[verifier::external_type_specification]
#[verifier::external_body]
pub struct ExShapeError(ndarray::ShapeError);

/// The elements of the grid in logical order: row by row, the column index
/// varying fastest.
pub uninterp spec fn grid_cells(g: Grid) -> Seq<u8>;

/// The length of the grid's first axis.
pub uninterp spec fn grid_nrows(g: Grid) -> nat;

/// The length of the grid's second axis.
pub uninterp spec fn grid_ncols(g: Grid) -> nat;

/// Why a grid could not be built.
#[derive(Clone, Copy, Debug, PartialEq, Eq, Structural)]
pub enum GridError {
    /// The number of elements is not the product of the two axis lengths, or
    /// one axis is empty and the other longer than `isize::MAX`.
    IncompatibleShape,
}

/// Whether `len` elements make a grid of `nrows` rows and `ncols` columns:
/// they fill the shape exactly, and beside an empty axis the other is no
/// longer than `isize::MAX`.
pub open spec fn shape_fits(nrows: usize, ncols: usize, len: nat) -> bool {
    &&& nrows * ncols == len
    &&& nrows == 0 ==> ncols <= isize::MAX
    &&& ncols == 0 ==> nrows <= isize::MAX
}

/// `Array2::from_shape_vec` with a plain two-axis shape. It succeeds exactly
/// when the elements fill the shape and the product of the axis lengths
/// that are not zero is at most `isize::MAX`, which for as many elements
/// as a vector can hold is the condition `shape_fits`. The array then has
/// the shape given and holds the elements in the order given.
#[verifier::external_body]
fn array_from_shape_vec(nrows: usize, ncols: usize, v: Vec<u8>) -> (r: Result<
    Grid,
    ndarray::ShapeError,
>)
    ensures
        r is Ok <==> shape_fits(nrows, ncols, v@.len()),
        r is Ok ==> grid_nrows(r->Ok_0) == nrows && grid_ncols(r->Ok_0) == ncols && grid_cells(
            r->Ok_0,
        ) == v@,
{
    match ndarray::Array2::from_shape_vec((nrows, ncols), v) {
        Ok(cells) => Ok(Grid { cells }),
        Err(e) => Err(e),
    }
}

/// `ArrayBase::dim` on a two-dimensional array: the lengths of the two axes,
/// whose product is the number of elements.
#[verifier::external_body]
fn array_dim(g: &Grid) -> (d: (usize, usize))
    ensures
        d.0 == grid_nrows(*g),
        d.1 == grid_ncols(*g),
        grid_cells(*g).len() == d.0 * d.1,
{
    g.cells.dim()
}

/// `ArrayBase::iter`, collected: the elements in logical order.
#[verifier::external_body]
fn array_iter(g: &Grid) -> (v: Vec<u8>)
    ensures
        v@ == grid_cells(*g),
{
    g.cells.iter().copied().collect()
}

/// `Default::default` of a two-dimensional array: no rows, no columns, no
/// elements.
#[verifier::external_body]
fn array_default() -> (g: Grid)
    ensures
        grid_nrows(g) == 0,
        grid_ncols(g) == 0,
        grid_cells(g) == Seq::<u8>::empty(),
{
    Grid { cells: Default::default() }
}

impl Grid {
    /// Builds a grid of `shape.0` rows and `shape.1` columns from its elements
    /// in row-major order.
    pub fn from_shape_vec(shape: (usize, usize), v: Vec<u8>) -> (r: Result<Grid, GridError>)
        ensures
            r is Ok <==> shape_fits(shape.0, shape.1, v@.len()),
            r is Err ==> r->Err_0 == GridError::IncompatibleShape,
            r is Ok ==> grid_nrows(r->Ok_0) == shape.0 && grid_ncols(r->Ok_0) == shape.1
                && grid_cells(r->Ok_0) == v@,
    {
        match array_from_shape_vec(shape.0, shape.1, v) {
            Ok(g) => Ok(g),
            Err(_) => Err(GridError::IncompatibleShape),
        }
    }

    /// The number of rows and the number of columns.
    pub fn dim(&self) -> (d: (usize, usize))
        ensures
            d.0 == grid_nrows(*self),
            d.1 == grid_ncols(*self),
            grid_cells(*self).len() == d.0 * d.1,
    {
        array_dim(self)
    }

    /// The elements in row-major order.
    pub fn to_vec(&self) -> (v: Vec<u8>)
        ensures
            v@ == grid_cells(*self),
    {
        array_iter(self)
    }
}

impl Default for Grid {
    /// The empty grid.
    fn default() -> (g: Grid)
        ensures
            grid_nrows(g) == 0,
            grid_ncols(g) == 0,
            grid_cells(g) == Seq::<u8>::empty(),
    {
        array_default()
    }
}

} // verus!
