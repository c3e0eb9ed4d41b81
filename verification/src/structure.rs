//! Traits giving structural information on linear algebra objects or the
//! space they live in.
//!
//! These traits are declarations only: they name the shape-level operations
//! a matrix or vector type may offer, for downstream implementors. None of
//! the factorization code depends on them.

use vstd::prelude::*;

verus! {

/// Objects that can be created from an object of type `T`.
pub trait Cast<T>: Sized {
    /// Converts an element of type `T` to an element of `Self`.
    fn from(t: T) -> Self;
}

/// Types that can construct an identity matrix of a given dimension.
pub trait Eye: Sized {
    /// The identity matrix of the given dimension.
    fn new_identity(dim: usize) -> Self;
}

/// Types that have a minimum and a maximum value.
pub trait Bounded: Sized {
    /// The minimum value.
    fn min_value() -> Self;

    /// The maximum value.
    fn max_value() -> Self;
}

/// Access to the rows of a matrix or vector.
pub trait Row {
    /// The type of a row.
    type Row;

    /// The number of rows of this object.
    fn nrows(&self) -> usize;

    /// Reads the `i`-th row of this object.
    fn row(&self, i: usize) -> Self::Row;

    /// Writes the `i`-th row of this object.
    fn set_row(&mut self, i: usize, row: Self::Row);
}

/// Access to the columns of a matrix or vector.
pub trait Col {
    /// The type of a column.
    type Column;

    /// The number of columns of this object.
    fn ncols(&self) -> usize;

    /// Reads the `i`-th column of this object.
    fn col(&self, i: usize) -> Self::Column;

    /// Writes the `i`-th column of this object.
    fn set_col(&mut self, i: usize, col: Self::Column);
}

/// Access to part of a column of a matrix.
pub trait ColSlice {
    /// The type of a column view.
    type ColSlice;

    /// A view of a slice of the given column.
    fn col_slice(&self, col_id: usize, row_start: usize, row_end: usize) -> Self::ColSlice;
}

/// Access to part of a row of a matrix.
pub trait RowSlice {
    /// The type of a row view.
    type RowSlice;

    /// A view of a slice of the given row.
    fn row_slice(&self, row_id: usize, col_start: usize, col_end: usize) -> Self::RowSlice;
}

/// Objects with a spatial dimension known at compile time.
pub trait Dim: Sized {
    /// The dimension of the object.
    fn dim(witness: Option<Self>) -> usize;
}

/// Access to the diagonal of a square matrix.
pub trait Diag: Sized {
    /// The type of the diagonal.
    type DiagonalType;

    /// Creates a new matrix with the given diagonal.
    fn from_diag(diag: &Self::DiagonalType) -> Self;

    /// Sets the diagonal of this matrix.
    fn set_diag(&mut self, diag: &Self::DiagonalType);

    /// The diagonal of this matrix.
    fn diag(&self) -> Self::DiagonalType;
}

/// Relates a point of an affine space to a vector of the associated vector
/// space.
pub trait PntAsVec: Sized {
    /// The type of the associated vector.
    type VectorType;

    /// Converts this point to its associated vector.
    fn to_vec(self) -> Self::VectorType;

    /// Borrows this point as its associated vector.
    fn as_vec(&self) -> &Self::VectorType;

    /// Sets the coordinates of this point to match those of a given vector.
    fn set_coords(&mut self, coords: Self::VectorType);
}

} // verus!
