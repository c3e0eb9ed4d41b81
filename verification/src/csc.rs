//! Sparse matrices in compressed-sparse-column form: a sparsity pattern
//! paired with one stored value per structural nonzero.

use vstd::prelude::*;
use crate::pattern::SparsityPattern;

verus! {

/// A sparse matrix in compressed-sparse-column (CSC) storage: columns are the
/// major dimension of the pattern, and `values` holds one entry per stored
/// index, in the same order.
#[derive(Debug)]
pub struct CscMatrix<T> {
    pub(crate) pattern: SparsityPattern,
    pub(crate) values: Vec<T>,
}

/// The way a pattern-and-values pair can fail to form a CSC matrix.
#[derive(Debug, Clone, Copy, PartialEq, Eq, Structural)]
pub enum CscFormatError {
    /// The number of values differs from the number of stored indices.
    ValueCountMismatch,
}

impl<T> CscMatrix<T> {
    /// The structural invariant: a well-formed pattern and exactly one value
    /// per stored entry.
    pub open(crate) spec fn wf(&self) -> bool {
        &&& self.pattern.wf()
        &&& self.values@.len() == self.pattern.spec_nnz()
    }

    /// The pattern, for specifications.
    pub open(crate) spec fn spec_pattern(&self) -> SparsityPattern {
        self.pattern
    }

    /// The values, for specifications.
    pub open(crate) spec fn spec_values(&self) -> Seq<T> {
        self.values@
    }

    /// The number of rows, for specifications.
    pub open(crate) spec fn spec_nrows(&self) -> int {
        self.pattern.dim_minor()
    }

    /// The number of columns, for specifications.
    pub open(crate) spec fn spec_ncols(&self) -> int {
        self.pattern.dim_major()
    }

    /// The number of rows.
    pub fn nrows(&self) -> (n: usize)
        ensures
            n == self.spec_nrows(),
    {
        self.pattern.minor_dim()
    }

    /// The number of columns.
    pub fn ncols(&self) -> (n: usize)
        ensures
            n == self.spec_ncols(),
    {
        self.pattern.major_dim()
    }

    /// The number of stored entries.
    pub fn nnz(&self) -> (n: usize)
        ensures
            n == self.spec_pattern().spec_nnz(),
    {
        self.pattern.nnz()
    }

    /// The sparsity pattern.
    pub fn pattern(&self) -> (p: &SparsityPattern)
        ensures
            *p == self.spec_pattern(),
    {
        &self.pattern
    }

    /// The stored values, in pattern order.
    pub fn values(&self) -> (v: &Vec<T>)
        ensures
            v@ == self.spec_values(),
    {
        &self.values
    }

    /// Validated construction: succeeds exactly when the value count matches
    /// the number of stored entries of the (already validated) pattern.
    #[verifier::rlimit(50)]
    pub fn try_from_pattern_and_values(pattern: SparsityPattern, values: Vec<T>) -> (result: Result<
        CscMatrix<T>,
        CscFormatError,
    >)
        requires
            pattern.wf(),
        ensures
            match result {
                Ok(m) => {
                    &&& m.wf()
                    &&& m.spec_pattern() == pattern
                    &&& m.spec_values() == values@
                    &&& values@.len() == pattern.spec_nnz()
                },
                Err(e) => {
                    &&& e == CscFormatError::ValueCountMismatch
                    &&& values@.len() != pattern.spec_nnz()
                },
            },
    {
        if values.len() != pattern.nnz() {
            return Err(CscFormatError::ValueCountMismatch);
        }
        Ok(CscMatrix { pattern, values })
    }

    /// Dismantles the matrix into its pattern and its values.
    pub fn into_pattern_and_values(self) -> (pv: (SparsityPattern, Vec<T>))
        ensures
            pv.0 == self.spec_pattern(),
            pv.1@ == self.spec_values(),
    {
        let CscMatrix { pattern, values } = self;
        (pattern, values)
    }
}

} // verus!
