//! Dense column-major matrices: the right-hand sides and solutions of the
//! triangular solves backed by a sparse Cholesky factorization.

use vstd::prelude::*;

verus! {

/// A dense matrix stored as a vector of equally long columns.
#[derive(Debug)]
pub struct DenseMatrix<T> {
    pub(crate) nrows: usize,
    pub(crate) columns: Vec<Vec<T>>,
}

impl<T> DenseMatrix<T> {
    /// The structural invariant: every column has exactly `nrows` entries.
    pub open(crate) spec fn wf(&self) -> bool {
        forall|c: int| 0 <= c < self.columns@.len() ==> #[trigger] self.columns@[c]@.len()
            == self.nrows
    }

    /// The number of rows, for specifications.
    pub open(crate) spec fn spec_nrows(&self) -> int {
        self.nrows as int
    }

    /// The number of columns, for specifications.
    pub open(crate) spec fn spec_ncols(&self) -> int {
        self.columns@.len() as int
    }

    /// The columns, for specifications.
    pub open(crate) spec fn spec_columns(&self) -> Seq<Vec<T>> {
        self.columns@
    }

    /// The entry at row `r` of column `c`, for specifications.
    pub open(crate) spec fn entry(&self, r: int, c: int) -> T {
        self.columns@[c]@[r]
    }

    /// The number of rows.
    pub fn nrows(&self) -> (n: usize)
        ensures
            n == self.spec_nrows(),
    {
        self.nrows
    }

    /// The number of columns.
    pub fn ncols(&self) -> (n: usize)
        ensures
            n == self.spec_ncols(),
    {
        self.columns.len()
    }

    /// Validated construction from columns: succeeds exactly when every
    /// column has `nrows` entries.
    pub fn try_from_columns(nrows: usize, columns: Vec<Vec<T>>) -> (result: Result<
        DenseMatrix<T>,
        (),
    >)
        ensures
            match result {
                Ok(m) => {
                    &&& m.wf()
                    &&& m.spec_nrows() == nrows
                    &&& m.spec_columns() == columns@
                },
                Err(()) => !(forall|c: int|
                    0 <= c < columns@.len() ==> (#[trigger] columns@[c])@.len() == nrows),
            },
            result is Ok <==> (forall|c: int|
                0 <= c < columns@.len() ==> (#[trigger] columns@[c])@.len() == nrows),
    {
        let ncols = columns.len();
        let mut c: usize = 0;
        while c < ncols
            invariant
                c <= ncols,
                ncols == columns@.len(),
                forall|t: int| 0 <= t < c ==> #[trigger] columns@[t]@.len() == nrows,
            decreases ncols - c,
        {
            if columns[c].len() != nrows {
                return Err(());
            }
            c += 1;
        }
        Ok(DenseMatrix { nrows, columns })
    }

    /// Reads the entry at row `r` of column `c`.
    pub fn get(&self, r: usize, c: usize) -> (v: &T)
        requires
            self.wf(),
            c < self.spec_ncols(),
            r < self.spec_nrows(),
        ensures
            *v == self.entry(r as int, c as int),
    {
        &self.columns[c][r]
    }

    /// Dismantles the matrix into its columns.
    pub fn into_columns(self) -> (columns: Vec<Vec<T>>)
        ensures
            columns@ == self.spec_columns(),
    {
        self.columns
    }
}

} // verus!
