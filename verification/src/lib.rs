//! Sparse linear algebra with a verified sparse Cholesky factorization.
//!
//! The heart of the crate is the compressed-sparse-column (CSC) Cholesky
//! subsystem: from the nonzero structure of a sparse symmetric
//! positive-definite matrix it derives an elimination forest, the symbolic
//! pattern of the factor `L`, and then the numeric factor itself through a
//! left-looking decomposition, reporting loss of positive-definiteness as an
//! error rather than failing in any other way.

mod cholesky;
mod csc;
mod dense;
mod etree;
pub mod geometry;
mod pattern;
mod scalar;
pub mod structure;

pub use cholesky::CholeskyError;
pub use cholesky::CscCholesky;
pub use cholesky::CscSymbolicCholesky;
pub use cholesky::ReconstructionError;
pub use cholesky::lemma_full_diagonal;
pub use cholesky::lemma_l_u_transposed;
pub use cholesky::lemma_refactor_is_fresh;
pub use csc::CscFormatError;
pub use csc::CscMatrix;
pub use dense::DenseMatrix;
pub use pattern::SparsityPattern;
pub use pattern::SparsityPatternFormatError;
pub use scalar::Real;
