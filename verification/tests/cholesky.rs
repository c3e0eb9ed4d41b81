use sparse_linalg::CholeskyError;
use sparse_linalg::CscCholesky;
use sparse_linalg::CscFormatError;
use sparse_linalg::CscMatrix;
use sparse_linalg::CscSymbolicCholesky;
use sparse_linalg::DenseMatrix;
use sparse_linalg::Real;
use sparse_linalg::ReconstructionError;
use sparse_linalg::SparsityPattern;
use sparse_linalg::SparsityPatternFormatError;

/// Plain double-precision arithmetic as the scalar field of the tests.
#[derive(Clone, Debug, PartialEq)]
struct F(f64);

impl Real for F {
    fn zero_spec() -> Self {
        F(0.0)
    }

    fn neg_spec(&self) -> Self {
        F(-self.0)
    }

    fn add_spec(&self, other: &Self) -> Self {
        F(self.0 + other.0)
    }

    fn mul_spec(&self, other: &Self) -> Self {
        F(self.0 * other.0)
    }

    fn div_spec(&self, other: &Self) -> Self {
        F(self.0 / other.0)
    }

    fn sqrt_spec(&self) -> Self {
        F(self.0.sqrt())
    }

    fn is_positive_spec(&self) -> bool {
        self.0 > 0.0
    }

    fn zero() -> Self {
        F(0.0)
    }

    fn copy_value(&self) -> Self {
        F(self.0)
    }

    fn neg(&self) -> Self {
        F(-self.0)
    }

    fn add(&self, other: &Self) -> Self {
        F(self.0 + other.0)
    }

    fn mul(&self, other: &Self) -> Self {
        F(self.0 * other.0)
    }

    fn div(&self, other: &Self) -> Self {
        F(self.0 / other.0)
    }

    fn sqrt(&self) -> Self {
        F(self.0.sqrt())
    }

    fn is_positive(&self) -> bool {
        self.0 > 0.0
    }
}

fn pattern(
    major: usize,
    minor: usize,
    offsets: Vec<usize>,
    indices: Vec<usize>,
) -> SparsityPattern {
    SparsityPattern::try_from_offsets_and_indices(major, minor, offsets, indices).unwrap()
}

fn fvec(values: Vec<f64>) -> Vec<F> {
    values.into_iter().map(F).collect()
}

/// The mirrored symmetric 5x5 example matrix, in CSC form.
fn example_matrix() -> CscMatrix<F> {
    let p = pattern(
        5,
        5,
        vec![0, 4, 6, 8, 10, 13],
        vec![0, 1, 2, 4, 0, 1, 0, 2, 3, 4, 0, 3, 4],
    );
    let values = fvec(vec![
        40.0, 2.0, 1.0, 1.0, 2.0, 60.0, 1.0, 11.0, 50.0, 4.0, 1.0, 4.0, 10.0,
    ]);
    CscMatrix::try_from_pattern_and_values(p, values).unwrap()
}

fn example_dense() -> Vec<Vec<f64>> {
    vec![
        vec![40.0, 2.0, 1.0, 0.0, 1.0],
        vec![2.0, 60.0, 0.0, 0.0, 0.0],
        vec![1.0, 0.0, 11.0, 0.0, 0.0],
        vec![0.0, 0.0, 0.0, 50.0, 4.0],
        vec![1.0, 0.0, 0.0, 4.0, 10.0],
    ]
}

/// The diagonal example matrix diag(40, 60, 11, 50, 10).
fn diagonal_matrix() -> CscMatrix<F> {
    let p = pattern(5, 5, vec![0, 1, 2, 3, 4, 5], vec![0, 1, 2, 3, 4]);
    let values = fvec(vec![40.0, 60.0, 11.0, 50.0, 10.0]);
    CscMatrix::try_from_pattern_and_values(p, values).unwrap()
}

/// Reads the factor `L` of a factorization out into a dense row-major grid.
fn dense_l(chol: &CscCholesky<F>) -> Vec<Vec<f64>> {
    let l = chol.l();
    let n = l.nrows();
    let offsets = l.pattern().major_offsets().clone();
    let indices = l.pattern().minor_indices().clone();
    let values = l.values();
    let mut out = vec![vec![0.0; n]; n];
    for j in 0..n {
        for t in offsets[j]..offsets[j + 1] {
            out[indices[t]][j] = values[t].0;
        }
    }
    out
}

fn approx(a: f64, b: f64, tol: f64) -> bool {
    (a - b).abs() <= tol
}

#[test]
fn pattern_accessors_and_lanes() {
    let p = pattern(3, 4, vec![0, 2, 2, 3], vec![1, 3, 0]);
    assert_eq!(p.major_dim(), 3);
    assert_eq!(p.minor_dim(), 4);
    assert_eq!(p.nnz(), 3);
    assert_eq!(p.lane(0), &[1usize, 3][..]);
    assert_eq!(p.lane(1), &[][..] as &[usize]);
    assert_eq!(p.lane(2), &[0usize][..]);
}

#[test]
fn pattern_validation_errors() {
    let e = SparsityPattern::try_from_offsets_and_indices(2, 2, vec![0, 1], vec![0]);
    assert_eq!(e.unwrap_err(), SparsityPatternFormatError::InvalidOffsetArrayLength);
    let e = SparsityPattern::try_from_offsets_and_indices(2, 2, vec![1, 1, 1], vec![0]);
    assert_eq!(e.unwrap_err(), SparsityPatternFormatError::InvalidOffsetFirstEntry);
    let e = SparsityPattern::try_from_offsets_and_indices(2, 2, vec![0, 1, 3], vec![0, 1]);
    assert_eq!(e.unwrap_err(), SparsityPatternFormatError::InvalidOffsetLastEntry);
    let e = SparsityPattern::try_from_offsets_and_indices(2, 2, vec![0, 2, 1], vec![0]);
    assert_eq!(e.unwrap_err(), SparsityPatternFormatError::NonmonotonicOffsets);
    let e = SparsityPattern::try_from_offsets_and_indices(2, 2, vec![0, 1, 2], vec![0, 2]);
    assert_eq!(e.unwrap_err(), SparsityPatternFormatError::MinorIndexOutOfBounds);
    let e = SparsityPattern::try_from_offsets_and_indices(2, 2, vec![0, 2, 2], vec![1, 0]);
    assert_eq!(e.unwrap_err(), SparsityPatternFormatError::NonmonotonicMinorIndices);
}

#[test]
fn csc_value_count_must_match() {
    let p = pattern(2, 2, vec![0, 1, 2], vec![0, 1]);
    let r = CscMatrix::try_from_pattern_and_values(p, fvec(vec![1.0]));
    assert_eq!(r.unwrap_err(), CscFormatError::ValueCountMismatch);
}

#[test]
fn transpose_mirrors_entries() {
    let p = pattern(3, 2, vec![0, 2, 3, 4], vec![0, 1, 1, 0]);
    let t = p.transpose();
    assert_eq!(t.major_dim(), 2);
    assert_eq!(t.minor_dim(), 3);
    assert_eq!(t.nnz(), p.nnz());
    assert_eq!(t.lane(0), &[0usize, 2][..]);
    assert_eq!(t.lane(1), &[0usize, 1][..]);
    let back = t.transpose();
    assert_eq!(back, p);
}

#[test]
fn symbolic_l_and_u_are_transposes() {
    let symbolic = CscSymbolicCholesky::factor(example_matrix().pattern().clone());
    let (_, l, u) = {
        let (m, l, u) = symbolic.parts();
        (m.clone(), l.clone(), u.clone())
    };
    assert_eq!(l.nnz(), u.nnz());
    assert_eq!(l.transpose(), u);
    assert_eq!(u.transpose(), l);
}

#[test]
fn symbolic_factorization_is_deterministic() {
    let p = example_matrix().pattern().clone();
    let s1 = CscSymbolicCholesky::factor(p.clone());
    let s2 = CscSymbolicCholesky::factor(p);
    assert_eq!(s1.l_pattern(), s2.l_pattern());
    let (m1, l1, u1) = s1.into_parts();
    let (m2, l2, u2) = s2.into_parts();
    assert_eq!(m1, m2);
    assert_eq!(l1, l2);
    assert_eq!(u1, u2);
}

#[test]
fn factor_reconstructs_the_matrix() {
    let a = example_matrix();
    let chol = CscCholesky::factor(&a).unwrap();
    let l = dense_l(&chol);
    let dense = example_dense();
    for i in 0..5 {
        for j in 0..5 {
            let mut sum = 0.0;
            for k in 0..5 {
                sum += l[i][k] * l[j][k];
            }
            assert!(
                approx(sum, dense[i][j], 1e-9),
                "entry ({}, {}): {} vs {}",
                i,
                j,
                sum,
                dense[i][j]
            );
        }
    }
}

#[test]
fn diagonal_matrix_factors_to_sqrt_diagonal() {
    let a = diagonal_matrix();
    let chol = CscCholesky::factor(&a).unwrap();
    let l = chol.l();
    assert_eq!(l.nnz(), 5);
    let expected = [40.0f64, 60.0, 11.0, 50.0, 10.0];
    for k in 0..5 {
        assert_eq!(l.pattern().lane(k), &[k][..]);
        assert!(approx(l.values()[k].0, expected[k].sqrt(), 1e-12));
    }
    let dl = dense_l(&chol);
    for i in 0..5 {
        for j in 0..5 {
            if i != j {
                assert_eq!(dl[i][j], 0.0);
            }
        }
    }
}

#[test]
fn non_positive_pivot_is_reported() {
    let p = pattern(2, 2, vec![0, 1, 2], vec![0, 1]);
    let a = CscMatrix::try_from_pattern_and_values(p, fvec(vec![1.0, -4.0])).unwrap();
    let r = CscCholesky::factor(&a);
    assert_eq!(r.unwrap_err(), CholeskyError::NotPositiveDefinite);

    let zero = CscMatrix::try_from_pattern_and_values(
        pattern(1, 1, vec![0, 1], vec![0]),
        fvec(vec![0.0]),
    )
    .unwrap();
    assert_eq!(CscCholesky::factor(&zero).unwrap_err(), CholeskyError::NotPositiveDefinite);
}

#[test]
fn refactor_matches_fresh_factorization() {
    let a = example_matrix();
    let symbolic = CscSymbolicCholesky::factor(a.pattern().clone());
    let mut chol = CscCholesky::factor_numerical(symbolic, a.values()).unwrap();

    let new_values = fvec(vec![
        80.0, 3.0, 2.0, 2.0, 3.0, 70.0, 2.0, 21.0, 90.0, 5.0, 2.0, 5.0, 30.0,
    ]);
    chol.refactor(&new_values).unwrap();

    let symbolic2 = CscSymbolicCholesky::factor(a.pattern().clone());
    let fresh = CscCholesky::factor_numerical(symbolic2, &new_values).unwrap();

    assert_eq!(chol.l().pattern(), fresh.l().pattern());
    assert_eq!(chol.l().values(), fresh.l().values());
}

#[test]
fn solve_reproduces_right_hand_side() {
    let a = example_matrix();
    let chol = CscCholesky::factor(&a).unwrap();
    let b = vec![1.0f64, -2.0, 3.0, 0.5, 7.0];
    let bmat = DenseMatrix::try_from_columns(5, vec![fvec(b.clone())]).unwrap();
    let x = chol.solve(&bmat);
    assert_eq!(x.nrows(), 5);
    assert_eq!(x.ncols(), 1);
    let dense = example_dense();
    for i in 0..5 {
        let mut sum = 0.0;
        for j in 0..5 {
            sum += dense[i][j] * x.get(j, 0).0;
        }
        assert!(approx(sum, b[i], 1e-9), "row {}: {} vs {}", i, sum, b[i]);
    }
}

#[test]
fn solve_accepts_multiple_columns() {
    let a = example_matrix();
    let chol = CscCholesky::factor(&a).unwrap();
    let b1 = vec![1.0f64, 0.0, 0.0, 0.0, 0.0];
    let b2 = vec![0.0f64, 1.0, 2.0, 3.0, 4.0];
    let mut bmat =
        DenseMatrix::try_from_columns(5, vec![fvec(b1.clone()), fvec(b2.clone())]).unwrap();
    chol.solve_mut(&mut bmat);
    let dense = example_dense();
    let cols = [b1, b2];
    for (c, b) in cols.iter().enumerate() {
        for i in 0..5 {
            let mut sum = 0.0;
            for j in 0..5 {
                sum += dense[i][j] * bmat.get(j, c).0;
            }
            assert!(approx(sum, b[i], 1e-9));
        }
    }
}

#[test]
fn dense_matrix_rejects_ragged_columns() {
    let r = DenseMatrix::try_from_columns(2, vec![fvec(vec![1.0, 2.0]), fvec(vec![3.0])]);
    assert!(r.is_err());
}

#[test]
fn symbolic_roundtrip_and_validation() {
    let symbolic = CscSymbolicCholesky::factor(example_matrix().pattern().clone());
    let (m, l, u) = symbolic.into_parts();
    let rebuilt =
        CscSymbolicCholesky::try_from_parts(m.clone(), l.clone(), u.clone()).unwrap();
    let (m2, l2, u2) = rebuilt.into_parts();
    assert_eq!(m, m2);
    assert_eq!(l, l2);
    assert_eq!(u, u2);

    let non_square = pattern(2, 3, vec![0, 1, 2], vec![0, 1]);
    let e = CscSymbolicCholesky::try_from_parts(m.clone(), non_square, u.clone());
    assert_eq!(e.unwrap_err(), ReconstructionError::NotSquare);

    let wrong_dim = pattern(2, 2, vec![0, 1, 2], vec![0, 1]);
    let e = CscSymbolicCholesky::try_from_parts(m, wrong_dim, u);
    assert_eq!(e.unwrap_err(), ReconstructionError::DimensionMismatch);
}

#[test]
fn csc_cholesky_roundtrip() {
    let a = diagonal_matrix();
    let chol = CscCholesky::factor(&a).unwrap();
    let (m, l, u, work_x, work_c) = chol.into_parts();
    let rebuilt = CscCholesky::try_from_parts(
        m.clone(),
        CscMatrix::try_from_pattern_and_values(l.pattern().clone(), l.values().clone())
            .unwrap(),
        u.clone(),
        work_x.clone(),
        work_c.clone(),
    )
    .unwrap();
    let (m2, l2, u2, work_x2, work_c2) = rebuilt.into_parts();
    assert_eq!(m, m2);
    assert_eq!(l.pattern(), l2.pattern());
    assert_eq!(l.values(), l2.values());
    assert_eq!(u, u2);
    assert_eq!(work_x, work_x2);
    assert_eq!(work_c, work_c2);

    let short_scratch = fvec(vec![0.0; 3]);
    let e = CscCholesky::try_from_parts(m, l, u, short_scratch, work_c);
    assert_eq!(e.unwrap_err(), ReconstructionError::WorkspaceLength);
}

#[test]
fn solving_after_roundtrip_still_works() {
    let a = example_matrix();
    let chol = CscCholesky::factor(&a).unwrap();
    let (m, l, u, work_x, work_c) = chol.into_parts();
    let mut rebuilt = CscCholesky::try_from_parts(m, l, u, work_x, work_c).unwrap();
    rebuilt.refactor(a.values()).unwrap();
    let bmat = DenseMatrix::try_from_columns(5, vec![fvec(vec![5.0, 4.0, 3.0, 2.0, 1.0])])
        .unwrap();
    let x = rebuilt.solve(&bmat);
    let dense = example_dense();
    for i in 0..5 {
        let mut sum = 0.0;
        for j in 0..5 {
            sum += dense[i][j] * x.get(j, 0).0;
        }
        assert!(approx(sum, [5.0, 4.0, 3.0, 2.0, 1.0][i], 1e-9));
    }
}

#[test]
fn take_l_and_symbolic_projection() {
    let a = example_matrix();
    let chol = CscCholesky::factor(&a).unwrap();
    let symbolic = chol.symbolic_factorization();
    assert_eq!(symbolic.l_pattern(), chol.l().pattern());
    let symbolic2 = CscCholesky::factor(&a).unwrap().into_symbolic_factorization();
    assert_eq!(symbolic.l_pattern(), symbolic2.l_pattern());
    let l = chol.take_l();
    assert_eq!(l.pattern(), symbolic2.l_pattern());
}

#[test]
fn elimination_fill_in_appears_in_l() {
    // An arrow-shaped matrix: dense first column, diagonal elsewhere. Its
    // factor keeps the arrow, and the symbolic pattern of a path-shaped
    // matrix stays banded.
    let p = pattern(
        4,
        4,
        vec![0, 4, 6, 8, 10],
        vec![0, 1, 2, 3, 0, 1, 0, 2, 0, 3],
    );
    let symbolic = CscSymbolicCholesky::factor(p);
    let l = symbolic.l_pattern();
    assert_eq!(l.lane(0), &[0usize, 1, 2, 3][..]);
    // Row 0 couples every pair of later columns, so the factor fills in.
    assert_eq!(l.lane(1), &[1usize, 2, 3][..]);
    assert_eq!(l.lane(2), &[2usize, 3][..]);
    assert_eq!(l.lane(3), &[3usize][..]);
}

#[test]
fn factorization_clones_are_equal() {
    let a = example_matrix();
    let chol = CscCholesky::factor(&a).unwrap();
    let copy = chol.clone();
    assert_eq!(chol.l().pattern(), copy.l().pattern());
    assert_eq!(chol.l().values(), copy.l().values());
    let symbolic = chol.symbolic_factorization();
    let symbolic_copy = symbolic.clone();
    assert_eq!(symbolic, symbolic_copy);
    assert_ne!(
        symbolic,
        CscSymbolicCholesky::factor(diagonal_matrix().pattern().clone())
    );
}

#[test]
fn failed_pass_leaves_no_residue() {
    let a = example_matrix();
    let symbolic = CscSymbolicCholesky::factor(a.pattern().clone());
    let mut chol = CscCholesky::factor_numerical(symbolic, a.values()).unwrap();

    let mut bad = a.values().clone();
    bad[7] = F(-11.0);
    assert_eq!(chol.refactor(&bad).unwrap_err(), CholeskyError::NotPositiveDefinite);

    chol.refactor(a.values()).unwrap();
    let fresh = CscCholesky::factor(&a).unwrap();
    assert_eq!(chol.l().values(), fresh.l().values());

    let mut twice = CscCholesky::factor(&a).unwrap();
    twice.refactor(a.values()).unwrap();
    assert_eq!(twice.l().values(), fresh.l().values());
}

#[test]
fn validators_decide_the_cross_checks() {
    let a = example_matrix();
    let symbolic = CscSymbolicCholesky::factor(a.pattern().clone());
    assert!(symbolic.validate());
    let chol = CscCholesky::factor_numerical(symbolic, a.values()).unwrap();
    assert!(chol.validate());

    // Same dimensions, individually valid, but the factor patterns are not
    // transposes of one another: reconstruction accepts it, validation not.
    let m = pattern(2, 2, vec![0, 1, 2], vec![0, 1]);
    let l = pattern(2, 2, vec![0, 2, 3], vec![0, 1, 1]);
    let u = pattern(2, 2, vec![0, 1, 2], vec![0, 1]);
    let rebuilt = CscSymbolicCholesky::try_from_parts(m, l, u).unwrap();
    assert!(!rebuilt.validate());
}
