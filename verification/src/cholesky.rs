//! Sparse Cholesky factorization of CSC matrices: the symbolic phase, which
//! derives the structure of the factor `L`, and the numeric phase, which
//! fills it by a left-looking decomposition and backs the triangular solves.

use vstd::prelude::*;
use crate::pattern::SparsityPattern;
use crate::pattern::count_lt;
use crate::pattern::lemma_contains_iff_lane;
use crate::pattern::lemma_count_lt_bound;
use crate::pattern::lemma_count_lt_step;
use crate::pattern::lemma_count_lt_zero;
use crate::pattern::lemma_lane_seq_strict;
use crate::pattern::lemma_offsets_monotone;
use crate::csc::CscMatrix;
use crate::dense::DenseMatrix;
use crate::etree::nonzero_pattern;
use crate::scalar::Real;

verus! {

/// The structural relation between the three patterns of a Cholesky
/// factorization over an `n × n` matrix: all three square of the same
/// dimension, the `L` and `U = L^T` patterns exact transposes of one another
/// with equally many entries, and every lane `k` of the `U` pattern confined
/// to indices at most `k` (`L` is lower triangular).
#[verifier::opaque]
pub open(crate) spec fn factor_patterns_wf(
    m: &SparsityPattern,
    l: &SparsityPattern,
    u: &SparsityPattern,
) -> bool {
    &&& m.wf()
    &&& l.wf()
    &&& u.wf()
    &&& m.dim_major() == m.dim_minor()
    &&& l.dim_major() == m.dim_major()
    &&& l.dim_minor() == m.dim_major()
    &&& u.dim_major() == m.dim_major()
    &&& u.dim_minor() == m.dim_major()
    &&& l.spec_nnz() == u.spec_nnz()
    &&& forall|a: int, b: int|
        #![trigger l.contains_entry(a, b)]
        0 <= a < m.dim_major() && 0 <= b < m.dim_major() ==> (l.contains_entry(a, b)
            <==> u.contains_entry(b, a))
    &&& forall|k: int, t: int|
        #![trigger u.offsets()[k], u.indices()[t]]
        0 <= k < m.dim_major() && u.offsets()[k] <= t < u.offsets()[k + 1] ==> u.indices()[t] <= k
}

/// The `U` pattern covers the matrix pattern's stored lower triangle:
/// every stored entry at or below the diagonal reappears in it.
pub open(crate) spec fn covers_lower_triangle(m: &SparsityPattern, u: &SparsityPattern) -> bool {
    forall|a: int, b: int|
        #![trigger m.contains_entry(a, b)]
        0 <= b <= a < m.dim_major() && m.contains_entry(a, b) ==> u.contains_entry(a, b)
}

/// A symbolic sparse Cholesky factorization: the nonzero structure of the
/// factor `L` (and of `L^T`) derived from the structure of the matrix alone,
/// reusable across any number of numeric factorizations.
#[derive(Debug)]
pub struct CscSymbolicCholesky {
    pub(crate) m_pattern: SparsityPattern,
    pub(crate) l_pattern: SparsityPattern,
    pub(crate) u_pattern: SparsityPattern,
}

/// The way a numeric factorization fails.
#[derive(Debug, PartialEq, Eq, Copy, Clone, Structural)]
#[non_exhaustive]
pub enum CholeskyError {
    /// The matrix is not positive definite: some pivot came out non-positive.
    NotPositiveDefinite,
}

/// The checks a persisted factorization must pass before an object is
/// reconstructed from it.
#[derive(Debug, PartialEq, Eq, Copy, Clone, Structural)]
pub enum ReconstructionError {
    /// One of the three patterns is not square.
    NotSquare,
    /// The three patterns do not share one dimension.
    DimensionMismatch,
    /// The dense scratch array does not have one slot per row.
    WorkspaceLength,
}

impl CscSymbolicCholesky {
    /// The structural invariant tying the three patterns together.
    pub open(crate) spec fn wf(&self) -> bool {
        factor_patterns_wf(&self.m_pattern, &self.l_pattern, &self.u_pattern)
    }

    /// The matrix pattern, for specifications.
    pub open(crate) spec fn m_pat(&self) -> SparsityPattern {
        self.m_pattern
    }

    /// The pattern of `L`, for specifications.
    pub open(crate) spec fn l_pat(&self) -> SparsityPattern {
        self.l_pattern
    }

    /// The pattern of `L^T`, for specifications.
    pub open(crate) spec fn u_pat(&self) -> SparsityPattern {
        self.u_pattern
    }


    /// Decides the full structural invariant — the cross-checks that
    /// reconstruction deliberately omits: individually valid patterns, a
    /// shared square dimension, equally many factor entries, the exact
    /// transpose relation and the lower-triangular factor. Exactly the
    /// well-formed factorizations pass, so after reconstructing from
    /// persisted parts a verified caller can re-enter the contract-covered
    /// factorization API.
    pub fn validate(&self) -> (ok: bool)
        ensures
            ok == self.wf(),
    {
        check_factor_patterns(&self.m_pattern, &self.l_pattern, &self.u_pattern)
    }

    /// Computes the symbolic factorization of a square sparsity pattern,
    /// assumed symmetric (symmetry is not checked, as the numeric phase only
    /// ever reads the lower triangle).
    #[verifier::rlimit(50)]
    pub fn factor(pattern: SparsityPattern) -> (s: Self)
        requires
            pattern.wf(),
            pattern.dim_major() == pattern.dim_minor(),
        ensures
            s.wf(),
            s.m_pat() == pattern,
            s.l_pat().dim_major() == pattern.dim_major(),
            s.l_pat().dim_minor() == pattern.dim_major(),
            covers_lower_triangle(&s.m_pat(), &s.u_pat()),
    {
        let (l_pattern, u_pattern) = nonzero_pattern(&pattern);
        proof {
            reveal(factor_patterns_wf);
        }
        CscSymbolicCholesky { m_pattern: pattern, l_pattern, u_pattern }
    }

    /// The pattern of the Cholesky factor `L`.
    pub fn l_pattern(&self) -> (l: &SparsityPattern)
        ensures
            *l == self.l_pat(),
    {
        &self.l_pattern
    }

    /// Borrows all three patterns, in the order matrix, `L`, `L^T`; this is
    /// the persisted representation of the symbolic factorization.
    pub fn parts(&self) -> (parts: (&SparsityPattern, &SparsityPattern, &SparsityPattern))
        ensures
            *parts.0 == self.m_pat(),
            *parts.1 == self.l_pat(),
            *parts.2 == self.u_pat(),
    {
        (&self.m_pattern, &self.l_pattern, &self.u_pattern)
    }

    /// Dismantles the factorization into its three patterns, in the order
    /// matrix, `L`, `L^T`.
    pub fn into_parts(self) -> (parts: (SparsityPattern, SparsityPattern, SparsityPattern))
        ensures
            parts.0 == self.m_pat(),
            parts.1 == self.l_pat(),
            parts.2 == self.u_pat(),
    {
        let CscSymbolicCholesky { m_pattern, l_pattern, u_pattern } = self;
        (m_pattern, l_pattern, u_pattern)
    }

    /// Reconstruction from a persisted representation. The checks of the
    /// structural invariant that reconstruction enforces are exactly: all
    /// three patterns square, and all three of one dimension. A full
    /// cross-check that the `L` and `U` patterns are transposes reproducing
    /// the matrix pattern is intentionally not performed.
    pub fn try_from_parts(
        m_pattern: SparsityPattern,
        l_pattern: SparsityPattern,
        u_pattern: SparsityPattern,
    ) -> (result: Result<Self, ReconstructionError>)
        ensures
            match result {
                Ok(s) => {
                    &&& s.m_pat() == m_pattern
                    &&& s.l_pat() == l_pattern
                    &&& s.u_pat() == u_pattern
                    &&& m_pattern.dim_major() == m_pattern.dim_minor()
                    &&& l_pattern.dim_major() == l_pattern.dim_minor()
                    &&& u_pattern.dim_major() == u_pattern.dim_minor()
                    &&& l_pattern.dim_major() == m_pattern.dim_major()
                    &&& u_pattern.dim_major() == m_pattern.dim_major()
                },
                Err(e) => match e {
                    ReconstructionError::NotSquare => !(m_pattern.dim_major()
                        == m_pattern.dim_minor() && l_pattern.dim_major() == l_pattern.dim_minor()
                        && u_pattern.dim_major() == u_pattern.dim_minor()),
                    ReconstructionError::DimensionMismatch => m_pattern.dim_major()
                        == m_pattern.dim_minor() && l_pattern.dim_major() == l_pattern.dim_minor()
                        && u_pattern.dim_major() == u_pattern.dim_minor() && !(l_pattern.dim_major()
                        == m_pattern.dim_major() && u_pattern.dim_major()
                        == m_pattern.dim_major()),
                    ReconstructionError::WorkspaceLength => false,
                },
            },
            result is Ok <==> {
                &&& m_pattern.dim_major() == m_pattern.dim_minor()
                &&& l_pattern.dim_major() == l_pattern.dim_minor()
                &&& u_pattern.dim_major() == u_pattern.dim_minor()
                &&& l_pattern.dim_major() == m_pattern.dim_major()
                &&& u_pattern.dim_major() == m_pattern.dim_major()
            },
    {
        let all_square = m_pattern.major_dim() == m_pattern.minor_dim() && l_pattern.major_dim()
            == l_pattern.minor_dim() && u_pattern.major_dim() == u_pattern.minor_dim();
        if !all_square {
            return Err(ReconstructionError::NotSquare);
        }
        let all_dim_identical = m_pattern.major_dim() == l_pattern.major_dim()
            && m_pattern.major_dim() == u_pattern.major_dim();
        if !all_dim_identical {
            return Err(ReconstructionError::DimensionMismatch);
        }
        Ok(CscSymbolicCholesky { m_pattern, l_pattern, u_pattern })
    }
}

/// Unpacks the dimensional and transpose content of the factorization
/// relation, without the triangularity clause.
#[verifier::rlimit(50)]
pub(crate) proof fn lemma_factor_frame(
    m: &SparsityPattern,
    l: &SparsityPattern,
    u: &SparsityPattern,
)
    requires
        factor_patterns_wf(m, l, u),
    ensures
        m.wf(),
        l.wf(),
        u.wf(),
        m.dim_major() == m.dim_minor(),
        l.dim_major() == m.dim_major(),
        l.dim_minor() == m.dim_major(),
        u.dim_major() == m.dim_major(),
        u.dim_minor() == m.dim_major(),
        l.spec_nnz() == u.spec_nnz(),
        forall|a: int, b: int|
            #![trigger l.contains_entry(a, b)]
            0 <= a < m.dim_major() && 0 <= b < m.dim_major() ==> (l.contains_entry(a, b)
                <==> u.contains_entry(b, a)),
{
    reveal(factor_patterns_wf);
}

/// Unpacks the dimensional content of the factorization relation: the
/// individual pattern invariants, the shared square dimension, and the equal
/// entry counts of the two factor patterns.
#[verifier::rlimit(50)]
pub(crate) proof fn lemma_factor_dims(m: &SparsityPattern, l: &SparsityPattern, u: &SparsityPattern)
    requires
        factor_patterns_wf(m, l, u),
    ensures
        m.wf(),
        l.wf(),
        u.wf(),
        m.dim_major() == m.dim_minor(),
        l.dim_major() == m.dim_major(),
        l.dim_minor() == m.dim_major(),
        u.dim_major() == m.dim_major(),
        u.dim_minor() == m.dim_major(),
        l.spec_nnz() == u.spec_nnz(),
        forall|a: int, b: int|
            #![trigger l.contains_entry(a, b)]
            0 <= a < m.dim_major() && 0 <= b < m.dim_major() ==> (l.contains_entry(a, b)
                <==> u.contains_entry(b, a)),
        forall|k: int, t: int|
            #![trigger u.offsets()[k], u.indices()[t]]
            0 <= k < m.dim_major() && u.offsets()[k] <= t < u.offsets()[k + 1] ==> u.indices()[t]
                <= k,
{
    reveal(factor_patterns_wf);
}


/// One column of the structural-diagonal argument: if lane `k` of the `U`
/// pattern holds `k`, then column `k` of the `L` pattern is nonempty and
/// starts with row `k`.
#[verifier::rlimit(100)]
#[verifier::spinoff_prover]
proof fn lemma_lane_diag_at(l: &SparsityPattern, u: &SparsityPattern, k: int)
    requires
        l.wf(),
        u.wf(),
        l.dim_major() == u.dim_major(),
        l.dim_minor() == u.dim_major(),
        u.dim_minor() == u.dim_major(),
        0 <= k < l.dim_major(),
        u.contains_entry(k, k),
        forall|a: int, b: int|
            #![trigger l.contains_entry(a, b)]
            0 <= a < u.dim_major() && 0 <= b < u.dim_major() ==> (l.contains_entry(a, b)
                <==> u.contains_entry(b, a)),
        forall|kk: int, t: int|
            #![trigger u.offsets()[kk], u.indices()[t]]
            0 <= kk < u.dim_major() && u.offsets()[kk] <= t < u.offsets()[kk + 1]
                ==> u.indices()[t] <= kk,
    ensures
        lane_starts_with_diagonal(l, k),
{
    lemma_offsets_monotone(l, k, k + 1);
    lemma_offsets_monotone(l, k + 1, l.dim_major());
    assert(l.contains_entry(k, k));
    let t0 = choose|t0: int|
        l.major_offsets@[k] <= t0 < l.major_offsets@[k + 1] && #[trigger] l.minor_indices@[t0]
            == k;
    assert(l.offsets()[k] < l.offsets()[k + 1]);
    let f0 = l.major_offsets@[k] as int;
    let first = l.minor_indices@[f0];
    assert(first >= k) by {
        assert(l.contains_entry(k, first as int)) by {
            assert(l.major_offsets@[k] <= f0 < l.major_offsets@[k + 1] && l.minor_indices@[f0]
                == first);
        }
        assert(u.contains_entry(first as int, k));
        let q0 = choose|q0: int|
            u.major_offsets@[first as int] <= q0 < u.major_offsets@[first as int + 1]
                && #[trigger] u.minor_indices@[q0] == k;
        assert(u.offsets()[first as int] <= q0 < u.offsets()[first as int + 1]);
        assert(u.indices()[q0] <= first as int);
    }
    if f0 < t0 {
        assert(l.minor_indices@[f0] < l.minor_indices@[t0]);
    }
}

/// A symbolic factorization whose `U` pattern holds every diagonal entry —
/// as the factorization of any matrix pattern storing its diagonal does —
/// yields a factor with a full structural diagonal: every column of the `L`
/// pattern is nonempty and stores its diagonal row index first. This is the
/// property the triangular solves rely on.
#[verifier::rlimit(100)]
pub proof fn lemma_full_diagonal(s: &CscSymbolicCholesky)
    requires
        s.wf(),
        forall|k: int|
            0 <= k < s.m_pat().dim_major() ==> #[trigger] s.u_pat().contains_entry(k, k),
    ensures
        has_full_diagonal(&s.l_pat()),
{
    lemma_factor_dims(&s.m_pattern, &s.l_pattern, &s.u_pattern);
    let l = s.l_pattern;
    assert forall|k: int| 0 <= k < l.dim_major() implies #[trigger] lane_starts_with_diagonal(
        &l,
        k,
    ) by {
        assert(s.u_pat().contains_entry(k, k));
        lemma_lane_diag_at(&s.l_pattern, &s.u_pattern, k);
    }
    assert(has_full_diagonal(&l));
    assert(s.l_pat() == l);
}

/// A sequence of `n` zero scalars: the fresh factor values and scratch of a
/// new numeric factorization.
pub open(crate) spec fn zero_seq_spec<T: Real>(n: int) -> Seq<T> {
    Seq::new(n as nat, |i: int| T::zero_spec())
}

/// The cursor array as every numeric pass resets it: one start offset per
/// column of the factor.
pub open(crate) spec fn reset_cursors_spec(l: &SparsityPattern) -> Seq<usize> {
    l.offsets().subrange(0, l.dim_major())
}

/// The dense scratch after the scatter phase of column `k` has processed the
/// stored entries of the matrix at positions below `p`: the diagonal slot is
/// zeroed first, then each at-or-below-diagonal entry value lands in its
/// row's slot.
pub open(crate) spec fn scatter_loop_spec<T: Real>(
    m: &SparsityPattern,
    values: Seq<T>,
    wx: Seq<T>,
    k: int,
    p: int,
) -> Seq<T>
    decreases p,
{
    if p <= m.offsets()[k] {
        wx
    } else {
        let prev = scatter_loop_spec(m, values, wx, k, p - 1);
        let irow = m.indices()[p - 1];
        if irow >= k {
            prev.update(irow as int, values[p - 1])
        } else {
            prev
        }
    }
}

/// The dense scratch after the whole scatter phase of column `k`.
pub open(crate) spec fn scatter_spec<T: Real>(
    m: &SparsityPattern,
    values: Seq<T>,
    wx: Seq<T>,
    k: int,
) -> Seq<T> {
    scatter_loop_spec(m, values, wx.update(k, T::zero_spec()), k, m.offsets()[k + 1] as int)
}

/// The dense scratch after folding `factor` times the stored entries of
/// `L`'s column `j0` at positions below `t2` into it, skipping rows above
/// the running diagonal `k`.
pub open(crate) spec fn col_update_loop_spec<T: Real>(
    l: &SparsityPattern,
    lvals: Seq<T>,
    wx: Seq<T>,
    k: int,
    j0: int,
    factor: T,
    t2: int,
) -> Seq<T>
    decreases t2,
{
    if t2 <= l.offsets()[j0] {
        wx
    } else {
        let prev = col_update_loop_spec(l, lvals, wx, k, j0, factor, t2 - 1);
        let z = l.indices()[t2 - 1];
        if z >= k {
            prev.update(z as int, prev[z as int].add_spec(&lvals[t2 - 1].mul_spec(&factor)))
        } else {
            prev
        }
    }
}

/// Scratch and cursors after the update phase of column `k` has consumed the
/// entries of lane `k` of the `U` pattern at positions below `t`: each named
/// column's cursor advances past one stored entry of the factor, whose
/// negation scales that column's contribution into the scratch.
pub open(crate) spec fn update_loop_spec<T: Real>(
    l: &SparsityPattern,
    u: &SparsityPattern,
    lvals: Seq<T>,
    wx: Seq<T>,
    wc: Seq<usize>,
    k: int,
    t: int,
) -> (Seq<T>, Seq<usize>)
    decreases t,
{
    if t <= u.offsets()[k] {
        (wx, wc)
    } else {
        let prev = update_loop_spec(l, u, lvals, wx, wc, k, t - 1);
        let j0 = u.indices()[t - 1] as int;
        let cj = prev.1[j0];
        let factor = lvals[cj as int].neg_spec();
        let wc2 = prev.1.update(j0, (cj + 1) as usize);
        if j0 < k {
            (
                col_update_loop_spec(l, lvals, prev.0, k, j0, factor, l.offsets()[j0 + 1] as int),
                wc2,
            )
        } else {
            (prev.0, wc2)
        }
    }
}

/// Scratch and cursors after the whole update phase of column `k`.
pub open(crate) spec fn update_spec<T: Real>(
    l: &SparsityPattern,
    u: &SparsityPattern,
    lvals: Seq<T>,
    wx: Seq<T>,
    wc: Seq<usize>,
    k: int,
) -> (Seq<T>, Seq<usize>) {
    update_loop_spec(l, u, lvals, wx, wc, k, u.offsets()[k + 1] as int)
}

/// Factor values and scratch after the pivot phase of column `k` has
/// rewritten the stored entries of `L`'s column `k` at positions below `t3`:
/// each becomes its row's scratch slot divided by the pivot root, and the
/// slot returns to zero.
pub open(crate) spec fn pivot_loop_spec<T: Real>(
    l: &SparsityPattern,
    lvals: Seq<T>,
    wx: Seq<T>,
    k: int,
    denom: T,
    t3: int,
) -> (Seq<T>, Seq<T>)
    decreases t3,
{
    if t3 <= l.offsets()[k] {
        (lvals, wx)
    } else {
        let prev = pivot_loop_spec(l, lvals, wx, k, denom, t3 - 1);
        let pr = l.indices()[t3 - 1] as int;
        let nv = prev.1[pr].div_spec(&denom);
        (prev.0.update(t3 - 1, nv), prev.1.update(pr, T::zero_spec()))
    }
}

/// Factor values and scratch after the whole pivot phase of column `k`: the
/// pivot root lands in the column's first stored slot, then every stored
/// slot of the column is rewritten from the scratch.
pub open(crate) spec fn pivot_spec<T: Real>(
    l: &SparsityPattern,
    lvals: Seq<T>,
    wx: Seq<T>,
    k: int,
    denom: T,
) -> (Seq<T>, Seq<T>) {
    let lv0 = if l.offsets()[k] < l.offsets()[k + 1] {
        lvals.update(l.offsets()[k] as int, denom)
    } else {
        lvals
    };
    pivot_loop_spec(l, lv0, wx, k, denom, l.offsets()[k + 1] as int)
}

/// The state of a left-looking pass after its first `k` columns: whether
/// every pivot so far passed its positivity test, and the factor values,
/// dense scratch and cursor array at that point. On the first failing pivot
/// the state freezes as the failing iteration left it: scatter and update
/// applied, the column's factor values untouched.
#[verifier::opaque]
pub open(crate) spec fn decompose_upto_spec<T: Real>(
    m: &SparsityPattern,
    l: &SparsityPattern,
    u: &SparsityPattern,
    values: Seq<T>,
    lv0: Seq<T>,
    wx0: Seq<T>,
    wc0: Seq<usize>,
    k: int,
) -> (bool, Seq<T>, Seq<T>, Seq<usize>)
    decreases k,
{
    if k <= 0 {
        (true, lv0, wx0, wc0)
    } else {
        let prev = decompose_upto_spec(m, l, u, values, lv0, wx0, wc0, k - 1);
        if !prev.0 {
            prev
        } else {
            let wx1 = scatter_spec(m, values, prev.2, k - 1);
            let uw = update_spec(l, u, prev.1, wx1, prev.3, k - 1);
            let diag = uw.0[k - 1];
            if diag.is_positive_spec() {
                let lw = pivot_spec(l, prev.1, uw.0, k - 1, diag.sqrt_spec());
                (true, lw.0, lw.1, uw.1)
            } else {
                (false, prev.1, uw.0, uw.1)
            }
        }
    }
}

/// Once a pivot has failed, the recurrence's state never changes again.
proof fn lemma_decompose_frozen<T: Real>(
    m: &SparsityPattern,
    l: &SparsityPattern,
    u: &SparsityPattern,
    values: Seq<T>,
    lv0: Seq<T>,
    wx0: Seq<T>,
    wc0: Seq<usize>,
    k: int,
    k2: int,
)
    requires
        0 <= k <= k2,
        !decompose_upto_spec(m, l, u, values, lv0, wx0, wc0, k).0,
    ensures
        decompose_upto_spec(m, l, u, values, lv0, wx0, wc0, k2) == decompose_upto_spec(
            m,
            l,
            u,
            values,
            lv0,
            wx0,
            wc0,
            k,
        ),
    decreases k2 - k,
{
    reveal(decompose_upto_spec);
    if k < k2 {
        lemma_decompose_frozen(m, l, u, values, lv0, wx0, wc0, k, k2 - 1);
    }
}

/// Re-factoring is a fresh factorization. Over an unchanged structure, the
/// recurrence that pins `refactor`'s outcome and factor values is exactly
/// the recurrence that pins `factor_numerical`'s for the factorization's
/// symbolic part — as `into_symbolic_factorization` hands it out — and the
/// same values: every numeric pass starts from the zeroed factor values and
/// scratch, so nothing of the earlier numeric state enters the result. For
/// the same reason, repeating a pass with equal values is idempotent.
pub proof fn lemma_refactor_is_fresh<T: Real>(
    f: &CscCholesky<T>,
    s: &CscSymbolicCholesky,
    values: Seq<T>,
)
    requires
        f.wf(),
        s.m_pat() == f.m_pat(),
        s.l_pat() == f.l_pat(),
        s.u_pat() == f.u_pat(),
    ensures
        decompose_upto_spec(
            &f.m_pat(),
            &f.l_pat(),
            &f.u_pat(),
            values,
            zero_seq_spec(f.l_mat().spec_values().len() as int),
            zero_seq_spec(f.m_pat().dim_major()),
            reset_cursors_spec(&f.l_pat()),
            f.m_pat().dim_major(),
        ) == decompose_upto_spec(
            &s.m_pat(),
            &s.l_pat(),
            &s.u_pat(),
            values,
            zero_seq_spec(s.l_pat().spec_nnz()),
            zero_seq_spec(s.m_pat().dim_major()),
            reset_cursors_spec(&s.l_pat()),
            s.m_pat().dim_major(),
        ),
{
    assert(f.l_mat().spec_values().len() == f.l_pat().spec_nnz());
}

/// The cursor discipline of the left-looking pass, seen at the start of
/// outer iteration `k`: each column's next-unread position equals its start
/// offset plus the number of its stored row indices below `k`.
#[verifier::opaque]
pub open(crate) spec fn cursors_at(l: &SparsityPattern, work_c: Seq<usize>, k: int) -> bool {
    forall|j: int|
        #![trigger work_c[j]]
        0 <= j < l.dim_major() ==> work_c[j] == l.offsets()[j] + count_lt(l.lane_seq(j), k)
}

/// Some position in `ua .. t` of the index array stores `j`.
pub open(crate) spec fn processed(u: &SparsityPattern, ua: int, t: int, j: int) -> bool {
    exists|s: int| ua <= s < t && #[trigger] u.indices()[s] == j
}

/// A numeric sparse Cholesky factorization `A = L L^T`: the three patterns
/// of its symbolic part, the factor `L` with its computed values, and two
/// reusable scratch arrays — `work_x`, a dense accumulator with one slot per
/// row that is zero outside the running column, and `work_c`, the
/// per-column read cursors, reset from `L`'s column offsets at the start of
/// every numeric pass.
#[derive(Debug)]
pub struct CscCholesky<T> {
    pub(crate) m_pattern: SparsityPattern,
    pub(crate) l_factor: CscMatrix<T>,
    pub(crate) u_pattern: SparsityPattern,
    pub(crate) work_x: Vec<T>,
    pub(crate) work_c: Vec<usize>,
}

impl<T> CscCholesky<T> {
    /// The structural invariant: a well-formed factor matrix, the three
    /// patterns in the factorization relation, and a dense scratch slot per
    /// row. The cursor array needs no invariant: every numeric pass resets
    /// it before reading it.
    pub open(crate) spec fn wf(&self) -> bool {
        &&& self.l_factor.wf()
        &&& factor_patterns_wf(&self.m_pattern, &self.l_factor.pattern, &self.u_pattern)
        &&& self.work_x@.len() == self.m_pattern.dim_major()
    }

    /// The matrix pattern, for specifications.
    pub open(crate) spec fn m_pat(&self) -> SparsityPattern {
        self.m_pattern
    }

    /// The factor `L`, for specifications.
    pub open(crate) spec fn l_mat(&self) -> CscMatrix<T> {
        self.l_factor
    }

    /// The pattern of `L`, for specifications.
    pub open(crate) spec fn l_pat(&self) -> SparsityPattern {
        self.l_factor.pattern
    }

    /// The pattern of `L^T`, for specifications.
    pub open(crate) spec fn u_pat(&self) -> SparsityPattern {
        self.u_pattern
    }
}

impl Clone for CscSymbolicCholesky {
    /// A structural copy: each pattern congruent to its original, and
    /// well-formedness carried over.
    fn clone(&self) -> (c: Self)
        ensures
            c.m_pat().congruent(&self.m_pat()),
            c.l_pat().congruent(&self.l_pat()),
            c.u_pat().congruent(&self.u_pat()),
            self.wf() ==> c.wf(),
    {
        let m_pattern = self.m_pattern.clone();
        let l_pattern = self.l_pattern.clone();
        let u_pattern = self.u_pattern.clone();
        proof {
            reveal(factor_patterns_wf);
            crate::pattern::lemma_congruent_wf(&m_pattern, &self.m_pattern);
            crate::pattern::lemma_congruent_wf(&l_pattern, &self.l_pattern);
            crate::pattern::lemma_congruent_wf(&u_pattern, &self.u_pattern);
        }
        CscSymbolicCholesky { m_pattern, l_pattern, u_pattern }
    }
}

impl vstd::std_specs::cmp::PartialEqSpecImpl for CscSymbolicCholesky {
    open spec fn obeys_eq_spec() -> bool {
        true
    }

    open(crate) spec fn eq_spec(&self, other: &Self) -> bool {
        &&& self.m_pattern.congruent(&other.m_pattern)
        &&& self.l_pattern.congruent(&other.l_pattern)
        &&& self.u_pattern.congruent(&other.u_pattern)
    }
}

impl PartialEq for CscSymbolicCholesky {
    /// Structural equality: the three patterns pairwise equal.
    fn eq(&self, other: &Self) -> (r: bool) {
        self.m_pattern == other.m_pattern && self.l_pattern == other.l_pattern
            && self.u_pattern == other.u_pattern
    }
}

impl Eq for CscSymbolicCholesky {

}

/// `l_pattern` and `u_pattern` of a symbolic factorization are exact
/// transposes of one another — an entry at `(row a, column b)` of one is an
/// entry at `(row b, column a)` of the other — and hold equally many
/// entries.
pub proof fn lemma_l_u_transposed(s: &CscSymbolicCholesky)
    requires
        s.wf(),
    ensures
        s.l_pat().spec_nnz() == s.u_pat().spec_nnz(),
        forall|a: int, b: int|
            #![trigger s.l_pat().contains_entry(a, b)]
            0 <= a < s.m_pat().dim_major() && 0 <= b < s.m_pat().dim_major() ==> (
            s.l_pat().contains_entry(a, b) <==> s.u_pat().contains_entry(b, a)),
{
    reveal(factor_patterns_wf);
}

impl<T> CscCholesky<T> {
    /// The dense scratch array, for specifications.
    pub open(crate) spec fn spec_work_x(&self) -> Seq<T> {
        self.work_x@
    }

    /// The cursor array, for specifications.
    pub open(crate) spec fn spec_work_c(&self) -> Seq<usize> {
        self.work_c@
    }


    /// Decides the full structural invariant — the cross-checks that
    /// reconstruction deliberately omits: individually valid patterns, a
    /// shared square dimension, a value per stored factor entry, equally
    /// many entries in the two factor patterns, the exact transpose
    /// relation, the lower-triangular factor, and one scratch slot per row.
    /// Exactly the well-formed factorizations pass, so after reconstructing
    /// from persisted parts a verified caller can re-enter the
    /// contract-covered factorization API.
    #[verifier::rlimit(50)]
    pub fn validate(&self) -> (ok: bool)
        ensures
            ok == self.wf(),
    {
        proof {
            reveal(factor_patterns_wf);
        }
        if self.l_factor.values.len() != self.l_factor.pattern.nnz() {
            return false;
        }
        if self.work_x.len() != self.m_pattern.major_dim() {
            return false;
        }
        check_factor_patterns(&self.m_pattern, &self.l_factor.pattern, &self.u_pattern)
    }

    /// Returns a reference to the Cholesky factor `L`.
    pub fn l(&self) -> (l: &CscMatrix<T>)
        ensures
            *l == self.l_mat(),
    {
        &self.l_factor
    }

    /// Returns the Cholesky factor `L`, consuming the factorization.
    pub fn take_l(self) -> (l: CscMatrix<T>)
        ensures
            l == self.l_mat(),
    {
        self.l_factor
    }

    /// Returns a copy of the symbolic part of this factorization.
    #[verifier::rlimit(50)]
    pub fn symbolic_factorization(&self) -> (s: CscSymbolicCholesky)
        ensures
            s.m_pat().congruent(&self.m_pat()),
            s.l_pat().congruent(&self.l_pat()),
            s.u_pat().congruent(&self.u_pat()),
            self.wf() ==> s.wf(),
    {
        let m_pattern = self.m_pattern.clone();
        let l_pattern = self.l_factor.pattern.clone();
        let u_pattern = self.u_pattern.clone();
        proof {
            reveal(factor_patterns_wf);
            crate::pattern::lemma_congruent_wf(&m_pattern, &self.m_pattern);
            crate::pattern::lemma_congruent_wf(&l_pattern, &self.l_factor.pattern);
            crate::pattern::lemma_congruent_wf(&u_pattern, &self.u_pattern);
        }
        CscSymbolicCholesky { m_pattern, l_pattern, u_pattern }
    }

    /// Transforms this factorization into its symbolic part, discarding the
    /// numeric values and the workspaces.
    pub fn into_symbolic_factorization(self) -> (s: CscSymbolicCholesky)
        ensures
            s.m_pat() == self.m_pat(),
            s.l_pat() == self.l_pat(),
            s.u_pat() == self.u_pat(),
            self.wf() ==> s.wf(),
    {
        let CscCholesky { m_pattern, l_factor, u_pattern, work_x: _, work_c: _ } = self;
        let (l_pattern, _values) = l_factor.into_pattern_and_values();
        CscSymbolicCholesky { m_pattern, l_pattern, u_pattern }
    }

    /// Borrows the five persisted components, in the order matrix pattern,
    /// factor, `L^T` pattern, dense scratch, cursor array.
    pub fn parts(&self) -> (parts: (
        &SparsityPattern,
        &CscMatrix<T>,
        &SparsityPattern,
        &Vec<T>,
        &Vec<usize>,
    ))
        ensures
            *parts.0 == self.m_pat(),
            *parts.1 == self.l_mat(),
            *parts.2 == self.u_pat(),
            parts.3@ == self.spec_work_x(),
            parts.4@ == self.spec_work_c(),
    {
        (&self.m_pattern, &self.l_factor, &self.u_pattern, &self.work_x, &self.work_c)
    }

    /// Dismantles the factorization into its five persisted components.
    pub fn into_parts(self) -> (parts: (
        SparsityPattern,
        CscMatrix<T>,
        SparsityPattern,
        Vec<T>,
        Vec<usize>,
    ))
        ensures
            parts.0 == self.m_pat(),
            parts.1 == self.l_mat(),
            parts.2 == self.u_pat(),
            parts.3@ == self.spec_work_x(),
            parts.4@ == self.spec_work_c(),
    {
        let CscCholesky { m_pattern, l_factor, u_pattern, work_x, work_c } = self;
        (m_pattern, l_factor, u_pattern, work_x, work_c)
    }

    /// Reconstruction from a persisted representation. The enforced checks
    /// are exactly: the matrix pattern, the factor and the `L^T` pattern
    /// square; all three of one dimension; and the dense scratch with one
    /// slot per row. A full cross-check that the factor's pattern and the
    /// `L^T` pattern are transposes reproducing the matrix pattern is
    /// intentionally not performed.
    pub fn try_from_parts(
        m_pattern: SparsityPattern,
        l_factor: CscMatrix<T>,
        u_pattern: SparsityPattern,
        work_x: Vec<T>,
        work_c: Vec<usize>,
    ) -> (result: Result<Self, ReconstructionError>)
        ensures
            match result {
                Ok(f) => {
                    &&& f.m_pat() == m_pattern
                    &&& f.l_mat() == l_factor
                    &&& f.u_pat() == u_pattern
                    &&& f.spec_work_x() == work_x@
                    &&& f.spec_work_c() == work_c@
                    &&& m_pattern.dim_major() == m_pattern.dim_minor()
                    &&& l_factor.spec_nrows() == l_factor.spec_ncols()
                    &&& u_pattern.dim_major() == u_pattern.dim_minor()
                    &&& l_factor.spec_ncols() == m_pattern.dim_major()
                    &&& u_pattern.dim_major() == m_pattern.dim_major()
                    &&& work_x@.len() == l_factor.spec_nrows()
                },
                Err(e) => match e {
                    ReconstructionError::NotSquare => !(m_pattern.dim_major()
                        == m_pattern.dim_minor() && l_factor.spec_nrows() == l_factor.spec_ncols()
                        && u_pattern.dim_major() == u_pattern.dim_minor()),
                    ReconstructionError::DimensionMismatch => m_pattern.dim_major()
                        == m_pattern.dim_minor() && l_factor.spec_nrows() == l_factor.spec_ncols()
                        && u_pattern.dim_major() == u_pattern.dim_minor() && !(l_factor.spec_ncols()
                        == m_pattern.dim_major() && u_pattern.dim_major()
                        == m_pattern.dim_major()),
                    ReconstructionError::WorkspaceLength => m_pattern.dim_major()
                        == m_pattern.dim_minor() && l_factor.spec_nrows() == l_factor.spec_ncols()
                        && u_pattern.dim_major() == u_pattern.dim_minor() && l_factor.spec_ncols()
                        == m_pattern.dim_major() && u_pattern.dim_major() == m_pattern.dim_major()
                        && work_x@.len() != l_factor.spec_nrows(),
                },
            },
    {
        let all_square = m_pattern.major_dim() == m_pattern.minor_dim() && l_factor.nrows()
            == l_factor.ncols() && u_pattern.major_dim() == u_pattern.minor_dim();
        if !all_square {
            return Err(ReconstructionError::NotSquare);
        }
        let all_same = m_pattern.major_dim() == l_factor.ncols() && m_pattern.major_dim()
            == u_pattern.major_dim();
        if !all_same {
            return Err(ReconstructionError::DimensionMismatch);
        }
        if work_x.len() != l_factor.nrows() {
            return Err(ReconstructionError::WorkspaceLength);
        }
        Ok(CscCholesky { m_pattern, l_factor, u_pattern, work_x, work_c })
    }
}

/// Copies a vector of scalars value for value.
fn clone_scalars<T: Real>(v: &Vec<T>) -> (c: Vec<T>)
    ensures
        c@ == v@,
{
    let n = v.len();
    let mut c: Vec<T> = Vec::new();
    let mut i: usize = 0;
    while i < n
        invariant
            i <= n,
            n == v@.len(),
            c@ == v@.subrange(0, i as int),
        decreases n - i,
    {
        let x = v[i].copy_value();
        c.push(x);
        proof {
            assert(c@ =~= v@.subrange(0, i + 1));
        }
        i += 1;
    }
    proof {
        assert(c@ =~= v@);
    }
    c
}

impl<T: Real> Clone for CscCholesky<T> {
    /// A structural copy: congruent patterns, and the factor values and
    /// both workspaces copied value for value.
    #[verifier::rlimit(100)]
    #[verifier::spinoff_prover]
    fn clone(&self) -> (c: Self)
        ensures
            c.m_pat().congruent(&self.m_pat()),
            c.l_pat().congruent(&self.l_pat()),
            c.u_pat().congruent(&self.u_pat()),
            c.l_mat().spec_values() == self.l_mat().spec_values(),
            c.spec_work_x() == self.spec_work_x(),
            c.spec_work_c() == self.spec_work_c(),
            self.wf() ==> c.wf(),
    {
        let m_pattern = self.m_pattern.clone();
        let l_pattern = self.l_factor.pattern.clone();
        let u_pattern = self.u_pattern.clone();
        let l_values = clone_scalars(&self.l_factor.values);
        let work_x = clone_scalars(&self.work_x);
        let work_c = vstd::slice::slice_to_vec(self.work_c.as_slice());
        proof {
            reveal(factor_patterns_wf);
            crate::pattern::lemma_congruent_wf(&m_pattern, &self.m_pattern);
            crate::pattern::lemma_congruent_wf(&l_pattern, &self.l_factor.pattern);
            crate::pattern::lemma_congruent_wf(&u_pattern, &self.u_pattern);
        }
        CscCholesky {
            m_pattern,
            l_factor: CscMatrix { pattern: l_pattern, values: l_values },
            u_pattern,
            work_x,
            work_c,
        }
    }
}

impl<T: Real> CscCholesky<T> {
    /// Computes the numeric Cholesky factorization for the given symbolic
    /// factorization and the values of the matrix it was computed for.
    ///
    /// The values correspond position by position to the stored entries of
    /// the matrix pattern; supplying fewer values than stored entries is a
    /// caller error, excluded by precondition. The factorization fails with
    /// `NotPositiveDefinite` exactly when the numeric pass meets a
    /// non-positive pivot.
    #[verifier::rlimit(100)]
    pub fn factor_numerical(symbolic: CscSymbolicCholesky, values: &Vec<T>) -> (result: Result<
        Self,
        CholeskyError,
    >)
        requires
            symbolic.wf(),
            values@.len() >= symbolic.m_pat().spec_nnz(),
        ensures
            ({
                let st = decompose_upto_spec(
                    &symbolic.m_pat(),
                    &symbolic.l_pat(),
                    &symbolic.u_pat(),
                    values@,
                    zero_seq_spec(symbolic.l_pat().spec_nnz()),
                    zero_seq_spec(symbolic.m_pat().dim_major()),
                    reset_cursors_spec(&symbolic.l_pat()),
                    symbolic.m_pat().dim_major(),
                );
                match result {
                    Ok(f) => {
                        &&& f.wf()
                        &&& f.m_pat() == symbolic.m_pat()
                        &&& f.l_pat() == symbolic.l_pat()
                        &&& f.u_pat() == symbolic.u_pat()
                        &&& st.0
                        &&& f.l_mat().spec_values() == st.1
                        &&& f.spec_work_x() == st.2
                        &&& f.spec_work_c() == st.3
                    },
                    Err(e) => e == CholeskyError::NotPositiveDefinite && !st.0,
                }
            }),
    {
        proof {
            lemma_factor_dims(&symbolic.m_pattern, &symbolic.l_pattern, &symbolic.u_pattern);
        }
        let l_nnz = symbolic.l_pattern.nnz();
        let mut l_values: Vec<T> = Vec::new();
        let mut idx: usize = 0;
        while idx < l_nnz
            invariant
                idx <= l_nnz,
                l_values@.len() == idx,
                l_values@ == zero_seq_spec::<T>(idx as int),
            decreases l_nnz - idx,
        {
            l_values.push(T::zero());
            proof {
                assert(l_values@ =~= zero_seq_spec::<T>(idx + 1));
            }
            idx += 1;
        }
        let CscSymbolicCholesky { m_pattern, l_pattern, u_pattern } = symbolic;
        let nrows = l_pattern.minor_dim();
        let mut work_x: Vec<T> = Vec::new();
        let mut idx2: usize = 0;
        while idx2 < nrows
            invariant
                idx2 <= nrows,
                work_x@.len() == idx2,
                work_x@ == zero_seq_spec::<T>(idx2 as int),
            decreases nrows - idx2,
        {
            work_x.push(T::zero());
            proof {
                assert(work_x@ =~= zero_seq_spec::<T>(idx2 + 1));
            }
            idx2 += 1;
        }
        let l_factor = CscMatrix { pattern: l_pattern, values: l_values };
        let mut factorization = CscCholesky {
            m_pattern,
            l_factor,
            u_pattern,
            work_x,
            work_c: Vec::new(),
        };
        match factorization.refactor(values) {
            Ok(()) => Ok(factorization),
            Err(e) => Err(e),
        }
    }

    /// Computes the Cholesky factorization of a square CSC matrix, assumed
    /// symmetric positive definite; symmetry is not checked. Fails with
    /// `NotPositiveDefinite` exactly when the numeric pass meets a
    /// non-positive pivot: on failure the contract exhibits a well-formed,
    /// coverage-satisfying symbolic structure of this matrix's pattern whose
    /// decomposition recurrence fails, so a body that never attempts the
    /// factorization cannot claim failure.
    #[verifier::rlimit(100)]
    #[verifier::spinoff_prover]
    pub fn factor(matrix: &CscMatrix<T>) -> (result: Result<Self, CholeskyError>)
        requires
            matrix.wf(),
            matrix.spec_nrows() == matrix.spec_ncols(),
        ensures
            match result {
                Ok(f) => {
                    &&& f.wf()
                    &&& f.m_pat().congruent(&matrix.spec_pattern())
                    &&& ({
                        let st = decompose_upto_spec(
                            &f.m_pat(),
                            &f.l_pat(),
                            &f.u_pat(),
                            matrix.spec_values(),
                            zero_seq_spec(f.l_pat().spec_nnz()),
                            zero_seq_spec(f.m_pat().dim_major()),
                            reset_cursors_spec(&f.l_pat()),
                            f.m_pat().dim_major(),
                        );
                        &&& st.0
                        &&& f.l_mat().spec_values() == st.1
                        &&& f.spec_work_x() == st.2
                        &&& f.spec_work_c() == st.3
                    })
                },
                Err(e) => e == CholeskyError::NotPositiveDefinite && (exists|
                    s: CscSymbolicCholesky,
                |
                    {
                        &&& #[trigger] s.wf()
                        &&& s.m_pat().congruent(&matrix.spec_pattern())
                        &&& covers_lower_triangle(&s.m_pat(), &s.u_pat())
                        &&& !decompose_upto_spec(
                            &s.m_pat(),
                            &s.l_pat(),
                            &s.u_pat(),
                            matrix.spec_values(),
                            zero_seq_spec(s.l_pat().spec_nnz()),
                            zero_seq_spec(s.m_pat().dim_major()),
                            reset_cursors_spec(&s.l_pat()),
                            s.m_pat().dim_major(),
                        ).0
                    }),
            },
    {
        let symbolic = Self::symbolic_of(matrix);
        let result = Self::factor_numerical(symbolic, matrix.values());
        proof {
            match &result {
                Ok(f) => {
                    assert(f.m_pat() == symbolic.m_pat());
                    assert(f.l_pat() == symbolic.l_pat());
                    assert(f.u_pat() == symbolic.u_pat());
                },
                Err(_) => {
                    assert(symbolic.wf() && symbolic.m_pat().congruent(&matrix.spec_pattern())
                        && covers_lower_triangle(&symbolic.m_pat(), &symbolic.u_pat())
                        && !decompose_upto_spec(
                        &symbolic.m_pat(),
                        &symbolic.l_pat(),
                        &symbolic.u_pat(),
                        matrix.spec_values(),
                        zero_seq_spec(symbolic.l_pat().spec_nnz()),
                        zero_seq_spec(symbolic.m_pat().dim_major()),
                        reset_cursors_spec(&symbolic.l_pat()),
                        symbolic.m_pat().dim_major(),
                    ).0);
                },
            }
        }
        result
    }

    /// Derives the symbolic factorization of a matrix's own pattern.
    #[verifier::rlimit(100)]
    #[verifier::spinoff_prover]
    fn symbolic_of(matrix: &CscMatrix<T>) -> (s: CscSymbolicCholesky)
        requires
            matrix.wf(),
            matrix.spec_nrows() == matrix.spec_ncols(),
        ensures
            s.wf(),
            s.m_pat().congruent(&matrix.spec_pattern()),
            s.m_pat().spec_nnz() == matrix.spec_pattern().spec_nnz(),
            covers_lower_triangle(&s.m_pat(), &s.u_pat()),
    {
        let pattern = matrix.pattern().clone();
        proof {
            assert(pattern.wf());
            assert(pattern.spec_nnz() == matrix.spec_pattern().spec_nnz());
        }
        CscSymbolicCholesky::factor(pattern)
    }

    /// Re-computes the factorization for a new set of values over the
    /// unchanged structure: the key reuse path for repeated solves over one
    /// pattern. Only the factor's values and the two workspaces change; the
    /// three patterns never do. Each pass starts from the zeroed factor
    /// values and scratch the data model prescribes, so its outcome is a
    /// function of the patterns and the supplied values alone — a failed
    /// pass leaves nothing behind that could leak into a later one. Fails
    /// with `NotPositiveDefinite` exactly when the pass meets a
    /// non-positive pivot.
    pub fn refactor(&mut self, values: &Vec<T>) -> (result: Result<(), CholeskyError>)
        requires
            old(self).wf(),
            values@.len() >= old(self).m_pat().spec_nnz(),
        ensures
            final(self).wf(),
            final(self).m_pat() == old(self).m_pat(),
            final(self).u_pat() == old(self).u_pat(),
            final(self).l_pat() == old(self).l_pat(),
            final(self).l_mat().spec_values().len() == old(self).l_mat().spec_values().len(),
            final(self).spec_work_x().len() == old(self).spec_work_x().len(),
            ({
                let st = decompose_upto_spec(
                    &old(self).m_pat(),
                    &old(self).l_pat(),
                    &old(self).u_pat(),
                    values@,
                    zero_seq_spec(old(self).l_mat().spec_values().len() as int),
                    zero_seq_spec(old(self).m_pat().dim_major()),
                    reset_cursors_spec(&old(self).l_pat()),
                    old(self).m_pat().dim_major(),
                );
                &&& (result is Ok <==> st.0)
                &&& (result is Err ==> result == Result::<(), CholeskyError>::Err(
                    CholeskyError::NotPositiveDefinite,
                ))
                &&& final(self).l_mat().spec_values() == st.1
                &&& final(self).spec_work_x() == st.2
                &&& final(self).spec_work_c() == st.3
            }),
            result is Ok ==> cursors_at(
                &old(self).l_pat(),
                final(self).spec_work_c(),
                old(self).m_pat().dim_major(),
            ),
    {
        self.decompose_left_looking(values)
    }
}

/// What one read step of the update phase may rely on: the lane entry `j0`
/// names a valid column not seen earlier in this lane, and the count of its
/// stored rows below `k` stays short of its full lane, since row `k` itself
/// is stored there.
#[verifier::rlimit(100)]
proof fn lemma_update_read(
    l: &SparsityPattern,
    u: &SparsityPattern,
    k: int,
    ua: int,
    ub: int,
    t: int,
    j0: int,
)
    requires
        l.wf(),
        u.wf(),
        0 <= k < u.dim_major(),
        ua == u.offsets()[k],
        ub == u.offsets()[k + 1],
        ua <= t < ub,
        ub <= u.indices().len(),
        j0 == u.indices()[t],
        0 <= j0 < l.dim_major(),
        l.contains_entry(j0, k),
    ensures
        !processed(u, ua, t, j0),
        count_lt(l.lane_seq(j0), k) < l.offsets()[j0 + 1] - l.offsets()[j0],
        l.offsets()[j0] <= l.offsets()[j0 + 1] <= l.spec_nnz(),
{
    assert(!processed(u, ua, t, j0)) by {
        if processed(u, ua, t, j0) {
            let s0 = choose|s0: int| ua <= s0 < t && #[trigger] u.indices()[s0] == j0;
            assert(u.offsets()[k] <= s0 < t < u.offsets()[k + 1]);
            assert(u.indices()[s0] < u.indices()[t]);
        }
    }
    lemma_contains_iff_lane(l, j0, k);
    lemma_lane_seq_strict(l, j0);
    lemma_count_lt_bound(l.lane_seq(j0), k);
    lemma_offsets_monotone(l, j0, j0 + 1);
    lemma_offsets_monotone(l, j0 + 1, l.dim_major());
}

/// Advancing past position `t` marks exactly its entry `j0` as processed and
/// leaves every other column's processed state unchanged.
#[verifier::rlimit(50)]
proof fn lemma_processed_step(u: &SparsityPattern, ua: int, t: int, j0: int, j: int)
    requires
        ua <= t < u.indices().len(),
        u.indices()[t] == j0,
    ensures
        processed(u, ua, t + 1, j0),
        j != j0 ==> (processed(u, ua, t + 1, j) <==> processed(u, ua, t, j)),
{
    assert(processed(u, ua, t + 1, j0)) by {
        assert(ua <= t < t + 1 && u.indices()[t] == j0);
    }
    if j != j0 {
        if processed(u, ua, t + 1, j) {
            let s0 = choose|s0: int| ua <= s0 < t + 1 && #[trigger] u.indices()[s0] == j;
            assert(s0 < t);
            assert(processed(u, ua, t, j));
        }
    }
}

/// The cursor discipline in the middle of processing lane `k` of the `U`
/// pattern, with positions `ua .. t` already consumed: each column's cursor
/// is its start-of-iteration value, plus one if the column occurred among
/// the consumed positions.
#[verifier::opaque]
pub open(crate) spec fn cursors_mid(
    l: &SparsityPattern,
    u: &SparsityPattern,
    n: int,
    work_c: Seq<usize>,
    k: int,
    ua: int,
    t: int,
) -> bool {
    forall|j: int|
        #![trigger work_c[j]]
        0 <= j < n ==> work_c[j] == l.offsets()[j] + count_lt(l.lane_seq(j), k) + (if processed(
            u,
            ua,
            t,
            j,
        ) {
            1int
        } else {
            0int
        })
}

/// Entering lane `k` with the start-of-iteration cursors: nothing is
/// processed yet.
#[verifier::rlimit(50)]
proof fn lemma_cursor_begin(
    l: &SparsityPattern,
    u: &SparsityPattern,
    n: int,
    work_c: Seq<usize>,
    k: int,
    ua: int,
)
    requires
        cursors_at(l, work_c, k),
        n == l.dim_major(),
    ensures
        cursors_mid(l, u, n, work_c, k, ua, ua),
{
    reveal(cursors_at);
    reveal(cursors_mid);
    assert forall|j: int| 0 <= j < n implies !processed(u, ua, ua, j) by {
        if processed(u, ua, ua, j) {
            let s0 = choose|s0: int| ua <= s0 < ua && #[trigger] u.indices()[s0] == j;
        }
    }
}

/// Reading through a cursor while lane `k` is in flight: the cursor of the
/// lane's current entry is its start-of-iteration value.
#[verifier::rlimit(50)]
proof fn lemma_cursor_current(
    l: &SparsityPattern,
    u: &SparsityPattern,
    n: int,
    work_c: Seq<usize>,
    k: int,
    ua: int,
    t: int,
    j0: int,
)
    requires
        cursors_mid(l, u, n, work_c, k, ua, t),
        0 <= j0 < n,
        !processed(u, ua, t, j0),
    ensures
        work_c[j0] == l.offsets()[j0] + count_lt(l.lane_seq(j0), k),
{
    reveal(cursors_mid);
}

/// Everything one iteration of the update phase needs to know before it
/// reads through a cursor: the lane entry is a valid, not yet processed
/// column, and its cursor points at a stored entry of the factor.
#[verifier::rlimit(100)]
proof fn lemma_update_pre(
    l: &SparsityPattern,
    u: &SparsityPattern,
    wc: Seq<usize>,
    k: int,
    ua: int,
    ub: int,
    t: int,
    j0: int,
)
    requires
        l.wf(),
        u.wf(),
        0 <= k < u.dim_major(),
        ua == u.offsets()[k],
        ub == u.offsets()[k + 1],
        ua <= t < ub,
        ub <= u.indices().len(),
        j0 == u.indices()[t],
        0 <= j0 < l.dim_major(),
        l.contains_entry(j0, k) <==> u.contains_entry(k, j0),
        cursors_mid(l, u, l.dim_major(), wc, k, ua, t),
        l.dim_major() <= wc.len(),
    ensures
        !processed(u, ua, t, j0),
        wc[j0] < l.offsets()[j0 + 1] <= l.spec_nnz(),
        wc[j0] + 1 <= usize::MAX,
{
    assert(u.contains_entry(k, j0)) by {
        assert(u.offsets()[k] <= t < u.offsets()[k + 1] && u.indices()[t] == j0);
    }
    assert(l.contains_entry(j0, k));
    lemma_update_read(l, u, k, ua, ub, t, j0);
    lemma_cursor_current(l, u, l.dim_major(), wc, k, ua, t, j0);
    assert(l.lane_seq(j0).len() == l.offsets()[j0 + 1] - l.offsets()[j0]);
}

/// One cursor advance: bumping column `j0`'s cursor records position `t` as
/// processed and preserves the cursor formula of every column.
#[verifier::rlimit(100)]
proof fn lemma_cursor_step(
    l: &SparsityPattern,
    u: &SparsityPattern,
    n: int,
    wc0: Seq<usize>,
    wc1: Seq<usize>,
    k: int,
    ua: int,
    t: int,
    j0: int,
)
    requires
        0 <= j0 < n <= wc0.len(),
        ua <= t < u.indices().len(),
        u.indices()[t] == j0,
        !processed(u, ua, t, j0),
        wc0[j0] + 1 <= usize::MAX,
        wc1 == wc0.update(j0, (wc0[j0] + 1) as usize),
        cursors_mid(l, u, n, wc0, k, ua, t),
    ensures
        cursors_mid(l, u, n, wc1, k, ua, t + 1),
{
    reveal(cursors_mid);
    assert forall|j: int|
        #![trigger wc1[j]]
        0 <= j < n implies wc1[j] == l.offsets()[j] + count_lt(l.lane_seq(j), k) + (if processed(
        u,
        ua,
        t + 1,
        j,
    ) {
        1int
    } else {
        0int
    }) by {
        lemma_processed_step(u, ua, t, j0, j);
        assert(wc0[j] == l.offsets()[j] + count_lt(l.lane_seq(j), k) + (if processed(u, ua, t, j) {
            1int
        } else {
            0int
        }));
    }
}

/// After the whole lane `k` of the `U` pattern is processed, every cursor
/// has stepped from the count at bound `k` to the count at bound `k + 1`.
#[verifier::rlimit(100)]
proof fn lemma_cursor_finish(
    l: &SparsityPattern,
    u: &SparsityPattern,
    work_c: Seq<usize>,
    k: int,
    ua: int,
    ub: int,
)
    requires
        l.wf(),
        u.wf(),
        l.dim_major() == u.dim_major(),
        l.dim_minor() == u.dim_major(),
        u.dim_minor() == u.dim_major(),
        0 <= k < u.dim_major(),
        ua == u.offsets()[k],
        ub == u.offsets()[k + 1],
        cursors_mid(l, u, l.dim_major(), work_c, k, ua, ub),
        forall|a: int, b: int|
            #![trigger l.contains_entry(a, b)]
            0 <= a < u.dim_major() && 0 <= b < u.dim_major() ==> (l.contains_entry(a, b)
                <==> u.contains_entry(b, a)),
    ensures
        cursors_at(l, work_c, k + 1),
{
    reveal(cursors_at);
    reveal(cursors_mid);
    assert forall|j: int|
        #![trigger work_c[j]]
        0 <= j < l.dim_major() implies work_c[j] == l.offsets()[j] + count_lt(
        l.lane_seq(j),
        k + 1,
    ) by {
        lemma_lane_seq_strict(l, j);
        lemma_count_lt_step(l.lane_seq(j), k);
        lemma_contains_iff_lane(l, j, k);
        assert(processed(u, ua, ub, j) <==> u.contains_entry(k, j)) by {
            if processed(u, ua, ub, j) {
                let s0 = choose|s0: int| ua <= s0 < ub && #[trigger] u.indices()[s0] == j;
                assert(u.offsets()[k] <= s0 < u.offsets()[k + 1] && u.indices()[s0] == j);
            }
            if u.contains_entry(k, j) {
                let s0 = choose|s0: int|
                    u.offsets()[k] <= s0 < u.offsets()[k + 1] && #[trigger] u.indices()[s0] == j;
                assert(ua <= s0 < ub && u.indices()[s0] == j);
            }
        }
        assert(l.contains_entry(j, k) <==> u.contains_entry(k, j));
        assert(work_c[j] == l.offsets()[j] + count_lt(l.lane_seq(j), k) + (if processed(
            u,
            ua,
            ub,
            j,
        ) {
            1int
        } else {
            0int
        }));
    }
}

/// One definitional step of the update-phase recurrence.
#[verifier::rlimit(100)]
proof fn lemma_update_mirror_step<S: Real>(
    l: &SparsityPattern,
    u: &SparsityPattern,
    lvals: Seq<S>,
    wxu0: Seq<S>,
    wcu0: Seq<usize>,
    k: int,
    t: int,
    post_wx: Seq<S>,
    post_wc: Seq<usize>,
)
    requires
        u.offsets()[k] <= t,
        0 <= t < u.indices().len(),
        ({
            let prev = update_loop_spec(l, u, lvals, wxu0, wcu0, k, t);
            let j0 = u.indices()[t] as int;
            let cj = prev.1[j0];
            let factor = lvals[cj as int].neg_spec();
            &&& post_wc == prev.1.update(j0, (cj + 1) as usize)
            &&& post_wx == if j0 < k {
                col_update_loop_spec(l, lvals, prev.0, k, j0, factor, l.offsets()[j0 + 1] as int)
            } else {
                prev.0
            }
        }),
    ensures
        (post_wx, post_wc) == update_loop_spec(l, u, lvals, wxu0, wcu0, k, t + 1),
{
}

impl<T: Real> CscCholesky<T> {
    /// Scatter phase of column `k`: zero the diagonal slot of the dense
    /// scratch, then load the values of the stored entries of column `k` of
    /// the matrix at or below the diagonal into it; entries above the
    /// diagonal are ignored, as the matrix is taken to be symmetric.
    #[verifier::rlimit(100)]
    fn scatter_column(&mut self, k: usize, values: &Vec<T>)
        requires
            old(self).wf(),
            k < old(self).m_pattern.dim_major(),
            values@.len() >= old(self).m_pattern.spec_nnz(),
        ensures
            final(self).wf(),
            final(self).m_pattern == old(self).m_pattern,
            final(self).u_pattern == old(self).u_pattern,
            final(self).l_factor == old(self).l_factor,
            final(self).work_c@ == old(self).work_c@,
            final(self).work_x@.len() == old(self).work_x@.len(),
            final(self).work_x@ == scatter_spec(
                &old(self).m_pattern,
                values@,
                old(self).work_x@,
                k as int,
            ),
    {
        proof {
            reveal(factor_patterns_wf);
            lemma_offsets_monotone(&self.m_pattern, k as int, k + 1);
            lemma_offsets_monotone(&self.m_pattern, k + 1, self.m_pattern.dim_major());
        }
        let ma = self.m_pattern.major_offsets[k];
        let mb = self.m_pattern.major_offsets[k + 1];
        self.work_x.set(k, T::zero());
        let ghost wx0 = self.work_x@;
        let mut p = ma;
        while p < mb
            invariant
                self.m_pattern.wf(),
                self.m_pattern == old(self).m_pattern,
                self.u_pattern == old(self).u_pattern,
                self.l_factor == old(self).l_factor,
                self.work_c@ == old(self).work_c@,
                self.work_x@.len() == old(self).work_x@.len(),
                self.m_pattern.dim_minor() == self.work_x@.len(),
                values@.len() >= self.m_pattern.spec_nnz(),
                ma == self.m_pattern.offsets()[k as int],
                mb == self.m_pattern.offsets()[k + 1],
                k < self.m_pattern.dim_major(),
                ma <= p <= mb,
                mb <= self.m_pattern.spec_nnz(),
                self.work_x@ == scatter_loop_spec(
                    &self.m_pattern,
                    values@,
                    wx0,
                    k as int,
                    p as int,
                ),
            decreases mb - p,
        {
            let irow = self.m_pattern.minor_indices[p];
            let ghost pre = self.work_x@;
            if irow >= k {
                let v = values[p].copy_value();
                self.work_x.set(irow, v);
            }
            proof {
                assert(scatter_loop_spec(&self.m_pattern, values@, wx0, k as int, p + 1)
                    == if self.m_pattern.indices()[p as int] >= k {
                    pre.update(self.m_pattern.indices()[p as int] as int, values@[p as int])
                } else {
                    pre
                });
            }
            p += 1;
        }
        proof {
            assert(final(self).work_x@ == scatter_spec(
                &old(self).m_pattern,
                values@,
                old(self).work_x@,
                k as int,
            )) by {
                assert(wx0 == old(self).work_x@.update(k as int, T::zero_spec()));
            }
        }
    }

    /// Update phase of column `k`: for every column `j` recorded in lane `k`
    /// of the `U` pattern, consume the next unread entry of `L`'s column `j`
    /// through the cursor array, and, for `j` strictly left of `k`, fold
    /// that entry's negation times the trailing part of column `j` into the
    /// dense scratch. On return every cursor has advanced past the entries
    /// of its column with row index at most `k`.
    #[verifier::rlimit(100)]
    #[verifier::spinoff_prover]
    fn update_column(&mut self, k: usize)
        requires
            old(self).wf(),
            k < old(self).m_pattern.dim_major(),
            old(self).work_c@.len() >= old(self).m_pattern.dim_major(),
            cursors_at(&old(self).l_factor.pattern, old(self).work_c@, k as int),
        ensures
            final(self).wf(),
            final(self).m_pattern == old(self).m_pattern,
            final(self).u_pattern == old(self).u_pattern,
            final(self).l_factor == old(self).l_factor,
            final(self).work_x@.len() == old(self).work_x@.len(),
            final(self).work_c@.len() == old(self).work_c@.len(),
            cursors_at(&old(self).l_factor.pattern, final(self).work_c@, k as int + 1),
            (final(self).work_x@, final(self).work_c@) == update_spec(
                &old(self).l_factor.pattern,
                &old(self).u_pattern,
                old(self).l_factor.values@,
                old(self).work_x@,
                old(self).work_c@,
                k as int,
            ),
    {
        proof {
            lemma_factor_frame(&self.m_pattern, &self.l_factor.pattern, &self.u_pattern);
            lemma_offsets_monotone(&self.u_pattern, k as int, k + 1);
            lemma_offsets_monotone(&self.u_pattern, k + 1, self.u_pattern.dim_major());
        }
        let ua = self.u_pattern.major_offsets[k];
        let ub = self.u_pattern.major_offsets[k + 1];
        let ghost wxu0 = self.work_x@;
        let ghost wcu0 = self.work_c@;
        proof {
            lemma_cursor_begin(
                &self.l_factor.pattern,
                &self.u_pattern,
                self.m_pattern.dim_major(),
                self.work_c@,
                k as int,
                ua as int,
            );
        }
        let mut t = ua;
        while t < ub
            invariant
                self.l_factor.wf(),
                self.u_pattern.wf(),
                self.m_pattern == old(self).m_pattern,
                self.u_pattern == old(self).u_pattern,
                self.l_factor == old(self).l_factor,
                self.work_x@.len() == old(self).work_x@.len(),
                self.work_c@.len() == old(self).work_c@.len(),
                old(self).work_c@.len() >= self.m_pattern.dim_major(),
                (self.work_x@, self.work_c@) == update_loop_spec(
                    &self.l_factor.pattern,
                    &self.u_pattern,
                    self.l_factor.values@,
                    wxu0,
                    wcu0,
                    k as int,
                    t as int,
                ),
                k < self.m_pattern.dim_major(),
                self.l_factor.pattern.dim_major() == self.m_pattern.dim_major(),
                self.l_factor.pattern.dim_minor() == self.m_pattern.dim_major(),
                self.u_pattern.dim_major() == self.m_pattern.dim_major(),
                self.u_pattern.dim_minor() == self.m_pattern.dim_major(),
                self.work_x@.len() == self.m_pattern.dim_major(),
                ua == self.u_pattern.offsets()[k as int],
                ub == self.u_pattern.offsets()[k + 1],
                ua <= t <= ub,
                ub <= self.u_pattern.spec_nnz(),
                cursors_mid(
                    &self.l_factor.pattern,
                    &self.u_pattern,
                    self.m_pattern.dim_major(),
                    self.work_c@,
                    k as int,
                    ua as int,
                    t as int,
                ),
                forall|a: int, b: int|
                    #![trigger self.l_factor.pattern.contains_entry(a, b)]
                    0 <= a < self.m_pattern.dim_major() && 0 <= b < self.m_pattern.dim_major()
                        ==> (self.l_factor.pattern.contains_entry(a, b)
                        <==> self.u_pattern.contains_entry(b, a)),
            decreases ub - t,
        {
            let j0 = self.u_pattern.minor_indices[t];
            proof {
                assert(j0 < self.m_pattern.dim_major());
                assert(self.l_factor.pattern.contains_entry(j0 as int, k as int)
                    <==> self.u_pattern.contains_entry(k as int, j0 as int));
                lemma_update_pre(
                    &self.l_factor.pattern,
                    &self.u_pattern,
                    self.work_c@,
                    k as int,
                    ua as int,
                    ub as int,
                    t as int,
                    j0 as int,
                );
            }
            let ghost pre_wx = self.work_x@;
            let ghost pre_wc = self.work_c@;
            let cj = self.work_c[j0];
            let lv = self.l_factor.values[cj].copy_value();
            let factor = lv.neg();
            let ghost wc_before = self.work_c@;
            self.work_c.set(j0, cj + 1);
            proof {
                lemma_cursor_step(
                    &self.l_factor.pattern,
                    &self.u_pattern,
                    self.m_pattern.dim_major(),
                    wc_before,
                    self.work_c@,
                    k as int,
                    ua as int,
                    t as int,
                    j0 as int,
                );
            }
            if j0 < k {
                self.apply_column_update(k, j0, &factor);
            }
            proof {
                lemma_update_mirror_step(
                    &self.l_factor.pattern,
                    &self.u_pattern,
                    self.l_factor.values@,
                    wxu0,
                    wcu0,
                    k as int,
                    t as int,
                    self.work_x@,
                    self.work_c@,
                );
            }
            t += 1;
        }
        proof {
            lemma_cursor_finish(
                &self.l_factor.pattern,
                &self.u_pattern,
                self.work_c@,
                k as int,
                ua as int,
                ub as int,
            );
        }
    }

    /// Folds `factor` times the at-or-below-diagonal part of `L`'s column
    /// `j0` into the dense scratch; the cursor array and the factor itself
    /// are untouched.
    #[verifier::rlimit(100)]
    fn apply_column_update(&mut self, k: usize, j0: usize, factor: &T)
        requires
            old(self).l_factor.wf(),
            j0 < old(self).l_factor.pattern.dim_major(),
            old(self).l_factor.pattern.dim_minor() == old(self).work_x@.len(),
        ensures
            final(self).m_pattern == old(self).m_pattern,
            final(self).u_pattern == old(self).u_pattern,
            final(self).l_factor == old(self).l_factor,
            final(self).work_c@ == old(self).work_c@,
            final(self).work_x@.len() == old(self).work_x@.len(),
            final(self).work_x@ == col_update_loop_spec(
                &old(self).l_factor.pattern,
                old(self).l_factor.values@,
                old(self).work_x@,
                k as int,
                j0 as int,
                *factor,
                old(self).l_factor.pattern.offsets()[j0 + 1] as int,
            ),
    {
        proof {
            lemma_offsets_monotone(&self.l_factor.pattern, j0 as int, j0 + 1);
            lemma_offsets_monotone(&self.l_factor.pattern, j0 + 1, self.l_factor.pattern.dim_major());
        }
        let za = self.l_factor.pattern.major_offsets[j0];
        let zb = self.l_factor.pattern.major_offsets[j0 + 1];
        let ghost wx0 = self.work_x@;
        let mut t2 = za;
        while t2 < zb
            invariant
                self.l_factor.wf(),
                self.m_pattern == old(self).m_pattern,
                self.u_pattern == old(self).u_pattern,
                self.l_factor == old(self).l_factor,
                self.work_c@ == old(self).work_c@,
                self.work_x@.len() == old(self).work_x@.len(),
                self.l_factor.pattern.dim_minor() == self.work_x@.len(),
                j0 < self.l_factor.pattern.dim_major(),
                za == self.l_factor.pattern.offsets()[j0 as int],
                zb == self.l_factor.pattern.offsets()[j0 + 1],
                za <= t2 <= zb,
                zb <= self.l_factor.pattern.spec_nnz(),
                self.work_x@ == col_update_loop_spec(
                    &self.l_factor.pattern,
                    self.l_factor.values@,
                    wx0,
                    k as int,
                    j0 as int,
                    *factor,
                    t2 as int,
                ),
            decreases zb - t2,
        {
            let z = self.l_factor.pattern.minor_indices[t2];
            let ghost pre = self.work_x@;
            if z >= k {
                let lzv = self.l_factor.values[t2].copy_value();
                let prod = lzv.mul(factor);
                let upd = self.work_x[z].add(&prod);
                self.work_x.set(z, upd);
            }
            proof {
                assert(col_update_loop_spec(
                    &self.l_factor.pattern,
                    self.l_factor.values@,
                    wx0,
                    k as int,
                    j0 as int,
                    *factor,
                    t2 + 1,
                ) == if self.l_factor.pattern.indices()[t2 as int] >= k {
                    let zz = self.l_factor.pattern.indices()[t2 as int] as int;
                    pre.update(
                        zz,
                        pre[zz].add_spec(&self.l_factor.values@[t2 as int].mul_spec(factor)),
                    )
                } else {
                    pre
                });
            }
            t2 += 1;
        }
    }

    /// Pivot phase of column `k`, run once the pivot is known positive:
    /// store the square root of the pivot as the first stored entry of
    /// column `k` of `L`, then overwrite every stored entry of the column
    /// with the corresponding scratch slot divided by that root, returning
    /// each touched slot to zero.
    #[verifier::rlimit(100)]
    fn pivot_column(&mut self, k: usize, denom: &T)
        requires
            old(self).wf(),
            k < old(self).m_pattern.dim_major(),
        ensures
            final(self).wf(),
            final(self).m_pattern == old(self).m_pattern,
            final(self).u_pattern == old(self).u_pattern,
            final(self).l_factor.pattern == old(self).l_factor.pattern,
            final(self).l_factor.values@.len() == old(self).l_factor.values@.len(),
            final(self).work_x@.len() == old(self).work_x@.len(),
            final(self).work_c@ == old(self).work_c@,
            (final(self).l_factor.values@, final(self).work_x@) == pivot_spec(
                &old(self).l_factor.pattern,
                old(self).l_factor.values@,
                old(self).work_x@,
                k as int,
                *denom,
            ),
    {
        proof {
            reveal(factor_patterns_wf);
            lemma_offsets_monotone(&self.l_factor.pattern, k as int, k + 1);
            lemma_offsets_monotone(&self.l_factor.pattern, k + 1, self.l_factor.pattern.dim_major());
        }
        let la = self.l_factor.pattern.major_offsets[k];
        let lb = self.l_factor.pattern.major_offsets[k + 1];
        if lb > la {
            let d = denom.copy_value();
            self.l_factor.values.set(la, d);
        }
        let ghost lv0 = self.l_factor.values@;
        let ghost wxp = self.work_x@;
        let mut t3 = la;
        while t3 < lb
            invariant
                self.l_factor.wf(),
                self.m_pattern == old(self).m_pattern,
                self.u_pattern == old(self).u_pattern,
                self.l_factor.pattern == old(self).l_factor.pattern,
                self.l_factor.values@.len() == old(self).l_factor.values@.len(),
                self.work_x@.len() == old(self).work_x@.len(),
                self.work_c@ == old(self).work_c@,
                self.l_factor.pattern.dim_minor() == self.work_x@.len(),
                k < self.l_factor.pattern.dim_major(),
                la == self.l_factor.pattern.offsets()[k as int],
                lb == self.l_factor.pattern.offsets()[k + 1],
                la <= t3 <= lb,
                lb <= self.l_factor.pattern.spec_nnz(),
                (self.l_factor.values@, self.work_x@) == pivot_loop_spec(
                    &self.l_factor.pattern,
                    lv0,
                    wxp,
                    k as int,
                    *denom,
                    t3 as int,
                ),
            decreases lb - t3,
        {
            let pr = self.l_factor.pattern.minor_indices[t3];
            let ghost prelv = self.l_factor.values@;
            let ghost prewx = self.work_x@;
            let nv = self.work_x[pr].div(denom);
            self.l_factor.values.set(t3, nv);
            self.work_x.set(pr, T::zero());
            proof {
                assert(pivot_loop_spec(&self.l_factor.pattern, lv0, wxp, k as int, *denom, t3 + 1)
                    == {
                    let pz = self.l_factor.pattern.indices()[t3 as int] as int;
                    (
                        prelv.update(t3 as int, prewx[pz].div_spec(denom)),
                        prewx.update(pz, T::zero_spec()),
                    )
                });
            }
            t3 += 1;
        }
        proof {
            assert((final(self).l_factor.values@, final(self).work_x@) == pivot_spec(
                &old(self).l_factor.pattern,
                old(self).l_factor.values@,
                old(self).work_x@,
                k as int,
                *denom,
            )) by {
                if old(self).l_factor.pattern.offsets()[k as int] < old(
                    self,
                ).l_factor.pattern.offsets()[k + 1] {
                    assert(lv0 == old(self).l_factor.values@.update(
                        old(self).l_factor.pattern.offsets()[k as int] as int,
                        *denom,
                    ));
                } else {
                    assert(lv0 == old(self).l_factor.values@);
                }
            }
        }
    }

    /// One full left-looking numeric pass over an existing structure: resets
    /// the cursor array from `L`'s column offsets and returns the factor
    /// values and the dense scratch to zero, then, column by column,
    /// scatters, applies the updates of all earlier columns recorded in the
    /// `U` pattern, and pivots. Fails with `NotPositiveDefinite` at the
    /// first non-positive pivot. Because every pass starts from the zeroed
    /// state the data model prescribes, its outcome is a function of the
    /// patterns and the supplied values alone: a failed pass leaves nothing
    /// behind that could leak into a later one.
    #[verifier::rlimit(100)]
    #[verifier::spinoff_prover]
    fn decompose_left_looking(&mut self, values: &Vec<T>) -> (res: Result<(), CholeskyError>)
        requires
            old(self).wf(),
            values@.len() >= old(self).m_pattern.spec_nnz(),
        ensures
            final(self).wf(),
            final(self).m_pattern == old(self).m_pattern,
            final(self).u_pattern == old(self).u_pattern,
            final(self).l_factor.pattern == old(self).l_factor.pattern,
            final(self).l_factor.values@.len() == old(self).l_factor.values@.len(),
            final(self).work_x@.len() == old(self).work_x@.len(),
            ({
                let st = decompose_upto_spec(
                    &old(self).m_pattern,
                    &old(self).l_factor.pattern,
                    &old(self).u_pattern,
                    values@,
                    zero_seq_spec(old(self).l_factor.values@.len() as int),
                    zero_seq_spec(old(self).m_pattern.dim_major()),
                    reset_cursors_spec(&old(self).l_factor.pattern),
                    old(self).m_pattern.dim_major(),
                );
                &&& (res is Ok <==> st.0)
                &&& (res is Err ==> res == Result::<(), CholeskyError>::Err(
                    CholeskyError::NotPositiveDefinite,
                ))
                &&& final(self).l_factor.values@ == st.1
                &&& final(self).work_x@ == st.2
                &&& final(self).work_c@ == st.3
            }),
            res is Ok ==> cursors_at(
                &old(self).l_factor.pattern,
                final(self).work_c@,
                old(self).m_pattern.dim_major(),
            ),
    {
        proof {
            reveal(factor_patterns_wf);
        }
        let n = self.m_pattern.major_dim();
        self.work_c.clear();
        let mut t: usize = 0;
        while t < n
            invariant
                self.wf(),
                self.m_pattern == old(self).m_pattern,
                self.u_pattern == old(self).u_pattern,
                self.l_factor == old(self).l_factor,
                self.work_x@ == old(self).work_x@,
                n == self.m_pattern.dim_major(),
                self.l_factor.pattern.dim_major() == n,
                t <= n,
                self.work_c@.len() == t,
                forall|j: int|
                    0 <= j < t ==> #[trigger] self.work_c@[j]
                        == self.l_factor.pattern.offsets()[j],
            decreases n - t,
        {
            let off_t = self.l_factor.pattern.major_offsets[t];
            self.work_c.push(off_t);
            t += 1;
        }
        let lnnz = self.l_factor.values.len();
        let mut zi: usize = 0;
        while zi < lnnz
            invariant
                self.wf(),
                self.m_pattern == old(self).m_pattern,
                self.u_pattern == old(self).u_pattern,
                self.l_factor.pattern == old(self).l_factor.pattern,
                self.work_x@ == old(self).work_x@,
                self.work_c@.len() == n,
                forall|j: int|
                    0 <= j < n ==> #[trigger] self.work_c@[j]
                        == self.l_factor.pattern.offsets()[j],
                n == self.m_pattern.dim_major(),
                self.l_factor.pattern.dim_major() == n,
                lnnz == self.l_factor.values@.len(),
                lnnz == old(self).l_factor.values@.len(),
                zi <= lnnz,
                forall|j: int| 0 <= j < zi ==> #[trigger] self.l_factor.values@[j]
                    == T::zero_spec(),
            decreases lnnz - zi,
        {
            self.l_factor.values.set(zi, T::zero());
            zi += 1;
        }
        let nr = self.work_x.len();
        let mut zj: usize = 0;
        while zj < nr
            invariant
                self.wf(),
                self.m_pattern == old(self).m_pattern,
                self.u_pattern == old(self).u_pattern,
                self.l_factor.pattern == old(self).l_factor.pattern,
                self.l_factor.values@.len() == old(self).l_factor.values@.len(),
                forall|j: int|
                    0 <= j < self.l_factor.values@.len() ==> #[trigger] self.l_factor.values@[j]
                        == T::zero_spec(),
                self.work_c@.len() == n,
                forall|j: int|
                    0 <= j < n ==> #[trigger] self.work_c@[j]
                        == self.l_factor.pattern.offsets()[j],
                n == self.m_pattern.dim_major(),
                self.l_factor.pattern.dim_major() == n,
                nr == self.work_x@.len(),
                nr == old(self).work_x@.len(),
                zj <= nr,
                forall|j: int| 0 <= j < zj ==> #[trigger] self.work_x@[j] == T::zero_spec(),
            decreases nr - zj,
        {
            self.work_x.set(zj, T::zero());
            zj += 1;
        }
        proof {
            assert(self.l_factor.values@ =~= zero_seq_spec::<T>(
                old(self).l_factor.values@.len() as int,
            ));
            assert(self.work_x@ =~= zero_seq_spec::<T>(old(self).m_pattern.dim_major()));
            assert(self.work_c@ =~= reset_cursors_spec(&self.l_factor.pattern));
            assert forall|j: int|
                #![trigger self.work_c@[j]]
                0 <= j < self.l_factor.pattern.dim_major() implies self.work_c@[j]
                == self.l_factor.pattern.offsets()[j] + count_lt(
                self.l_factor.pattern.lane_seq(j),
                0,
            ) by {
                lemma_count_lt_zero(self.l_factor.pattern.lane_seq(j));
            }
            assert(cursors_at(&self.l_factor.pattern, self.work_c@, 0)) by {
                reveal(cursors_at);
            }
        }
        let ghost lvd0 = zero_seq_spec::<T>(old(self).l_factor.values@.len() as int);
        let ghost wxd0 = zero_seq_spec::<T>(old(self).m_pattern.dim_major());
        let ghost wcd0 = self.work_c@;
        proof {
            assert(decompose_upto_spec(
                &self.m_pattern,
                &self.l_factor.pattern,
                &self.u_pattern,
                values@,
                lvd0,
                wxd0,
                wcd0,
                0,
            ) == (true, lvd0, wxd0, wcd0)) by {
                reveal(decompose_upto_spec);
            }
            assert(self.l_factor.pattern == old(self).l_factor.pattern);
            assert(wcd0 =~= reset_cursors_spec(&old(self).l_factor.pattern));
        }
        let mut k: usize = 0;
        while k < n
            invariant
                self.wf(),
                self.m_pattern == old(self).m_pattern,
                self.u_pattern == old(self).u_pattern,
                self.l_factor.pattern == old(self).l_factor.pattern,
                self.l_factor.values@.len() == old(self).l_factor.values@.len(),
                self.work_x@.len() == old(self).work_x@.len(),
                n == self.m_pattern.dim_major(),
                values@.len() >= self.m_pattern.spec_nnz(),
                k <= n,
                self.work_c@.len() == n,
                cursors_at(&self.l_factor.pattern, self.work_c@, k as int),
                lvd0 == zero_seq_spec::<T>(old(self).l_factor.values@.len() as int),
                wxd0 == zero_seq_spec::<T>(old(self).m_pattern.dim_major()),
                wcd0 == reset_cursors_spec(&old(self).l_factor.pattern),
                ({
                    let st = decompose_upto_spec(
                        &self.m_pattern,
                        &self.l_factor.pattern,
                        &self.u_pattern,
                        values@,
                        lvd0,
                        wxd0,
                        wcd0,
                        k as int,
                    );
                    &&& st.0
                    &&& self.l_factor.values@ == st.1
                    &&& self.work_x@ == st.2
                    &&& self.work_c@ == st.3
                }),
            decreases n - k,
        {
            let ghost pre_lv = self.l_factor.values@;
            let ghost pre_wx = self.work_x@;
            let ghost pre_wc = self.work_c@;
            self.scatter_column(k, values);
            self.update_column(k);
            let diag = self.work_x[k].copy_value();
            if diag.is_positive() {
                let denom = diag.sqrt();
                self.pivot_column(k, &denom);
                proof {
                    assert(decompose_upto_spec(
                        &self.m_pattern,
                        &self.l_factor.pattern,
                        &self.u_pattern,
                        values@,
                        lvd0,
                        wxd0,
                        wcd0,
                        k + 1,
                    ) == (true, self.l_factor.values@, self.work_x@, self.work_c@)) by {
                        reveal(decompose_upto_spec);
                        assert(decompose_upto_spec(
                            &self.m_pattern,
                            &self.l_factor.pattern,
                            &self.u_pattern,
                            values@,
                            lvd0,
                            wxd0,
                            wcd0,
                            k as int,
                        ) == (true, pre_lv, pre_wx, pre_wc));
                    }
                }
            } else {
                proof {
                    assert(decompose_upto_spec(
                        &self.m_pattern,
                        &self.l_factor.pattern,
                        &self.u_pattern,
                        values@,
                        lvd0,
                        wxd0,
                        wcd0,
                        k + 1,
                    ) == (false, self.l_factor.values@, self.work_x@, self.work_c@)) by {
                        reveal(decompose_upto_spec);
                        assert(decompose_upto_spec(
                            &self.m_pattern,
                            &self.l_factor.pattern,
                            &self.u_pattern,
                            values@,
                            lvd0,
                            wxd0,
                            wcd0,
                            k as int,
                        ) == (true, pre_lv, pre_wx, pre_wc));
                    }
                    lemma_decompose_frozen(
                        &self.m_pattern,
                        &self.l_factor.pattern,
                        &self.u_pattern,
                        values@,
                        lvd0,
                        wxd0,
                        wcd0,
                        k + 1,
                        n as int,
                    );
                }
                return Err(CholeskyError::NotPositiveDefinite);
            }
            k += 1;
        }
        Ok(())
    }
}

/// Decides whether every lane of a pattern is confined to indices at most
/// its lane number.
#[verifier::rlimit(100)]
fn check_triangular(u: &SparsityPattern) -> (ok: bool)
    requires
        u.wf(),
    ensures
        ok == (forall|k: int, t: int|
            #![trigger u.offsets()[k], u.indices()[t]]
            0 <= k < u.dim_major() && u.offsets()[k] <= t < u.offsets()[k + 1] ==> u.indices()[t]
                <= k),
{
    let n = u.major_dim();
    let mut k: usize = 0;
    while k < n
        invariant
            u.wf(),
            n == u.dim_major(),
            k <= n,
            forall|kk: int, t: int|
                #![trigger u.offsets()[kk], u.indices()[t]]
                0 <= kk < k && u.offsets()[kk] <= t < u.offsets()[kk + 1] ==> u.indices()[t] <= kk,
        decreases n - k,
    {
        let a = u.major_offsets[k];
        let b = u.major_offsets[k + 1];
        proof {
            lemma_offsets_monotone(u, k as int, k + 1);
            lemma_offsets_monotone(u, k + 1, u.dim_major());
        }
        let mut t = a;
        while t < b
            invariant
                u.wf(),
                n == u.dim_major(),
                k < n,
                a == u.offsets()[k as int],
                b == u.offsets()[k + 1],
                a <= t <= b,
                b <= u.spec_nnz(),
                forall|tt: int| a <= tt < t ==> #[trigger] u.indices()[tt] <= k,
            decreases b - t,
        {
            if u.minor_indices[t] > k {
                assert(!(u.indices()[t as int] <= k));
                return false;
            }
            t += 1;
        }
        k += 1;
    }
    true
}

/// Decides whether every stored entry `(j, r)` of the first pattern appears
/// mirrored as `(r, j)` in the second.
#[verifier::rlimit(100)]
fn check_mirrored_in(a: &SparsityPattern, b: &SparsityPattern) -> (ok: bool)
    requires
        a.wf(),
        b.wf(),
        a.dim_minor() == b.dim_major(),
    ensures
        ok == (forall|j: int, r: int|
            #![trigger a.contains_entry(j, r)]
            0 <= j < a.dim_major() && 0 <= r < a.dim_minor() && a.contains_entry(j, r)
                ==> b.contains_entry(r, j)),
{
    let n = a.major_dim();
    let mut j: usize = 0;
    while j < n
        invariant
            a.wf(),
            b.wf(),
            a.dim_minor() == b.dim_major(),
            n == a.dim_major(),
            j <= n,
            forall|jj: int, t: int|
                #![trigger a.offsets()[jj], a.indices()[t]]
                0 <= jj < j && a.offsets()[jj] <= t < a.offsets()[jj + 1] ==> b.contains_entry(
                    a.indices()[t] as int,
                    jj,
                ),
        decreases n - j,
    {
        let oa = a.major_offsets[j];
        let ob = a.major_offsets[j + 1];
        proof {
            lemma_offsets_monotone(a, j as int, j + 1);
            lemma_offsets_monotone(a, j + 1, a.dim_major());
        }
        let mut t = oa;
        while t < ob
            invariant
                a.wf(),
                b.wf(),
                a.dim_minor() == b.dim_major(),
                n == a.dim_major(),
                j < n,
                oa == a.offsets()[j as int],
                ob == a.offsets()[j + 1],
                oa <= t <= ob,
                ob <= a.spec_nnz(),
                forall|tt: int|
                    oa <= tt < t ==> b.contains_entry(#[trigger] a.indices()[tt] as int, j as int),
            decreases ob - t,
        {
            let r = a.minor_indices[t];
            if !b.lane_contains(r, j) {
                proof {
                    assert(a.contains_entry(j as int, r as int)) by {
                        assert(a.offsets()[j as int] <= t < a.offsets()[j + 1]
                            && a.indices()[t as int] == r);
                    }
                }
                return false;
            }
            t += 1;
        }
        j += 1;
    }
    proof {
        assert forall|jq: int, r: int|
            #![trigger a.contains_entry(jq, r)]
            0 <= jq < a.dim_major() && 0 <= r < a.dim_minor() && a.contains_entry(jq, r)
            implies b.contains_entry(r, jq) by {
            let t0 = choose|t0: int|
                a.major_offsets@[jq] <= t0 < a.major_offsets@[jq + 1]
                    && #[trigger] a.minor_indices@[t0] == r;
            assert(a.offsets()[jq] <= t0 < a.offsets()[jq + 1]);
            assert(a.indices()[t0] == r);
        }
    }
    true
}

/// Decides the factorization relation between three patterns exactly.
#[verifier::rlimit(100)]
#[verifier::spinoff_prover]
fn check_factor_patterns(m: &SparsityPattern, l: &SparsityPattern, u: &SparsityPattern) -> (ok:
    bool)
    ensures
        ok == factor_patterns_wf(m, l, u),
{
    proof {
        reveal(factor_patterns_wf);
    }
    if !m.is_structurally_valid() {
        return false;
    }
    if !l.is_structurally_valid() {
        return false;
    }
    if !u.is_structurally_valid() {
        return false;
    }
    if m.major_dim() != m.minor_dim() {
        return false;
    }
    if l.major_dim() != m.major_dim() || l.minor_dim() != m.major_dim() {
        return false;
    }
    if u.major_dim() != m.major_dim() || u.minor_dim() != m.major_dim() {
        return false;
    }
    if l.nnz() != u.nnz() {
        return false;
    }
    if !check_triangular(u) {
        return false;
    }
    if !check_mirrored_in(l, u) {
        return false;
    }
    if !check_mirrored_in(u, l) {
        return false;
    }
    proof {
        assert forall|a: int, b: int|
            #![trigger l.contains_entry(a, b)]
            0 <= a < m.dim_major() && 0 <= b < m.dim_major() implies (l.contains_entry(a, b)
            <==> u.contains_entry(b, a)) by {
            if l.contains_entry(a, b) {
                assert(u.contains_entry(b, a));
            }
            if u.contains_entry(b, a) {
                assert(l.contains_entry(a, b));
            }
        }
    }
    true
}

/// A factor pattern with a structural diagonal: every column is nonempty
/// and stores its diagonal row index first. The triangular solves divide by
/// the diagonal entries, so they are defined exactly for such factors; a
/// factorization of a matrix whose lanes hold their diagonal always has
/// this property.
pub open(crate) spec fn lane_starts_with_diagonal(l: &SparsityPattern, k: int) -> bool {
    l.offsets()[k] < l.offsets()[k + 1] && l.indices()[l.offsets()[k] as int] == k
}

/// A factor pattern with a structural diagonal: every column is nonempty
/// and stores its diagonal row index first.
pub open(crate) spec fn has_full_diagonal(l: &SparsityPattern) -> bool {
    forall|k: int| 0 <= k < l.dim_major() ==> #[trigger] lane_starts_with_diagonal(l, k)
}

/// One dense column after the tail of the forward solve of column `k` has
/// processed the stored sub-diagonal entries at positions below `t`: each
/// subtracts that factor entry times the just-solved component from its
/// row's slot.
#[verifier::opaque]
pub open(crate) spec fn fwd_col_loop_spec<T: Real>(
    l: &SparsityPattern,
    lvals: Seq<T>,
    x: Seq<T>,
    k: int,
    t: int,
) -> Seq<T>
    decreases t,
{
    if t <= l.offsets()[k] + 1 {
        x
    } else {
        let prev = fwd_col_loop_spec(l, lvals, x, k, t - 1);
        let z = l.indices()[t - 1] as int;
        prev.update(z, prev[z].add_spec(&lvals[t - 1].mul_spec(&prev[k]).neg_spec()))
    }
}

/// One dense column after the whole forward-solve step of column `k`: the
/// component is divided by the diagonal entry, then propagated down the
/// column.
#[verifier::opaque]
pub open(crate) spec fn fwd_col_spec<T: Real>(
    l: &SparsityPattern,
    lvals: Seq<T>,
    x: Seq<T>,
    k: int,
) -> Seq<T> {
    fwd_col_loop_spec(
        l,
        lvals,
        x.update(k, x[k].div_spec(&lvals[l.offsets()[k] as int])),
        k,
        l.offsets()[k + 1] as int,
    )
}

/// One dense column after the forward solve `L y = x` has processed columns
/// `0 .. k`.
#[verifier::opaque]
pub open(crate) spec fn fwd_upto_spec<T: Real>(
    l: &SparsityPattern,
    lvals: Seq<T>,
    x: Seq<T>,
    k: int,
) -> Seq<T>
    decreases k,
{
    if k <= 0 {
        x
    } else {
        fwd_col_spec(l, lvals, fwd_upto_spec(l, lvals, x, k - 1), k - 1)
    }
}

/// The accumulator of the backward-solve step of column `k` after folding
/// the stored sub-diagonal entries at positions below `t`: each subtracts
/// that factor entry times its row's already-solved component.
#[verifier::opaque]
pub open(crate) spec fn bwd_col_acc_spec<T: Real>(
    l: &SparsityPattern,
    lvals: Seq<T>,
    x: Seq<T>,
    k: int,
    t: int,
) -> T
    decreases t,
{
    if t <= l.offsets()[k] + 1 {
        x[k]
    } else {
        bwd_col_acc_spec(l, lvals, x, k, t - 1).add_spec(
            &lvals[t - 1].mul_spec(&x[l.indices()[t - 1] as int]).neg_spec(),
        )
    }
}

/// One dense column after the backward solve `L^T y = x` has processed
/// columns `k .. n`, from the last downwards.
#[verifier::opaque]
pub open(crate) spec fn bwd_from_spec<T: Real>(
    l: &SparsityPattern,
    lvals: Seq<T>,
    x: Seq<T>,
    k: int,
    n: int,
) -> Seq<T>
    decreases n - k,
{
    if k >= n {
        x
    } else {
        let prev = bwd_from_spec(l, lvals, x, k + 1, n);
        prev.update(
            k,
            bwd_col_acc_spec(l, lvals, prev, k, l.offsets()[k + 1] as int).div_spec(
                &lvals[l.offsets()[k] as int],
            ),
        )
    }
}

/// One dense column solved through `A x = b`: the forward substitution
/// through `L`, then the backward substitution through `L^T`.
#[verifier::opaque]
pub open(crate) spec fn solve_column_spec<T: Real>(
    l: &SparsityPattern,
    lvals: Seq<T>,
    x: Seq<T>,
    n: int,
) -> Seq<T> {
    bwd_from_spec(l, lvals, fwd_upto_spec(l, lvals, x, n), 0, n)
}

/// Hands out one column of a dense column store for in-place mutation.
fn column_mut<T>(columns: &mut Vec<Vec<T>>, i: usize) -> (element: &mut Vec<T>)
    requires
        i < old(columns).len(),
    ensures
        *element == old(columns)@[i as int],
        final(columns)@ == old(columns)@.update(i as int, *final(element)),
{
    &mut columns[i]
}

/// Solves `L y = x` in place for one dense column, forward substitution
/// down the columns of the lower-triangular factor.
#[verifier::rlimit(100)]
#[verifier::spinoff_prover]
fn spsolve_lower_no_transpose<T: Real>(l: &CscMatrix<T>, x: &mut Vec<T>)
    requires
        l.wf(),
        l.spec_nrows() == l.spec_ncols(),
        has_full_diagonal(&l.spec_pattern()),
        old(x)@.len() == l.spec_ncols(),
    ensures
        final(x)@.len() == old(x)@.len(),
        final(x)@ == fwd_upto_spec(
            &l.spec_pattern(),
            l.spec_values(),
            old(x)@,
            l.spec_ncols(),
        ),
{
    let n = l.ncols();
    let ghost x0 = x@;
    proof {
        assert(x@ == fwd_upto_spec(&l.spec_pattern(), l.spec_values(), x0, 0)) by {
            reveal(fwd_upto_spec);
        }
    }
    let mut k: usize = 0;
    while k < n
        invariant
            l.wf(),
            l.spec_nrows() == l.spec_ncols(),
            has_full_diagonal(&l.spec_pattern()),
            n == l.spec_ncols(),
            x@.len() == n,
            k <= n,
            x@ == fwd_upto_spec(&l.spec_pattern(), l.spec_values(), x0, k as int),
        decreases n - k,
    {
        let a = l.pattern.major_offsets[k];
        let b2 = l.pattern.major_offsets[k + 1];
        proof {
            lemma_offsets_monotone(&l.pattern, k as int, k + 1);
            lemma_offsets_monotone(&l.pattern, k + 1, l.pattern.dim_major());
            assert(lane_starts_with_diagonal(&l.pattern, k as int));
        }
        let ghost xin = x@;
        let xk = x[k].div(&l.values[a]);
        x.set(k, xk);
        let ghost xd = x@;
        proof {
            assert(x@ == fwd_col_loop_spec(&l.spec_pattern(), l.spec_values(), xd, k as int, a + 1))
                by {
                reveal(fwd_col_loop_spec);
            }
        }
        let mut t = a + 1;
        while t < b2
            invariant
                l.wf(),
                l.spec_nrows() == l.spec_ncols(),
                n == l.spec_ncols(),
                x@.len() == n,
                k < n,
                a == l.spec_pattern().offsets()[k as int],
                b2 == l.spec_pattern().offsets()[k + 1],
                a < t <= b2,
                b2 <= l.spec_pattern().spec_nnz(),
                x@ == fwd_col_loop_spec(&l.spec_pattern(), l.spec_values(), xd, k as int, t as int),
            decreases b2 - t,
        {
            let z = l.pattern.minor_indices[t];
            let ghost pre = x@;
            let prod = l.values[t].mul(&x[k]);
            let upd = x[z].add(&prod.neg());
            x.set(z, upd);
            proof {
                reveal(fwd_col_loop_spec);
                assert(fwd_col_loop_spec(&l.spec_pattern(), l.spec_values(), xd, k as int, t + 1)
                    == {
                    let zz = l.spec_pattern().indices()[t as int] as int;
                    pre.update(
                        zz,
                        pre[zz].add_spec(&l.spec_values()[t as int].mul_spec(&pre[k as int]).neg_spec()),
                    )
                });
            }
            t += 1;
        }
        proof {
            assert(x@ == fwd_col_spec(&l.spec_pattern(), l.spec_values(), xin, k as int)) by {
                reveal(fwd_col_spec);
                assert(xd == xin.update(
                    k as int,
                    xin[k as int].div_spec(
                        &l.spec_values()[l.spec_pattern().offsets()[k as int] as int],
                    ),
                ));
            }
            assert(x@ == fwd_upto_spec(&l.spec_pattern(), l.spec_values(), x0, k + 1)) by {
                reveal(fwd_upto_spec);
            }
        }
        k += 1;
    }
}

/// Solves `L^T y = x` in place for one dense column, backward substitution
/// up the columns of the lower-triangular factor.
#[verifier::rlimit(100)]
#[verifier::spinoff_prover]
fn spsolve_lower_transpose<T: Real>(l: &CscMatrix<T>, x: &mut Vec<T>)
    requires
        l.wf(),
        l.spec_nrows() == l.spec_ncols(),
        has_full_diagonal(&l.spec_pattern()),
        old(x)@.len() == l.spec_ncols(),
    ensures
        final(x)@.len() == old(x)@.len(),
        final(x)@ == bwd_from_spec(
            &l.spec_pattern(),
            l.spec_values(),
            old(x)@,
            0,
            l.spec_ncols(),
        ),
{
    let n = l.ncols();
    let ghost x0 = x@;
    proof {
        assert(x@ == bwd_from_spec(&l.spec_pattern(), l.spec_values(), x0, n as int, n as int)) by {
            reveal(bwd_from_spec);
        }
    }
    let mut k: usize = n;
    while k > 0
        invariant
            l.wf(),
            l.spec_nrows() == l.spec_ncols(),
            has_full_diagonal(&l.spec_pattern()),
            n == l.spec_ncols(),
            x@.len() == n,
            k <= n,
            x@ == bwd_from_spec(&l.spec_pattern(), l.spec_values(), x0, k as int, n as int),
        decreases k,
    {
        k -= 1;
        let a = l.pattern.major_offsets[k];
        let b2 = l.pattern.major_offsets[k + 1];
        proof {
            lemma_offsets_monotone(&l.pattern, k as int, k + 1);
            lemma_offsets_monotone(&l.pattern, k + 1, l.pattern.dim_major());
            assert(lane_starts_with_diagonal(&l.pattern, k as int));
        }
        let ghost xin = x@;
        let mut acc = x[k].copy_value();
        proof {
            assert(acc == bwd_col_acc_spec(&l.spec_pattern(), l.spec_values(), xin, k as int, a + 1))
                by {
                reveal(bwd_col_acc_spec);
            }
        }
        let mut t = a + 1;
        while t < b2
            invariant
                l.wf(),
                l.spec_nrows() == l.spec_ncols(),
                n == l.spec_ncols(),
                x@.len() == n,
                x@ == xin,
                k < n,
                a == l.spec_pattern().offsets()[k as int],
                b2 == l.spec_pattern().offsets()[k + 1],
                a < t <= b2,
                b2 <= l.spec_pattern().spec_nnz(),
                acc == bwd_col_acc_spec(&l.spec_pattern(), l.spec_values(), xin, k as int, t as int),
            decreases b2 - t,
        {
            let z = l.pattern.minor_indices[t];
            let ghost accp = acc;
            let prod = l.values[t].mul(&x[z]);
            acc = acc.add(&prod.neg());
            proof {
                reveal(bwd_col_acc_spec);
                assert(bwd_col_acc_spec(&l.spec_pattern(), l.spec_values(), xin, k as int, t + 1)
                    == accp.add_spec(
                    &l.spec_values()[t as int].mul_spec(
                        &xin[l.spec_pattern().indices()[t as int] as int],
                    ).neg_spec(),
                ));
            }
            t += 1;
        }
        let xk = acc.div(&l.values[a]);
        x.set(k, xk);
        proof {
            assert(x@ == bwd_from_spec(&l.spec_pattern(), l.spec_values(), x0, k as int, n as int))
                by {
                reveal(bwd_from_spec);
                assert(xin == bwd_from_spec(
                    &l.spec_pattern(),
                    l.spec_values(),
                    x0,
                    k as int + 1,
                    n as int,
                ));
            }
        }
    }
}

impl<T: Real> CscCholesky<T> {
    /// Solves `A X = B` in place: a forward solve `L Y = B` followed by a
    /// backward solve `L^T X = Y`, column by column. `B` must have one row
    /// per matrix row; any number of columns is accepted. The factor must
    /// carry its full structural diagonal, which holds for every
    /// factorization of a matrix whose columns store their diagonal entry.
    pub fn solve_mut(&self, b: &mut DenseMatrix<T>)
        requires
            self.wf(),
            has_full_diagonal(&self.l_pat()),
            old(b).wf(),
            old(b).spec_nrows() == self.m_pat().dim_major(),
        ensures
            final(b).wf(),
            final(b).spec_nrows() == old(b).spec_nrows(),
            final(b).spec_ncols() == old(b).spec_ncols(),
            forall|c: int|
                0 <= c < old(b).spec_ncols() ==> (#[trigger] final(b).spec_columns()[c])@
                    == solve_column_spec(
                    &self.l_pat(),
                    self.l_mat().spec_values(),
                    old(b).spec_columns()[c]@,
                    self.m_pat().dim_major(),
                ),
    {
        proof {
            lemma_factor_dims(&self.m_pattern, &self.l_factor.pattern, &self.u_pattern);
        }
        let ghost b0 = b.columns@;
        let nc = b.columns.len();
        let mut c: usize = 0;
        while c < nc
            invariant
                self.wf(),
                self.l_factor.wf(),
                self.l_factor.pattern.dim_major() == self.m_pat().dim_major(),
                self.l_factor.pattern.dim_minor() == self.m_pat().dim_major(),
                has_full_diagonal(&self.l_pat()),
                b.wf(),
                b.nrows == old(b).nrows,
                b.spec_nrows() == self.m_pat().dim_major(),
                b.columns@.len() == nc,
                b0 == old(b).spec_columns(),
                b0.len() == nc,
                c <= nc,
                forall|t: int| c <= t < nc ==> (#[trigger] b.columns@[t])@ == b0[t]@,
                forall|t: int|
                    0 <= t < c ==> (#[trigger] b.columns@[t])@ == solve_column_spec(
                        &self.l_pat(),
                        self.l_mat().spec_values(),
                        b0[t]@,
                        self.m_pat().dim_major(),
                    ),
            decreases nc - c,
        {
            let ghost colin = b.columns@[c as int]@;
            let col = column_mut(&mut b.columns, c);
            spsolve_lower_no_transpose(&self.l_factor, col);
            spsolve_lower_transpose(&self.l_factor, col);
            proof {
                assert(colin == b0[c as int]@);
                assert(final(col)@ == solve_column_spec(
                    &self.l_pat(),
                    self.l_mat().spec_values(),
                    colin,
                    self.m_pat().dim_major(),
                )) by {
                    reveal(solve_column_spec);
                }
            }
            c += 1;
        }
    }

    /// Solves `A X = B` into a fresh dense matrix, leaving `B` untouched.
    pub fn solve(&self, b: &DenseMatrix<T>) -> (x: DenseMatrix<T>)
        requires
            self.wf(),
            has_full_diagonal(&self.l_pat()),
            b.wf(),
            b.spec_nrows() == self.m_pat().dim_major(),
        ensures
            x.wf(),
            x.spec_nrows() == b.spec_nrows(),
            x.spec_ncols() == b.spec_ncols(),
            forall|c: int|
                0 <= c < b.spec_ncols() ==> (#[trigger] x.spec_columns()[c])@
                    == solve_column_spec(
                    &self.l_pat(),
                    self.l_mat().spec_values(),
                    b.spec_columns()[c]@,
                    self.m_pat().dim_major(),
                ),
    {
        let nr = b.nrows();
        let nc = b.ncols();
        let mut columns: Vec<Vec<T>> = Vec::new();
        let mut c: usize = 0;
        while c < nc
            invariant
                b.wf(),
                nr == b.spec_nrows(),
                nc == b.spec_ncols(),
                c <= nc,
                columns@.len() == c,
                forall|t: int| 0 <= t < c ==> #[trigger] columns@[t]@.len() == nr,
                forall|t: int| 0 <= t < c ==> (#[trigger] columns@[t])@ == b.spec_columns()[t]@,
            decreases nc - c,
        {
            let mut col: Vec<T> = Vec::new();
            let mut r: usize = 0;
            while r < nr
                invariant
                    b.wf(),
                    nr == b.spec_nrows(),
                    nc == b.spec_ncols(),
                    c < nc,
                    r <= nr,
                    col@.len() == r,
                    col@ == b.spec_columns()[c as int]@.subrange(0, r as int),
                decreases nr - r,
            {
                let v = b.get(r, c).copy_value();
                col.push(v);
                proof {
                    assert(col@ =~= b.spec_columns()[c as int]@.subrange(0, r + 1));
                }
                r += 1;
            }
            proof {
                assert(col@ =~= b.spec_columns()[c as int]@);
            }
            columns.push(col);
            c += 1;
        }
        let mut out = DenseMatrix { nrows: nr, columns };
        self.solve_mut(&mut out);
        out
    }
}

} // verus!
