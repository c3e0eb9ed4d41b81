//! Compressed sparsity patterns: the immutable nonzero structure shared by the
//! symbolic and numeric phases of the sparse Cholesky factorization.

use vstd::prelude::*;
use vstd::slice::slice_subrange;
use vstd::slice::slice_to_vec;

verus! {

/// The nonzero structure of a sparse matrix in compressed (CSC-style) form.
///
/// `major_offsets` has one entry per lane plus one: lane `j` occupies the
/// half-open range `major_offsets[j] .. major_offsets[j + 1]` of
/// `minor_indices`. Within each lane the stored minor indices are strictly
/// ascending and below `minor_dim`. Every constructor of this type
/// establishes that invariant, so no ill-formed pattern is ever observable.
#[derive(Debug)]
pub struct SparsityPattern {
    pub(crate) major_dim: usize,
    pub(crate) minor_dim: usize,
    pub(crate) major_offsets: Vec<usize>,
    pub(crate) minor_indices: Vec<usize>,
}

/// The ways a compressed pattern handed in as raw offset and index arrays can
/// be malformed.
#[derive(Debug, Clone, Copy, PartialEq, Eq, Structural)]
pub enum SparsityPatternFormatError {
    /// The offset array does not hold exactly `major_dim + 1` entries.
    InvalidOffsetArrayLength,
    /// The first offset is not zero.
    InvalidOffsetFirstEntry,
    /// The last offset does not equal the number of stored indices.
    InvalidOffsetLastEntry,
    /// Some offset exceeds its successor.
    NonmonotonicOffsets,
    /// Some stored minor index is not below `minor_dim`.
    MinorIndexOutOfBounds,
    /// Some lane's minor indices are not strictly ascending.
    NonmonotonicMinorIndices,
}

/// The offset array has exactly one entry per lane plus one.
pub open(crate) spec fn offsets_len_ok(offsets: Seq<usize>, major_dim: usize) -> bool {
    offsets.len() == major_dim + 1
}

/// The first offset is zero.
pub open(crate) spec fn offsets_first_ok(offsets: Seq<usize>) -> bool {
    offsets.len() > 0 && offsets[0] == 0
}

/// The last offset equals the total number of stored indices.
pub open(crate) spec fn offsets_last_ok(offsets: Seq<usize>, nnz: nat) -> bool {
    offsets.len() > 0 && offsets[offsets.len() - 1] == nnz
}

/// Offsets never decrease from left to right.
pub open(crate) spec fn offsets_monotonic(offsets: Seq<usize>) -> bool {
    forall|i: int, j: int|
        #![trigger offsets[i], offsets[j]]
        0 <= i <= j < offsets.len() ==> offsets[i] <= offsets[j]
}

/// Every stored minor index is below the minor dimension.
pub open(crate) spec fn minor_indices_in_bounds(indices: Seq<usize>, minor_dim: usize) -> bool {
    forall|p: int| 0 <= p < indices.len() ==> #[trigger] indices[p] < minor_dim
}

/// Within each lane, stored minor indices strictly ascend.
pub open(crate) spec fn lanes_sorted(offsets: Seq<usize>, indices: Seq<usize>) -> bool {
    forall|j: int, p: int, q: int|
        #![trigger offsets[j], indices[p], indices[q]]
        0 <= j < offsets.len() - 1 && offsets[j] <= p < q < offsets[j + 1] ==> indices[p]
            < indices[q]
}

impl SparsityPattern {
    /// The structural invariant: well-formed offsets and strictly ascending,
    /// in-bounds lanes.
    pub open(crate) spec fn wf(&self) -> bool {
        &&& offsets_len_ok(self.major_offsets@, self.major_dim)
        &&& offsets_first_ok(self.major_offsets@)
        &&& offsets_last_ok(self.major_offsets@, self.minor_indices@.len())
        &&& offsets_monotonic(self.major_offsets@)
        &&& minor_indices_in_bounds(self.minor_indices@, self.minor_dim)
        &&& lanes_sorted(self.major_offsets@, self.minor_indices@)
    }


    /// The major dimension, for specifications.
    pub open(crate) spec fn dim_major(&self) -> int {
        self.major_dim as int
    }

    /// The minor dimension, for specifications.
    pub open(crate) spec fn dim_minor(&self) -> int {
        self.minor_dim as int
    }

    /// The offset array, for specifications.
    pub open(crate) spec fn offsets(&self) -> Seq<usize> {
        self.major_offsets@
    }

    /// The index array, for specifications.
    pub open(crate) spec fn indices(&self) -> Seq<usize> {
        self.minor_indices@
    }

    /// The number of stored entries, for specifications.
    pub open(crate) spec fn spec_nnz(&self) -> int {
        self.minor_indices@.len() as int
    }

    /// Structural sameness: equal dimensions and equal raw arrays. A copy is
    /// congruent to its original, and congruent patterns are interchangeable
    /// in every specification of this crate.
    pub open(crate) spec fn congruent(&self, other: &SparsityPattern) -> bool {
        &&& self.major_dim == other.major_dim
        &&& self.minor_dim == other.minor_dim
        &&& self.major_offsets@ == other.major_offsets@
        &&& self.minor_indices@ == other.minor_indices@
    }

    /// Lane `j` holds minor index `r`, that is, the pattern has an entry at
    /// major index `j`, minor index `r`.
    pub open(crate) spec fn contains_entry(&self, j: int, r: int) -> bool {
        parts_contain(self.major_offsets@, self.minor_indices@, j, r)
    }

    /// The stored minor indices of lane `j`, in order.
    pub open(crate) spec fn lane_seq(&self, j: int) -> Seq<usize> {
        self.minor_indices@.subrange(
            self.major_offsets@[j] as int,
            self.major_offsets@[j + 1] as int,
        )
    }

    /// The major dimension: the number of lanes.
    pub fn major_dim(&self) -> (d: usize)
        ensures
            d == self.dim_major(),
    {
        self.major_dim
    }

    /// The minor dimension: the exclusive upper bound on stored indices.
    pub fn minor_dim(&self) -> (d: usize)
        ensures
            d == self.dim_minor(),
    {
        self.minor_dim
    }

    /// The number of stored entries.
    pub fn nnz(&self) -> (n: usize)
        ensures
            n == self.spec_nnz(),
    {
        self.minor_indices.len()
    }

    /// The raw offset array.
    pub fn major_offsets(&self) -> (offsets: &Vec<usize>)
        ensures
            offsets@ == self.offsets(),
    {
        &self.major_offsets
    }

    /// The raw index array.
    pub fn minor_indices(&self) -> (indices: &Vec<usize>)
        ensures
            indices@ == self.indices(),
    {
        &self.minor_indices
    }

    /// The stored minor indices of lane `j`.
    pub fn lane(&self, j: usize) -> (lane: &[usize])
        requires
            self.wf(),
            j < self.dim_major(),
        ensures
            lane@ == self.lane_seq(j as int),
            lane@.len() == self.offsets()[j + 1] - self.offsets()[j as int],
    {
        let a = self.major_offsets[j];
        let b = self.major_offsets[j + 1];
        proof {
            lemma_offsets_monotone(self, j as int, j + 1);
            lemma_offsets_monotone(self, j + 1, self.major_dim as int);
        }
        slice_subrange(self.minor_indices.as_slice(), a, b)
    }

    /// Validated construction from raw parts, as handed over by callers or a
    /// persisted representation. Returns the pattern exactly when every
    /// structural requirement holds; otherwise reports the first violated
    /// requirement, checked in the order the variants are declared.
    #[verifier::rlimit(50)]
    pub fn try_from_offsets_and_indices(
        major_dim: usize,
        minor_dim: usize,
        major_offsets: Vec<usize>,
        minor_indices: Vec<usize>,
    ) -> (result: Result<SparsityPattern, SparsityPatternFormatError>)
        ensures
            match result {
                Ok(p) => {
                    &&& p.wf()
                    &&& p.dim_major() == major_dim
                    &&& p.dim_minor() == minor_dim
                    &&& p.offsets() == major_offsets@
                    &&& p.indices() == minor_indices@
                },
                Err(e) => match e {
                    SparsityPatternFormatError::InvalidOffsetArrayLength => !offsets_len_ok(
                        major_offsets@,
                        major_dim,
                    ),
                    SparsityPatternFormatError::InvalidOffsetFirstEntry => offsets_len_ok(
                        major_offsets@,
                        major_dim,
                    ) && !offsets_first_ok(major_offsets@),
                    SparsityPatternFormatError::InvalidOffsetLastEntry => offsets_len_ok(
                        major_offsets@,
                        major_dim,
                    ) && offsets_first_ok(major_offsets@) && !offsets_last_ok(
                        major_offsets@,
                        minor_indices@.len(),
                    ),
                    SparsityPatternFormatError::NonmonotonicOffsets => offsets_len_ok(
                        major_offsets@,
                        major_dim,
                    ) && offsets_first_ok(major_offsets@) && offsets_last_ok(
                        major_offsets@,
                        minor_indices@.len(),
                    ) && !offsets_monotonic(major_offsets@),
                    SparsityPatternFormatError::MinorIndexOutOfBounds => offsets_len_ok(
                        major_offsets@,
                        major_dim,
                    ) && offsets_first_ok(major_offsets@) && offsets_last_ok(
                        major_offsets@,
                        minor_indices@.len(),
                    ) && offsets_monotonic(major_offsets@) && !minor_indices_in_bounds(
                        minor_indices@,
                        minor_dim,
                    ),
                    SparsityPatternFormatError::NonmonotonicMinorIndices => offsets_len_ok(
                        major_offsets@,
                        major_dim,
                    ) && offsets_first_ok(major_offsets@) && offsets_last_ok(
                        major_offsets@,
                        minor_indices@.len(),
                    ) && offsets_monotonic(major_offsets@) && minor_indices_in_bounds(
                        minor_indices@,
                        minor_dim,
                    ) && !lanes_sorted(major_offsets@, minor_indices@),
                },
            },
            result is Ok <==> {
                &&& offsets_len_ok(major_offsets@, major_dim)
                &&& offsets_first_ok(major_offsets@)
                &&& offsets_last_ok(major_offsets@, minor_indices@.len())
                &&& offsets_monotonic(major_offsets@)
                &&& minor_indices_in_bounds(minor_indices@, minor_dim)
                &&& lanes_sorted(major_offsets@, minor_indices@)
            },
    {
        if major_offsets.len() == 0 || major_offsets.len() - 1 != major_dim {
            return Err(SparsityPatternFormatError::InvalidOffsetArrayLength);
        }
        if major_offsets[0] != 0 {
            return Err(SparsityPatternFormatError::InvalidOffsetFirstEntry);
        }
        if major_offsets[major_dim] != minor_indices.len() {
            return Err(SparsityPatternFormatError::InvalidOffsetLastEntry);
        }
        if !check_offsets_monotonic(&major_offsets) {
            return Err(SparsityPatternFormatError::NonmonotonicOffsets);
        }
        if !check_minor_indices_in_bounds(&minor_indices, minor_dim) {
            return Err(SparsityPatternFormatError::MinorIndexOutOfBounds);
        }
        if !check_lanes_sorted(&major_offsets, &minor_indices) {
            return Err(SparsityPatternFormatError::NonmonotonicMinorIndices);
        }
        Ok(SparsityPattern { major_dim, minor_dim, major_offsets, minor_indices })
    }
}

/// Decides `offsets_monotonic`.
pub(crate) fn check_offsets_monotonic(offsets: &Vec<usize>) -> (ok: bool)
    ensures
        ok == offsets_monotonic(offsets@),
{
    let n = offsets.len();
    if n == 0 {
        return true;
    }
    let mut i: usize = 1;
    while i < n
        invariant
            n == offsets@.len(),
            1 <= i <= n,
            forall|k: int, l: int|
                #![trigger offsets@[k], offsets@[l]]
                0 <= k <= l < i ==> offsets@[k] <= offsets@[l],
        decreases n - i,
    {
        if offsets[i - 1] > offsets[i] {
            assert(!(offsets@[i - 1] <= offsets@[i as int]));
            return false;
        }
        assert forall|k: int, l: int|
            #![trigger offsets@[k], offsets@[l]]
            0 <= k <= l < i + 1 implies offsets@[k] <= offsets@[l] by {
            if l == i && k < i {
                assert(offsets@[k] <= offsets@[i - 1]);
            }
        }
        i += 1;
    }
    true
}

/// Decides `minor_indices_in_bounds`.
pub(crate) fn check_minor_indices_in_bounds(indices: &Vec<usize>, minor_dim: usize) -> (ok: bool)
    ensures
        ok == minor_indices_in_bounds(indices@, minor_dim),
{
    let n = indices.len();
    let mut p: usize = 0;
    while p < n
        invariant
            n == indices@.len(),
            p <= n,
            forall|k: int| 0 <= k < p ==> #[trigger] indices@[k] < minor_dim,
        decreases n - p,
    {
        if indices[p] >= minor_dim {
            assert(!minor_indices_in_bounds(indices@, minor_dim));
            return false;
        }
        p += 1;
    }
    true
}

/// Decides `lanes_sorted` for offsets already known monotone and bounded.
pub(crate) fn check_lanes_sorted(offsets: &Vec<usize>, indices: &Vec<usize>) -> (ok: bool)
    requires
        offsets@.len() > 0,
        offsets_monotonic(offsets@),
        offsets_last_ok(offsets@, indices@.len()),
    ensures
        ok == lanes_sorted(offsets@, indices@),
{
    let nlanes = offsets.len() - 1;
    let mut j: usize = 0;
    while j < nlanes
        invariant
            nlanes == offsets@.len() - 1,
            j <= nlanes,
            offsets_monotonic(offsets@),
            offsets_last_ok(offsets@, indices@.len()),
            forall|jj: int, p: int, q: int|
                #![trigger offsets@[jj], indices@[p], indices@[q]]
                0 <= jj < j && offsets@[jj] <= p < q < offsets@[jj + 1] ==> indices@[p]
                    < indices@[q],
        decreases nlanes - j,
    {
        let a = offsets[j];
        let b = offsets[j + 1];
        proof {
            assert(offsets@[j as int] <= offsets@[j + 1]);
            assert(offsets@[j + 1] <= offsets@[nlanes as int]);
        }
        if b > a {
            let mut q: usize = a + 1;
            while q < b
                invariant
                    a < q <= b,
                    b <= indices@.len(),
                    nlanes == offsets@.len() - 1,
                    j < nlanes,
                    a == offsets@[j as int],
                    b == offsets@[j + 1],
                    forall|t: int, u: int|
                        #![trigger indices@[t], indices@[u]]
                        a <= t < u < q ==> indices@[t] < indices@[u],
                decreases b - q,
            {
                if indices[q - 1] >= indices[q] {
                    assert(offsets@[j as int] <= q - 1 < q < offsets@[j + 1] && !(indices@[q - 1]
                        < indices@[q as int]));
                    assert(!lanes_sorted(offsets@, indices@));
                    return false;
                }
                assert forall|t: int, u: int|
                    #![trigger indices@[t], indices@[u]]
                    a <= t < u < q + 1 implies indices@[t] < indices@[u] by {
                    if u == q && t < q - 1 {
                        assert(indices@[t] < indices@[q - 1]);
                    }
                }
                q += 1;
            }
        }
        j += 1;
    }
    true
}

/// Raw-parts form of `SparsityPattern::contains_entry`, usable while the
/// arrays of a new pattern are still under construction.
pub open(crate) spec fn parts_contain(
    offsets: Seq<usize>,
    indices: Seq<usize>,
    j: int,
    r: int,
) -> bool {
    exists|p: int| offsets[j] <= p < offsets[j + 1] && #[trigger] indices[p] == r
}

/// A sequence whose elements strictly ascend from left to right.
pub open(crate) spec fn seq_strictly_ascending(s: Seq<usize>) -> bool {
    forall|a: int, b: int| 0 <= a < b < s.len() ==> #[trigger] s[a] < #[trigger] s[b]
}

/// How many of the minor indices `0 .. r_hi` occur in lane `c`.
pub open(crate) spec fn col_count(p: &SparsityPattern, c: int, r_hi: int) -> nat
    decreases r_hi,
{
    if r_hi <= 0 {
        0
    } else {
        col_count(p, c, r_hi - 1) + if p.contains_entry(c, r_hi - 1) {
            1nat
        } else {
            0
        }
    }
}

/// How many of the lanes `0 .. c_hi` hold minor index `r`.
pub open(crate) spec fn row_count(p: &SparsityPattern, r: int, c_hi: int) -> nat
    decreases c_hi,
{
    if c_hi <= 0 {
        0
    } else {
        row_count(p, r, c_hi - 1) + if p.contains_entry(c_hi - 1, r) {
            1nat
        } else {
            0
        }
    }
}

/// The row counts of minor indices `0 .. r_hi`, summed.
pub open(crate) spec fn rows_total(p: &SparsityPattern, r_hi: int, c_hi: int) -> nat
    decreases r_hi,
{
    if r_hi <= 0 {
        0
    } else {
        rows_total(p, r_hi - 1, c_hi) + row_count(p, r_hi - 1, c_hi)
    }
}

/// How many of the values `0 .. m` a sequence holds.
pub open(crate) spec fn seq_hit_count(s: Seq<usize>, m: int) -> nat
    decreases m,
{
    if m <= 0 {
        0
    } else {
        seq_hit_count(s, m - 1) + if s.contains((m - 1) as usize) {
            1nat
        } else {
            0
        }
    }
}

/// The minor indices of lane `r` of the transposed pattern, restricted to
/// original majors below `c`: exactly the majors whose lane stores `r`, in
/// ascending order.
pub open(crate) spec fn transpose_lane_spec(p: &SparsityPattern, r: int, c: int) -> Seq<usize>
    decreases c,
{
    if c <= 0 {
        Seq::empty()
    } else {
        let prev = transpose_lane_spec(p, r, c - 1);
        if p.contains_entry(c - 1, r) {
            prev.push((c - 1) as usize)
        } else {
            prev
        }
    }
}

/// The concatenated index array of the first `r_hi` lanes of the transposed
/// pattern.
pub open(crate) spec fn transpose_rows_spec(p: &SparsityPattern, r_hi: int) -> Seq<usize>
    decreases r_hi,
{
    if r_hi <= 0 {
        Seq::empty()
    } else {
        transpose_rows_spec(p, r_hi - 1) + transpose_lane_spec(p, r_hi - 1, p.dim_major())
    }
}

/// The offset array of the transposed pattern, over its first `r_hi` lanes.
pub open(crate) spec fn transpose_offsets_spec(p: &SparsityPattern, r_hi: int) -> Seq<usize>
    decreases r_hi,
{
    if r_hi <= 0 {
        seq![0usize]
    } else {
        transpose_offsets_spec(p, r_hi - 1).push(transpose_rows_spec(p, r_hi).len() as usize)
    }
}

/// Monotonicity of a well-formed pattern's offsets, as a convenient lemma.
pub(crate) proof fn lemma_offsets_monotone(p: &SparsityPattern, i: int, j: int)
    requires
        p.wf(),
        0 <= i <= j <= p.dim_major(),
    ensures
        p.major_offsets@[i] <= p.major_offsets@[j],
{
    assert(p.major_offsets@[i] <= p.major_offsets@[j]);
}

/// Each lane, viewed as a sequence, is strictly ascending.
pub(crate) proof fn lemma_lane_seq_strict(p: &SparsityPattern, j: int)
    requires
        p.wf(),
        0 <= j < p.dim_major(),
    ensures
        seq_strictly_ascending(p.lane_seq(j)),
{
    lemma_offsets_monotone(p, j, j + 1);
    lemma_offsets_monotone(p, j + 1, p.dim_major());
    let base = p.major_offsets@[j] as int;
    let s = p.lane_seq(j);
    assert forall|a: int, b: int| 0 <= a < b < s.len() implies #[trigger] s[a] < #[trigger] s[b] by {
        assert(s[a] == p.minor_indices@[base + a]);
        assert(s[b] == p.minor_indices@[base + b]);
        assert(p.major_offsets@[j] <= base + a < base + b < p.major_offsets@[j + 1]);
        assert(p.minor_indices@[base + a] < p.minor_indices@[base + b]);
    }
}

/// An entry of a well-formed lane corresponds to a member of its sequence
/// view, and conversely.
#[verifier::rlimit(50)]
pub(crate) proof fn lemma_contains_iff_lane(p: &SparsityPattern, j: int, r: int)
    requires
        p.wf(),
        0 <= j < p.dim_major(),
        0 <= r <= usize::MAX,
    ensures
        p.contains_entry(j, r) <==> p.lane_seq(j).contains(r as usize),
{
    lemma_offsets_monotone(p, j, j + 1);
    lemma_offsets_monotone(p, j + 1, p.dim_major());
    let base = p.major_offsets@[j] as int;
    let bound = p.major_offsets@[j + 1] as int;
    let s = p.lane_seq(j);
    assert(s.len() == bound - base);
    if p.contains_entry(j, r) {
        let pos = choose|pos: int|
            p.major_offsets@[j] <= pos < p.major_offsets@[j + 1] && #[trigger] p.minor_indices@[pos]
                == r;
        assert(0 <= pos - base < s.len());
        assert(s[pos - base] == p.minor_indices@[pos]);
        assert(s[pos - base] == r as usize);
        assert(s.contains(r as usize));
    }
    if s.contains(r as usize) {
        let i = choose|i: int| 0 <= i < s.len() && #[trigger] s[i] == r as usize;
        assert(s[i] == p.minor_indices@[base + i]);
        assert(p.minor_indices@[base + i] == r);
        assert(p.contains_entry(j, r));
    }
}

/// Sequences agreeing on which values below `m` they hold have the same hit
/// count below `m`.
pub(crate) proof fn lemma_hit_count_congruent(s: Seq<usize>, s0: Seq<usize>, m: int)
    requires
        forall|rr: usize| rr < m ==> (#[trigger] s.contains(rr) <==> s0.contains(rr)),
    ensures
        seq_hit_count(s, m) == seq_hit_count(s0, m),
    decreases m,
{
    if m > 0 {
        lemma_hit_count_congruent(s, s0, m - 1);
        assert(s.contains((m - 1) as usize) <==> s0.contains((m - 1) as usize));
    }
}

/// A strictly ascending sequence of values below `m` hits exactly its own
/// length many of the values `0 .. m`.
pub(crate) proof fn lemma_seq_hit_count_full(s: Seq<usize>, m: int)
    requires
        seq_strictly_ascending(s),
        forall|i: int| 0 <= i < s.len() ==> #[trigger] s[i] < m,
        0 <= m <= usize::MAX,
    ensures
        seq_hit_count(s, m) == s.len(),
    decreases m,
{
    if m == 0 {
        if s.len() > 0 {
            assert(s[0] < 0);
        }
    } else if s.contains((m - 1) as usize) {
        let i = choose|i: int| 0 <= i < s.len() && #[trigger] s[i] == (m - 1) as usize;
        assert(i == s.len() - 1) by {
            if i < s.len() - 1 {
                assert(s[i] < s[s.len() - 1]);
            }
        }
        let s0 = s.drop_last();
        assert(seq_strictly_ascending(s0));
        assert forall|k: int| 0 <= k < s0.len() implies #[trigger] s0[k] < m - 1 by {
            assert(s[k] < s[s.len() - 1]);
        }
        assert forall|rr: usize| rr < m - 1 implies (#[trigger] s.contains(rr) <==> s0.contains(
            rr,
        )) by {
            if s.contains(rr) {
                let k = choose|k: int| 0 <= k < s.len() && #[trigger] s[k] == rr;
                assert(k < s.len() - 1);
                assert(s0[k] == rr);
            }
            if s0.contains(rr) {
                let k = choose|k: int| 0 <= k < s0.len() && #[trigger] s0[k] == rr;
                assert(s[k] == rr);
            }
        }
        lemma_hit_count_congruent(s, s0, m - 1);
        lemma_seq_hit_count_full(s0, m - 1);
    } else {
        assert forall|i: int| 0 <= i < s.len() implies #[trigger] s[i] < m - 1 by {
            assert(s[i] != (m - 1) as usize);
        }
        lemma_seq_hit_count_full(s, m - 1);
    }
}

/// `col_count` is the hit count of the lane's sequence view.
pub(crate) proof fn lemma_col_count_eq_hit(p: &SparsityPattern, c: int, r_hi: int)
    requires
        p.wf(),
        0 <= c < p.dim_major(),
        0 <= r_hi <= usize::MAX,
    ensures
        col_count(p, c, r_hi) == seq_hit_count(p.lane_seq(c), r_hi),
    decreases r_hi,
{
    if r_hi > 0 {
        lemma_col_count_eq_hit(p, c, r_hi - 1);
        lemma_contains_iff_lane(p, c, r_hi - 1);
    }
}

/// Lane `c` holds exactly as many distinct minor indices as its stored range
/// is long.
pub(crate) proof fn lemma_col_count_full(p: &SparsityPattern, c: int)
    requires
        p.wf(),
        0 <= c < p.dim_major(),
    ensures
        col_count(p, c, p.dim_minor()) == p.major_offsets@[c + 1] - p.major_offsets@[c],
{
    lemma_offsets_monotone(p, c, c + 1);
    lemma_offsets_monotone(p, c + 1, p.dim_major());
    let s = p.lane_seq(c);
    lemma_lane_seq_strict(p, c);
    assert forall|i: int| 0 <= i < s.len() implies #[trigger] s[i] < p.dim_minor() by {
        assert(p.minor_indices@[p.major_offsets@[c] + i] < p.minor_dim);
    }
    lemma_col_count_eq_hit(p, c, p.dim_minor());
    lemma_seq_hit_count_full(s, p.dim_minor());
}

/// Summing row counts distributes over extending the lane range by one.
pub(crate) proof fn lemma_rows_total_exchange(p: &SparsityPattern, r_hi: int, c: int)
    requires
        0 <= r_hi,
        0 <= c,
    ensures
        rows_total(p, r_hi, c + 1) == rows_total(p, r_hi, c) + col_count(p, c, r_hi),
    decreases r_hi,
{
    if r_hi > 0 {
        lemma_rows_total_exchange(p, r_hi - 1, c);
    }
}

/// With no lanes in range, every row count is zero.
pub(crate) proof fn lemma_rows_total_zero(p: &SparsityPattern, r_hi: int)
    requires
        0 <= r_hi,
    ensures
        rows_total(p, r_hi, 0) == 0,
    decreases r_hi,
{
    if r_hi > 0 {
        lemma_rows_total_zero(p, r_hi - 1);
    }
}

/// Double counting: summing, over all minor indices, how many of the first
/// `c` lanes hold them gives exactly the entries stored before lane `c`.
pub(crate) proof fn lemma_rows_total_eq_offset(p: &SparsityPattern, c: int)
    requires
        p.wf(),
        0 <= c <= p.dim_major(),
    ensures
        rows_total(p, p.dim_minor(), c) == p.major_offsets@[c],
    decreases c,
{
    if c == 0 {
        lemma_rows_total_zero(p, p.dim_minor());
    } else {
        lemma_rows_total_eq_offset(p, c - 1);
        lemma_rows_total_exchange(p, p.dim_minor(), c - 1);
        lemma_col_count_full(p, c - 1);
    }
}


impl SparsityPattern {

    /// Decides the structural invariant of this pattern exactly.
    #[verifier::rlimit(50)]
    pub(crate) fn is_structurally_valid(&self) -> (ok: bool)
        ensures
            ok == self.wf(),
    {
        if self.major_offsets.len() == 0 || self.major_offsets.len() - 1 != self.major_dim {
            return false;
        }
        if self.major_offsets[0] != 0 {
            return false;
        }
        if self.major_offsets[self.major_dim] != self.minor_indices.len() {
            return false;
        }
        if !check_offsets_monotonic(&self.major_offsets) {
            return false;
        }
        if !check_minor_indices_in_bounds(&self.minor_indices, self.minor_dim) {
            return false;
        }
        if !check_lanes_sorted(&self.major_offsets, &self.minor_indices) {
            return false;
        }
        true
    }

    /// Tests whether lane `c` stores minor index `r`.
    pub(crate) fn lane_contains(&self, c: usize, r: usize) -> (found: bool)
        requires
            self.wf(),
            c < self.dim_major(),
        ensures
            found == self.contains_entry(c as int, r as int),
    {
        let a = self.major_offsets[c];
        let b = self.major_offsets[c + 1];
        proof {
            lemma_offsets_monotone(self, c as int, c + 1);
            lemma_offsets_monotone(self, c + 1, self.dim_major());
        }
        let mut p = a;
        while p < b
            invariant
                a <= p <= b,
                b <= self.minor_indices@.len(),
                a == self.major_offsets@[c as int],
                b == self.major_offsets@[c + 1],
                forall|t: int| a <= t < p ==> #[trigger] self.minor_indices@[t] != r,
            decreases b - p,
        {
            if self.minor_indices[p] == r {
                assert(self.contains_entry(c as int, r as int));
                return true;
            }
            p += 1;
        }
        assert(!self.contains_entry(c as int, r as int));
        false
    }

    /// The mirrored pattern: an entry at `(major a, minor b)` becomes one at
    /// `(major b, minor a)`, with every lane of the result again strictly
    /// ascending. The number of stored entries is preserved.
    pub fn transpose(&self) -> (t: SparsityPattern)
        requires
            self.wf(),
        ensures
            t.wf(),
            t.dim_major() == self.dim_minor(),
            t.dim_minor() == self.dim_major(),
            t.spec_nnz() == self.spec_nnz(),
            forall|b: int, a: int|
                #![trigger t.contains_entry(b, a)]
                0 <= b < self.dim_minor() && 0 <= a < self.dim_major() ==> (t.contains_entry(b, a)
                    <==> self.contains_entry(a, b)),
            t.offsets() == transpose_offsets_spec(self, self.dim_minor()),
            t.indices() == transpose_rows_spec(self, self.dim_minor()),
    {
        let nmaj = self.major_dim;
        let nmin = self.minor_dim;
        let mut offsets: Vec<usize> = Vec::new();
        let mut indices: Vec<usize> = Vec::new();
        offsets.push(0);
        let mut r: usize = 0;
        while r < nmin
            invariant
                self.wf(),
                nmaj == self.dim_major(),
                nmin == self.dim_minor(),
                r <= nmin,
                offsets@.len() == r + 1,
                offsets@[0] == 0,
                offsets@[r as int] == indices@.len(),
                offsets_monotonic(offsets@),
                minor_indices_in_bounds(indices@, nmaj),
                lanes_sorted(offsets@, indices@),
                indices@.len() == rows_total(self, r as int, nmaj as int),
                offsets@ == transpose_offsets_spec(self, r as int),
                indices@ == transpose_rows_spec(self, r as int),
                forall|rr: int, cc: int|
                    #![trigger parts_contain(offsets@, indices@, rr, cc)]
                    0 <= rr < r && 0 <= cc < nmaj ==> (parts_contain(offsets@, indices@, rr, cc)
                        <==> self.contains_entry(cc, rr)),
            decreases nmin - r,
        {
            let ghost prior_offsets = offsets@;
            let ghost prior_indices = indices@;
            let base = indices.len();
            let mut c: usize = 0;
            while c < nmaj
                invariant
                    self.wf(),
                    nmaj == self.dim_major(),
                    nmin == self.dim_minor(),
                    r < nmin,
                    c <= nmaj,
                    base <= indices@.len(),
                    prior_indices.len() == base,
                    indices@.subrange(0, base as int) == prior_indices,
                    forall|t: int| base <= t < indices@.len() ==> #[trigger] indices@[t] < c,
                    forall|t: int, u: int|
                        #![trigger indices@[t], indices@[u]]
                        base <= t < u < indices@.len() ==> indices@[t] < indices@[u],
                    minor_indices_in_bounds(indices@, nmaj),
                    forall|cc: int|
                        #![trigger self.contains_entry(cc, r as int)]
                        0 <= cc < c ==> ((exists|t: int|
                            base <= t < indices@.len() && #[trigger] indices@[t] == cc)
                            <==> self.contains_entry(cc, r as int)),
                    indices@.len() - base == row_count(self, r as int, c as int),
                    prior_indices == transpose_rows_spec(self, r as int),
                    indices@ == transpose_rows_spec(self, r as int) + transpose_lane_spec(
                        self,
                        r as int,
                        c as int,
                    ),
                decreases nmaj - c,
            {
                let hit = self.lane_contains(c, r);
                let ghost pre = indices@;
                if hit {
                    indices.push(c);
                }
                proof {
                    assert(indices@ =~= transpose_rows_spec(self, r as int) + transpose_lane_spec(
                        self,
                        r as int,
                        c + 1,
                    ));
                    assert forall|cc: int|
                        #![trigger self.contains_entry(cc, r as int)]
                        0 <= cc < c + 1 implies ((exists|t: int|
                        base <= t < indices@.len() && #[trigger] indices@[t] == cc)
                        <==> self.contains_entry(cc, r as int)) by {
                        if cc == c {
                            if hit {
                                assert(indices@[indices@.len() - 1] == c);
                            } else {
                                assert(indices@ == pre);
                                assert forall|t: int|
                                    base <= t < indices@.len() implies #[trigger] indices@[t] != cc by {
                                    assert(indices@[t] < c);
                                }
                            }
                        } else {
                            if exists|t: int| base <= t < pre.len() && #[trigger] pre[t] == cc {
                                let t = choose|t: int|
                                    base <= t < pre.len() && #[trigger] pre[t] == cc;
                                assert(indices@[t] == cc);
                            }
                            if exists|t: int| base <= t < indices@.len() && #[trigger] indices@[t]
                                == cc {
                                let t = choose|t: int|
                                    base <= t < indices@.len() && #[trigger] indices@[t] == cc;
                                assert(t < pre.len() ==> pre[t] == cc);
                                assert(t >= pre.len() ==> indices@[t] == c);
                            }
                        }
                    }
                }
                c += 1;
            }
            offsets.push(indices.len());
            proof {
                assert(indices@ == transpose_rows_spec(self, r + 1));
                assert(offsets@ == transpose_offsets_spec(self, r + 1));
                assert forall|t: int| 0 <= t < base implies indices@[t] == prior_indices[t] by {
                    assert(indices@.subrange(0, base as int)[t] == indices@[t]);
                }
                assert forall|rr: int, cc: int|
                    #![trigger parts_contain(offsets@, indices@, rr, cc)]
                    0 <= rr < r + 1 && 0 <= cc < nmaj implies (parts_contain(
                    offsets@,
                    indices@,
                    rr,
                    cc,
                ) <==> self.contains_entry(cc, rr)) by {
                    if rr < r {
                        assert(offsets@[rr] == prior_offsets[rr]);
                        assert(offsets@[rr + 1] == prior_offsets[rr + 1]);
                        assert(prior_offsets[rr + 1] <= prior_offsets[r as int]);
                        if parts_contain(offsets@, indices@, rr, cc) {
                            let pos = choose|pos: int|
                                offsets@[rr] <= pos < offsets@[rr + 1] && #[trigger] indices@[pos]
                                    == cc;
                            assert(prior_indices[pos] == cc);
                            assert(parts_contain(prior_offsets, prior_indices, rr, cc));
                        }
                        if parts_contain(prior_offsets, prior_indices, rr, cc) {
                            let pos = choose|pos: int|
                                prior_offsets[rr] <= pos < prior_offsets[rr + 1]
                                    && #[trigger] prior_indices[pos] == cc;
                            assert(indices@[pos] == cc);
                            assert(parts_contain(offsets@, indices@, rr, cc));
                        }
                    } else {
                        assert(offsets@[rr] == base);
                        assert(offsets@[rr + 1] == indices@.len());
                        assert((exists|t: int|
                            base <= t < indices@.len() && #[trigger] indices@[t] == cc)
                            <==> self.contains_entry(cc, r as int));
                    }
                }
                assert forall|jl: int, p: int, q: int|
                    #![trigger offsets@[jl], indices@[p], indices@[q]]
                    0 <= jl < offsets@.len() - 1 && offsets@[jl] <= p < q < offsets@[jl + 1]
                    implies indices@[p] < indices@[q] by {
                    if jl < r {
                        assert(offsets@[jl] == prior_offsets[jl]);
                        assert(offsets@[jl + 1] == prior_offsets[jl + 1]);
                        assert(prior_offsets[jl + 1] <= prior_offsets[r as int]);
                        assert(indices@[p] == prior_indices[p]);
                        assert(indices@[q] == prior_indices[q]);
                        assert(prior_offsets[jl] <= p < q < prior_offsets[jl + 1]);
                        assert(prior_indices[p] < prior_indices[q]);
                    }
                }
                assert(rows_total(self, r + 1, nmaj as int) == rows_total(self, r as int, nmaj as int)
                    + row_count(self, r as int, nmaj as int));
            }
            r += 1;
        }
        proof {
            lemma_rows_total_eq_offset(self, nmaj as int);
        }
        let t = SparsityPattern {
            major_dim: nmin,
            minor_dim: nmaj,
            major_offsets: offsets,
            minor_indices: indices,
        };
        t
    }
}


/// Element-wise equality of two index arrays.
fn vec_usize_eq(a: &Vec<usize>, b: &Vec<usize>) -> (r: bool)
    ensures
        r <==> a@ == b@,
{
    if a.len() != b.len() {
        assert(a@ !~= b@);
        return false;
    }
    let n = a.len();
    let mut i: usize = 0;
    while i < n
        invariant
            i <= n,
            n == a@.len() == b@.len(),
            forall|k: int| 0 <= k < i ==> #[trigger] a@[k] == b@[k],
        decreases n - i,
    {
        if a[i] != b[i] {
            assert(a@ != b@);
            return false;
        }
        i += 1;
    }
    proof {
        assert(a@ =~= b@);
    }
    true
}

impl Clone for SparsityPattern {
    /// An exact structural copy: same dimensions, same offsets, same indices.
    fn clone(&self) -> (c: Self)
        ensures
            c.congruent(self),
    {
        SparsityPattern {
            major_dim: self.major_dim,
            minor_dim: self.minor_dim,
            major_offsets: slice_to_vec(self.major_offsets.as_slice()),
            minor_indices: slice_to_vec(self.minor_indices.as_slice()),
        }
    }
}

impl vstd::std_specs::cmp::PartialEqSpecImpl for SparsityPattern {
    open spec fn obeys_eq_spec() -> bool {
        true
    }

    open(crate) spec fn eq_spec(&self, other: &Self) -> bool {
        &&& self.major_dim == other.major_dim
        &&& self.minor_dim == other.minor_dim
        &&& self.major_offsets@ == other.major_offsets@
        &&& self.minor_indices@ == other.minor_indices@
    }
}

impl PartialEq for SparsityPattern {
    /// Structural equality: equal dimensions and equal raw arrays.
    fn eq(&self, other: &Self) -> (r: bool) {
        self.major_dim == other.major_dim && self.minor_dim == other.minor_dim && vec_usize_eq(
            &self.major_offsets,
            &other.major_offsets,
        ) && vec_usize_eq(&self.minor_indices, &other.minor_indices)
    }
}

impl Eq for SparsityPattern {

}


/// How many elements of a sequence are below `x`.
pub open(crate) spec fn count_lt(s: Seq<usize>, x: int) -> nat
    decreases s.len(),
{
    if s.len() == 0 {
        0
    } else {
        count_lt(s.drop_last(), x) + if s.last() < x {
            1nat
        } else {
            0
        }
    }
}

/// The count of elements below a bound never exceeds the length.
pub(crate) proof fn lemma_count_lt_le_len(s: Seq<usize>, x: int)
    ensures
        count_lt(s, x) <= s.len(),
    decreases s.len(),
{
    if s.len() > 0 {
        lemma_count_lt_le_len(s.drop_last(), x);
    }
}

/// For a strictly ascending sequence, raising the bound past `k` adds one to
/// the count exactly when `k` occurs.
pub(crate) proof fn lemma_count_lt_step(s: Seq<usize>, k: int)
    requires
        seq_strictly_ascending(s),
        0 <= k <= usize::MAX,
    ensures
        count_lt(s, k + 1) == count_lt(s, k) + if s.contains(k as usize) {
            1int
        } else {
            0
        },
    decreases s.len(),
{
    if s.len() == 0 {
        assert(!s.contains(k as usize));
    } else {
        let s0 = s.drop_last();
        let e = s.last();
        assert(seq_strictly_ascending(s0));
        lemma_count_lt_step(s0, k);
        if e == k as usize {
            assert(!s0.contains(k as usize)) by {
                if s0.contains(k as usize) {
                    let i = choose|i: int| 0 <= i < s0.len() && #[trigger] s0[i] == k as usize;
                    assert(s[i] < s[s.len() - 1]);
                }
            }
            assert(s.contains(k as usize)) by {
                assert(s[s.len() - 1] == k as usize);
            }
        } else {
            assert(s.contains(k as usize) <==> s0.contains(k as usize)) by {
                if s.contains(k as usize) {
                    let i = choose|i: int| 0 <= i < s.len() && #[trigger] s[i] == k as usize;
                    assert(i < s.len() - 1);
                    assert(s0[i] == k as usize);
                }
                if s0.contains(k as usize) {
                    let i = choose|i: int| 0 <= i < s0.len() && #[trigger] s0[i] == k as usize;
                    assert(s[i] == k as usize);
                }
            }
        }
    }
}

/// For a strictly ascending sequence holding `k`, fewer than all elements are
/// below `k`.
pub(crate) proof fn lemma_count_lt_bound(s: Seq<usize>, k: int)
    requires
        seq_strictly_ascending(s),
        0 <= k <= usize::MAX,
        s.contains(k as usize),
    ensures
        count_lt(s, k) < s.len(),
    decreases s.len(),
{
    let s0 = s.drop_last();
    let e = s.last();
    assert(seq_strictly_ascending(s0));
    if e == k as usize {
        lemma_count_lt_le_len(s0, k);
    } else {
        assert(s0.contains(k as usize)) by {
            let i = choose|i: int| 0 <= i < s.len() && #[trigger] s[i] == k as usize;
            assert(i < s.len() - 1);
            assert(s0[i] == k as usize);
        }
        lemma_count_lt_bound(s0, k);
    }
}


/// No unsigned value is below zero, so the count at bound zero is zero.
pub(crate) proof fn lemma_count_lt_zero(s: Seq<usize>)
    ensures
        count_lt(s, 0) == 0,
    decreases s.len(),
{
    if s.len() > 0 {
        lemma_count_lt_zero(s.drop_last());
    }
}


/// Congruent patterns agree on every specification this crate states about
/// a pattern.
pub(crate) proof fn lemma_congruent_wf(a: &SparsityPattern, b: &SparsityPattern)
    requires
        a.congruent(b),
    ensures
        a.wf() == b.wf(),
        a.dim_major() == b.dim_major(),
        a.dim_minor() == b.dim_minor(),
        a.offsets() == b.offsets(),
        a.indices() == b.indices(),
        a.spec_nnz() == b.spec_nnz(),
        forall|j: int, r: int| #[trigger] a.contains_entry(j, r) == b.contains_entry(j, r),
        forall|j: int| #[trigger] a.lane_seq(j) == b.lane_seq(j),
{
    assert forall|j: int, r: int| #[trigger] a.contains_entry(j, r) == b.contains_entry(
        j,
        r,
    ) by {
        assert(a.major_offsets@ == b.major_offsets@);
        assert(a.minor_indices@ == b.minor_indices@);
    }
    assert forall|j: int| #[trigger] a.lane_seq(j) == b.lane_seq(j) by {
        assert(a.major_offsets@ == b.major_offsets@);
        assert(a.minor_indices@ == b.minor_indices@);
    }
}

} // verus!
