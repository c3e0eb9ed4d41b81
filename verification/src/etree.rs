//! The elimination forest of a symmetric sparsity pattern, and reachability
//! within it: the structural core of the symbolic Cholesky factorization.

use vstd::prelude::*;
use crate::pattern::SparsityPattern;
use crate::pattern::lemma_offsets_monotone;

verus! {

/// A valid elimination forest over `n` indices: every entry either is the
/// no-parent sentinel `usize::MAX` or points to a strictly greater index
/// below `n`.
pub open(crate) spec fn forest_wf(forest: Seq<usize>, n: int) -> bool {
    forall|i: int|
        #![trigger forest[i]]
        0 <= i < forest.len() ==> (forest[i] == usize::MAX || (i < forest[i] && forest[i] < n))
}

/// Every stored entry of the first `k` lanes lying strictly below the
/// diagonal has received a forest parent.
#[verifier::opaque]
pub open(crate) spec fn lower_entries_parented(
    pattern: &SparsityPattern,
    forest: Seq<usize>,
    k: int,
) -> bool {
    forall|kk: int, q: int|
        #![trigger pattern.offsets()[kk], pattern.indices()[q]]
        0 <= kk < k && pattern.offsets()[kk] <= q < pattern.offsets()[kk + 1]
            && pattern.indices()[q] < kk ==> forest[pattern.indices()[q] as int] != usize::MAX
}

/// Planting further parents never unparents an entry.
#[verifier::rlimit(100)]
proof fn lemma_parented_extend(
    pattern: &SparsityPattern,
    f0: Seq<usize>,
    f1: Seq<usize>,
    n: int,
    k: int,
)
    requires
        lower_entries_parented(pattern, f0, k),
        pattern.wf(),
        pattern.dim_minor() == n,
        k <= pattern.dim_major(),
        f0.len() == n,
        f1.len() == n,
        forall|t: int| 0 <= t < n && f0[t] != usize::MAX ==> #[trigger] f1[t] != usize::MAX,
    ensures
        lower_entries_parented(pattern, f1, k),
{
    reveal(lower_entries_parented);
    assert forall|kk: int, q: int|
        #![trigger pattern.offsets()[kk], pattern.indices()[q]]
        0 <= kk < k && pattern.offsets()[kk] <= q < pattern.offsets()[kk + 1]
            && pattern.indices()[q] < kk implies f1[pattern.indices()[q] as int]
        != usize::MAX by {
        lemma_offsets_monotone(pattern, kk + 1, pattern.dim_major());
        assert(q < pattern.indices().len());
        assert(pattern.indices()[q] < n);
        assert(f0[pattern.indices()[q] as int] != usize::MAX);
    }
}

/// Once lane `k`'s strict-lower entries are all parented, the parenting
/// property extends from the first `k` lanes to the first `k + 1`.
#[verifier::rlimit(100)]
proof fn lemma_parented_step(
    pattern: &SparsityPattern,
    forest: Seq<usize>,
    k: int,
    a: int,
    b: int,
)
    requires
        lower_entries_parented(pattern, forest, k),
        pattern.wf(),
        0 <= k < pattern.dim_major(),
        a == pattern.offsets()[k],
        b == pattern.offsets()[k + 1],
        forall|q: int|
            a <= q < b && #[trigger] pattern.indices()[q] < k ==> forest[pattern.indices()[q]
                as int] != usize::MAX,
    ensures
        lower_entries_parented(pattern, forest, k + 1),
{
    reveal(lower_entries_parented);
}

/// One ancestor walk of the forest construction, as a function of the
/// state: from `i`, ancestor links are followed towards `k`, every visited
/// node's ancestor is compressed to `k`, and the first node found without
/// one receives `k` as its forest parent. The fuel bounds the walk's length;
/// any fuel at least `k` suffices, since compressed ancestors strictly
/// increase.
pub open(crate) spec fn walk_spec(
    forest: Seq<usize>,
    anc: Seq<usize>,
    i: int,
    k: usize,
    fuel: nat,
) -> (Seq<usize>, Seq<usize>)
    decreases fuel,
{
    if fuel == 0 || !(0 <= i < k) {
        (forest, anc)
    } else {
        let ia = anc[i];
        let anc2 = anc.update(i, k);
        if ia == usize::MAX {
            (forest.update(i, k), anc2)
        } else {
            walk_spec(forest, anc2, ia as int, k, (fuel - 1) as nat)
        }
    }
}

/// The forest and ancestor state after the walks of lane `k`'s stored
/// entries at positions below `p`.
pub open(crate) spec fn lane_walks_spec(
    pattern: &SparsityPattern,
    forest: Seq<usize>,
    anc: Seq<usize>,
    k: usize,
    p: int,
    n: nat,
) -> (Seq<usize>, Seq<usize>)
    decreases p,
{
    if p <= pattern.offsets()[k as int] {
        (forest, anc)
    } else {
        let prev = lane_walks_spec(pattern, forest, anc, k, p - 1, n);
        walk_spec(prev.0, prev.1, pattern.indices()[p - 1] as int, k, n)
    }
}

/// The forest and ancestor state after the first `k` columns of the forest
/// construction.
pub open(crate) spec fn etree_upto_spec(
    pattern: &SparsityPattern,
    forest: Seq<usize>,
    anc: Seq<usize>,
    k: int,
    n: nat,
) -> (Seq<usize>, Seq<usize>)
    decreases k,
{
    if k <= 0 {
        (forest, anc)
    } else {
        let prev = etree_upto_spec(pattern, forest, anc, k - 1, n);
        lane_walks_spec(
            pattern,
            prev.0,
            prev.1,
            (k - 1) as usize,
            pattern.offsets()[k] as int,
            n,
        )
    }
}

/// The elimination forest of a pattern, as a function of the pattern alone:
/// the forest construction run over the all-sentinel initial state.
pub open(crate) spec fn etree_spec(pattern: &SparsityPattern) -> Seq<usize> {
    etree_upto_spec(
        pattern,
        Seq::new(pattern.dim_minor() as nat, |x: int| usize::MAX),
        Seq::new(pattern.dim_minor() as nat, |x: int| usize::MAX),
        pattern.dim_major(),
        pattern.dim_minor() as nat,
    ).0
}

/// Processes one stored entry of column `k` during forest construction:
/// walks the ancestor chain from `irow`, compressing it towards `k`, and
/// plants `k` as the forest parent of the first node found without one.
/// Forest entries once set are never unset, and an entry of the column
/// strictly below the diagonal always ends up with a parent.
#[verifier::rlimit(100)]
#[verifier::spinoff_prover]
fn etree_process_entry(
    nrows: usize,
    k: usize,
    irow: usize,
    forest: &mut Vec<usize>,
    ancestor: &mut Vec<usize>,
)
    requires
        k < nrows,
        irow < nrows,
        old(forest)@.len() == nrows,
        old(ancestor)@.len() == nrows,
        forest_wf(old(forest)@, nrows as int),
        forest_wf(old(ancestor)@, nrows as int),
        forall|t: int|
            0 <= t < nrows ==> ((#[trigger] old(ancestor)@[t] == usize::MAX) <==> old(forest)@[t]
                == usize::MAX),
    ensures
        final(forest)@.len() == nrows,
        final(ancestor)@.len() == nrows,
        forest_wf(final(forest)@, nrows as int),
        forest_wf(final(ancestor)@, nrows as int),
        forall|t: int|
            0 <= t < nrows ==> ((#[trigger] final(ancestor)@[t] == usize::MAX)
                <==> final(forest)@[t] == usize::MAX),
        forall|t: int|
            0 <= t < nrows && old(forest)@[t] != usize::MAX ==> #[trigger] final(forest)@[t]
                != usize::MAX,
        irow < k ==> final(forest)@[irow as int] != usize::MAX,
        (final(forest)@, final(ancestor)@) == walk_spec(
            old(forest)@,
            old(ancestor)@,
            irow as int,
            k,
            nrows as nat,
        ),
{
    let ghost forest0 = forest@;
    let ghost anc0 = ancestor@;
    let ghost g: nat = nrows as nat;
    let mut i = irow;
    while i < k
        invariant_except_break
            g as int >= k - i,
            walk_spec(forest0, anc0, irow as int, k, nrows as nat) == walk_spec(
                forest@,
                ancestor@,
                i as int,
                k,
                g,
            ),
        invariant
            k < nrows,
            i < nrows,
            irow < nrows,
            forest@.len() == nrows,
            ancestor@.len() == nrows,
            forest_wf(forest@, nrows as int),
            forest_wf(ancestor@, nrows as int),
            forall|t: int|
                0 <= t < nrows ==> ((#[trigger] ancestor@[t] == usize::MAX) <==> forest@[t]
                    == usize::MAX),
            forall|t: int|
                0 <= t < nrows && forest0[t] != usize::MAX ==> #[trigger] forest@[t]
                    != usize::MAX,
            irow < k ==> (forest@[irow as int] != usize::MAX || i == irow),
        ensures
            irow < k ==> forest@[irow as int] != usize::MAX,
            walk_spec(forest0, anc0, irow as int, k, nrows as nat) == (forest@, ancestor@),
            forest@.len() == nrows,
            ancestor@.len() == nrows,
            forest_wf(forest@, nrows as int),
            forest_wf(ancestor@, nrows as int),
            forall|t: int|
                0 <= t < nrows ==> ((#[trigger] ancestor@[t] == usize::MAX) <==> forest@[t]
                    == usize::MAX),
            forall|t: int|
                0 <= t < nrows && forest0[t] != usize::MAX ==> #[trigger] forest@[t]
                    != usize::MAX,
        decreases nrows - i,
    {
        let ghost pre_f = forest@;
        let ghost pre_a = ancestor@;
        let ghost pre_i = i as int;
        let i_ancestor = ancestor[i];
        ancestor.set(i, k);
        if i_ancestor == usize::MAX {
            forest.set(i, k);
            proof {
                assert(walk_spec(pre_f, pre_a, pre_i, k, g) == (forest@, ancestor@));
                assert(walk_spec(forest0, anc0, irow as int, k, nrows as nat) == (
                    forest@,
                    ancestor@,
                ));
            }
            break ;
        }
        i = i_ancestor;
        proof {
            assert(walk_spec(pre_f, pre_a, pre_i, k, g) == walk_spec(
                forest@,
                ancestor@,
                i as int,
                k,
                (g - 1) as nat,
            ));
            g = (g - 1) as nat;
        }
    }
}

/// Builds the elimination forest of a square pattern: `forest[i]` is the
/// smallest `k > i` such that the Cholesky factor of a matrix with this
/// (symmetric) pattern has a structural nonzero at `(k, i)`, or the sentinel
/// `usize::MAX` for a root. The walk is iterative, with union-find style path
/// compression through the `ancestor` array, so deep path-shaped patterns
/// cannot exhaust the stack.
#[verifier::rlimit(100)]
#[verifier::spinoff_prover]
pub(crate) fn elimination_tree(pattern: &SparsityPattern) -> (forest: Vec<usize>)
    requires
        pattern.wf(),
        pattern.dim_major() == pattern.dim_minor(),
    ensures
        forest@.len() == pattern.dim_minor(),
        forest_wf(forest@, pattern.dim_minor()),
        lower_entries_parented(pattern, forest@, pattern.dim_major()),
        forest@ == etree_spec(pattern),
{
    let nrows = pattern.minor_dim();
    let mut forest: Vec<usize> = Vec::new();
    let mut ancestor: Vec<usize> = Vec::new();
    let mut idx: usize = 0;
    while idx < nrows
        invariant
            idx <= nrows,
            forest@.len() == idx,
            ancestor@.len() == idx,
            forall|t: int| 0 <= t < idx ==> #[trigger] forest@[t] == usize::MAX,
            forall|t: int| 0 <= t < idx ==> #[trigger] ancestor@[t] == usize::MAX,
        decreases nrows - idx,
    {
        forest.push(usize::MAX);
        ancestor.push(usize::MAX);
        idx += 1;
    }
    let ghost init_f = forest@;
    let ghost init_a = ancestor@;
    proof {
        assert(lower_entries_parented(pattern, forest@, 0)) by {
            reveal(lower_entries_parented);
        }
        assert(init_f =~= Seq::new(pattern.dim_minor() as nat, |x: int| usize::MAX));
        assert(init_a =~= Seq::new(pattern.dim_minor() as nat, |x: int| usize::MAX));
    }
    let mut k: usize = 0;
    while k < nrows
        invariant
            pattern.wf(),
            pattern.dim_major() == pattern.dim_minor(),
            nrows == pattern.dim_minor(),
            k <= nrows,
            forest@.len() == nrows,
            ancestor@.len() == nrows,
            forest_wf(forest@, nrows as int),
            forest_wf(ancestor@, nrows as int),
            forall|t: int|
                0 <= t < nrows ==> ((#[trigger] ancestor@[t] == usize::MAX) <==> forest@[t]
                    == usize::MAX),
            lower_entries_parented(pattern, forest@, k as int),
            (forest@, ancestor@) == etree_upto_spec(pattern, init_f, init_a, k as int, nrows
                as nat),
        decreases nrows - k,
    {
        let a = pattern.major_offsets()[k];
        let b = pattern.major_offsets()[k + 1];
        proof {
            lemma_offsets_monotone(pattern, k as int, k + 1);
            lemma_offsets_monotone(pattern, k + 1, pattern.dim_major());
        }
        let ghost lane_f = forest@;
        let ghost lane_a = ancestor@;
        let mut p = a;
        while p < b
            invariant
                pattern.wf(),
                nrows == pattern.dim_minor(),
                k < nrows,
                k < pattern.dim_major(),
                a == pattern.offsets()[k as int],
                b == pattern.offsets()[k + 1],
                a <= p <= b,
                b <= pattern.indices().len(),
                forest@.len() == nrows,
                ancestor@.len() == nrows,
                forest_wf(forest@, nrows as int),
                forest_wf(ancestor@, nrows as int),
                forall|t: int|
                    0 <= t < nrows ==> ((#[trigger] ancestor@[t] == usize::MAX) <==> forest@[t]
                        == usize::MAX),
                lower_entries_parented(pattern, forest@, k as int),
                forall|q: int|
                    a <= q < p && #[trigger] pattern.indices()[q] < k
                        ==> forest@[pattern.indices()[q] as int] != usize::MAX,
                (forest@, ancestor@) == lane_walks_spec(pattern, lane_f, lane_a, k, p as int, nrows
                    as nat),
            decreases b - p,
        {
            let irow = pattern.minor_indices()[p];
            let ghost fpre = forest@;
            etree_process_entry(nrows, k, irow, &mut forest, &mut ancestor);
            proof {
                lemma_parented_extend(pattern, fpre, forest@, nrows as int, k as int);
                assert forall|q: int|
                    a <= q < p + 1 && #[trigger] pattern.indices()[q] < k implies forest@[
                pattern.indices()[q] as int] != usize::MAX by {
                    if q < p {
                        assert(fpre[pattern.indices()[q] as int] != usize::MAX);
                    }
                }
                assert((forest@, ancestor@) == lane_walks_spec(
                    pattern,
                    lane_f,
                    lane_a,
                    k,
                    p + 1,
                    nrows as nat,
                ));
            }
            p += 1;
        }
        proof {
            lemma_parented_step(pattern, forest@, k as int, a as int, b as int);
            assert((forest@, ancestor@) == etree_upto_spec(
                pattern,
                init_f,
                init_a,
                k + 1,
                nrows as nat,
            ));
        }
        k += 1;
    }
    proof {
        assert(forest@ == etree_spec(pattern));
    }
    forest
}

/// One marking walk of the reach computation, as a function of the state:
/// from `curr`, tree links are followed while inside the ceiling and
/// unmarked, marking every node passed. The fuel bounds the walk's length;
/// any fuel at least the ceiling suffices, since tree links strictly
/// increase.
pub open(crate) spec fn mark_walk_spec(
    tree: Seq<usize>,
    marks: Seq<bool>,
    curr: int,
    max_j: usize,
    fuel: nat,
) -> Seq<bool>
    decreases fuel,
{
    if fuel == 0 || !(0 <= curr <= max_j && curr < marks.len()) || marks[curr] {
        marks
    } else {
        let m2 = marks.update(curr, true);
        let nx = tree[curr] as int;
        if nx > max_j {
            m2
        } else {
            mark_walk_spec(tree, m2, nx, max_j, (fuel - 1) as nat)
        }
    }
}

/// The visited marks after the walks of lane `j`'s stored entries at
/// positions below `p`.
pub open(crate) spec fn lane_marks_spec(
    pattern: &SparsityPattern,
    tree: Seq<usize>,
    marks: Seq<bool>,
    j: usize,
    max_j: usize,
    p: int,
    n: nat,
) -> Seq<bool>
    decreases p,
{
    if p <= pattern.offsets()[j as int] {
        marks
    } else {
        let prev = lane_marks_spec(pattern, tree, marks, j, max_j, p - 1, n);
        mark_walk_spec(tree, prev, pattern.indices()[p - 1] as int, max_j, n)
    }
}

/// The output array after appending the marked indices below `v`, in
/// ascending order.
pub open(crate) spec fn scan_marks_spec(marks: Seq<bool>, out: Seq<usize>, v: int) -> Seq<usize>
    decreases v,
{
    if v <= 0 {
        out
    } else {
        let prev = scan_marks_spec(marks, out, v - 1);
        if marks[v - 1] {
            prev.push((v - 1) as usize)
        } else {
            prev
        }
    }
}

/// The whole output of a reach computation, as a function of the pattern,
/// the forest, the ceiling and the array appended to: the walks of lane `j`
/// over an all-clear visited buffer, then the ascending scan of the marked
/// set up to the ceiling.
pub open(crate) spec fn reach_out_spec(
    pattern: &SparsityPattern,
    tree: Seq<usize>,
    out0: Seq<usize>,
    j: usize,
    max_j: usize,
) -> Seq<usize> {
    scan_marks_spec(
        lane_marks_spec(
            pattern,
            tree,
            Seq::new(tree.len(), |x: int| false),
            j,
            max_j,
            pattern.offsets()[j as int + 1] as int,
            tree.len(),
        ),
        out0,
        max_j as int + 1,
    )
}

/// Every marked node's tree link either leaves the ceiling or lands on
/// another marked node.
pub open(crate) spec fn marks_tree_closed(tree: Seq<usize>, marks: Seq<bool>, max_j: int) -> bool {
    forall|x: int|
        0 <= x < marks.len() && #[trigger] marks[x] ==> (tree[x] as int > max_j || (0 <= tree[x]
            < marks.len() && marks[tree[x] as int]))
}

/// The visited-marks buffer records exactly the appended block: a node is
/// marked precisely when it appears among the block's entries.
#[verifier::opaque]
pub open(crate) spec fn marks_record_block(marks: Seq<bool>, out: Seq<usize>, lo: int) -> bool {
    forall|x: int|
        0 <= x < marks.len() ==> ((#[trigger] marks[x]) <==> exists|t: int|
            lo <= t < out.len() && out[t] == x)
}

/// Within the appended block, following a tree link from any member either
/// leaves the ceiling or lands on another member: the block is closed under
/// the ancestor relation up to the ceiling.
#[verifier::opaque]
pub open(crate) spec fn block_tree_closed(
    tree: Seq<usize>,
    out: Seq<usize>,
    lo: int,
    max_j: int,
) -> bool {
    forall|t: int|
        lo <= t < out.len() ==> (tree[#[trigger] out[t] as int] as int > max_j || exists|u: int|
            lo <= u < out.len() && out[u] == tree[out[t] as int])
}

/// Computes the set of factor indices reached from lane `j` of the pattern
/// through the elimination forest, capped at the inclusive ceiling `max_j`:
/// starting from every stored row index of the lane, ancestors are followed
/// and marked until the walk leaves `0 ..= max_j` or hits an index already
/// marked by an earlier walk of this call. The reached indices are appended
/// to `out` in strictly ascending order; `marks` is the reusable visited
/// buffer, resized and cleared on entry.
pub(crate) fn reach(
    pattern: &SparsityPattern,
    j: usize,
    max_j: usize,
    tree: &Vec<usize>,
    marks: &mut Vec<bool>,
    out: &mut Vec<usize>,
)
    requires
        pattern.wf(),
        pattern.dim_major() == pattern.dim_minor(),
        j < pattern.dim_major(),
        max_j < pattern.dim_minor(),
        tree@.len() == pattern.dim_minor(),
        forest_wf(tree@, pattern.dim_minor()),
    ensures
        final(marks)@.len() == tree@.len(),
        old(out)@.is_prefix_of(final(out)@),
        forall|t: int, u: int|
            #![trigger final(out)@[t], final(out)@[u]]
            old(out)@.len() <= t < u < final(out)@.len() ==> final(out)@[t] < final(out)@[u],
        forall|t: int|
            old(out)@.len() <= t < final(out)@.len() ==> #[trigger] final(out)@[t] <= max_j,
        forall|p: int|
            #![trigger pattern.indices()[p]]
            pattern.offsets()[j as int] <= p < pattern.offsets()[j + 1] && pattern.indices()[p]
                <= max_j ==> exists|t: int|
                old(out)@.len() <= t < final(out)@.len() && #[trigger] final(out)@[t]
                    == pattern.indices()[p],
        block_tree_closed(tree@, final(out)@, old(out)@.len() as int, max_j as int),
        marks_record_block(final(marks)@, final(out)@, old(out)@.len() as int),
        final(out)@ == reach_out_spec(pattern, tree@, old(out)@, j, max_j),
{
    let n = tree.len();
    marks.clear();
    let mut idx: usize = 0;
    while idx < n
        invariant
            idx <= n,
            marks@.len() == idx,
            forall|x: int| 0 <= x < idx ==> !(#[trigger] marks@[x]),
            marks@ == Seq::new(idx as nat, |x: int| false),
        decreases n - idx,
    {
        marks.push(false);
        proof {
            assert(marks@ =~= Seq::new((idx + 1) as nat, |x: int| false));
        }
        idx += 1;
    }
    let a = pattern.major_offsets()[j];
    let b = pattern.major_offsets()[j + 1];
    proof {
        lemma_offsets_monotone(pattern, j as int, j + 1);
        lemma_offsets_monotone(pattern, j + 1, pattern.dim_major());
    }
    let ghost marks0 = marks@;
    let mut p = a;
    while p < b
        invariant
            pattern.wf(),
            pattern.dim_major() == pattern.dim_minor(),
            n == pattern.dim_minor(),
            max_j < n,
            a <= p <= b,
            a == pattern.offsets()[j as int],
            b == pattern.offsets()[j + 1],
            b <= pattern.indices().len(),
            tree@.len() == n,
            forest_wf(tree@, n as int),
            marks@.len() == n,
            marks_tree_closed(tree@, marks@, max_j as int),
            forall|x: int| 0 <= x < n && #[trigger] marks@[x] ==> x <= max_j,
            forall|q: int|
                #![trigger pattern.indices()[q]]
                a <= q < p && pattern.indices()[q] <= max_j ==> marks@[pattern.indices()[q] as int],
            marks@ == lane_marks_spec(pattern, tree@, marks0, j, max_j, p as int, n as nat),
        decreases b - p,
    {
        let irow = pattern.minor_indices()[p];
        let ghost walk_m0 = marks@;
        let ghost g: nat = n as nat;
        let mut curr = irow;
        while curr <= max_j && !marks[curr]
            invariant_except_break
                g as int >= max_j + 1 - curr,
                mark_walk_spec(tree@, walk_m0, irow as int, max_j, n as nat) == mark_walk_spec(
                    tree@,
                    marks@,
                    curr as int,
                    max_j,
                    g,
                ),
            invariant
                n == pattern.dim_minor(),
                max_j < n,
                irow < n,
                tree@.len() == n,
                forest_wf(tree@, n as int),
                marks@.len() == n,
                curr <= max_j ==> curr < n,
                irow <= max_j ==> (marks@[irow as int] || curr == irow),
                forall|x: int|
                    0 <= x < n && #[trigger] marks@[x] ==> (tree@[x] as int > max_j || (0 <= tree@[x]
                        < n && marks@[tree@[x] as int]) || tree@[x] as int == curr),
                forall|x: int| 0 <= x < n && #[trigger] marks@[x] ==> x <= max_j,
                forall|q: int|
                    #![trigger pattern.indices()[q]]
                    a <= q < p && pattern.indices()[q] <= max_j ==> marks@[pattern.indices()[q]
                        as int],
            ensures
                irow <= max_j ==> marks@[irow as int],
                marks@.len() == n,
                marks_tree_closed(tree@, marks@, max_j as int),
                forall|x: int| 0 <= x < n && #[trigger] marks@[x] ==> x <= max_j,
                forall|q: int|
                    #![trigger pattern.indices()[q]]
                    a <= q < p && pattern.indices()[q] <= max_j ==> marks@[pattern.indices()[q]
                        as int],
                marks@ == mark_walk_spec(tree@, walk_m0, irow as int, max_j, n as nat),
            decreases max_j + 1 - curr,
        {
            let ghost pre_m = marks@;
            let ghost pre_c = curr as int;
            marks.set(curr, true);
            let next = tree[curr];
            if next > max_j {
                proof {
                    assert(mark_walk_spec(tree@, pre_m, pre_c, max_j, g) == marks@);
                    assert(mark_walk_spec(tree@, walk_m0, irow as int, max_j, n as nat)
                        == marks@);
                }
                break ;
            }
            curr = next;
            proof {
                assert(mark_walk_spec(tree@, pre_m, pre_c, max_j, g) == mark_walk_spec(
                    tree@,
                    marks@,
                    curr as int,
                    max_j,
                    (g - 1) as nat,
                ));
                g = (g - 1) as nat;
            }
        }
        proof {
            assert(marks@ == lane_marks_spec(pattern, tree@, marks0, j, max_j, p + 1, n as nat));
        }
        p += 1;
    }
    let ghost out_base = out@;
    let mut v: usize = 0;
    while v <= max_j
        invariant
            max_j < n,
            marks@.len() == n,
            v <= max_j + 1,
            out_base.is_prefix_of(out@),
            forall|t: int, u: int|
                #![trigger out@[t], out@[u]]
                out_base.len() <= t < u < out@.len() ==> out@[t] < out@[u],
            forall|t: int| out_base.len() <= t < out@.len() ==> #[trigger] out@[t] < v,
            forall|w: int|
                0 <= w < v && marks@[w] ==> exists|t: int|
                    out_base.len() <= t < out@.len() && #[trigger] out@[t] == w,
            forall|t: int|
                out_base.len() <= t < out@.len() ==> marks@[#[trigger] out@[t] as int],
            out@ == scan_marks_spec(marks@, out_base, v as int),
        decreases max_j + 1 - v,
    {
        let ghost pre = out@;
        if marks[v] {
            out.push(v);
        }
        proof {
            assert forall|w: int|
                0 <= w < v + 1 && marks@[w] implies exists|t: int|
                out_base.len() <= t < out@.len() && #[trigger] out@[t] == w by {
                if w == v {
                    assert(out@[out@.len() - 1] == v);
                } else {
                    let t0 = choose|t0: int|
                        out_base.len() <= t0 < pre.len() && #[trigger] pre[t0] == w;
                    assert(out@[t0] == w);
                }
            }
        }
        v += 1;
    }
    proof {
        assert forall|p: int|
            #![trigger pattern.indices()[p]]
            pattern.offsets()[j as int] <= p < pattern.offsets()[j + 1] && pattern.indices()[p]
                <= max_j implies exists|t: int|
            out_base.len() <= t < out@.len() && #[trigger] out@[t] == pattern.indices()[p] by {
            assert(marks@[pattern.indices()[p] as int]);
        }
        assert(forall|t: int|
            out_base.len() <= t < out@.len() ==> #[trigger] out@[t] < v && v == max_j + 1);
        assert(out@ == reach_out_spec(pattern, tree@, out_base, j, max_j)) by {
            assert(marks0 =~= Seq::new(tree@.len(), |x: int| false));
        }
        assert(marks_record_block(marks@, out@, out_base.len() as int)) by {
            reveal(marks_record_block);
            assert forall|x: int|
                0 <= x < n implies ((#[trigger] marks@[x]) <==> exists|t: int|
                out_base.len() <= t < out@.len() && out@[t] == x) by {
                if marks@[x] {
                    assert(x <= max_j);
                }
                if exists|t: int| out_base.len() <= t < out@.len() && out@[t] == x {
                    let t0 = choose|t0: int|
                        out_base.len() <= t0 < out@.len() && #[trigger] out@[t0] == x;
                    assert(marks@[out@[t0] as int]);
                }
            }
        }
        assert(block_tree_closed(tree@, out@, out_base.len() as int, max_j as int)) by {
            reveal(block_tree_closed);
            assert forall|t: int|
                #![trigger out@[t]]
                out_base.len() <= t < out@.len() implies (tree@[out@[t] as int] as int > max_j
                || exists|u: int|
                out_base.len() <= u < out@.len() && out@[u] == tree@[out@[t] as int]) by {
                let vv = out@[t] as int;
                let nx = tree@[vv] as int;
                assert(marks@[vv]);
                assert(nx > max_j || (0 <= nx < n && marks@[nx]));
                if !(nx > max_j) {
                    assert(marks@[nx]);
                    assert(nx < max_j + 1);
                }
            }
        }
    }
}

/// Computes the nonzero patterns of the Cholesky factor `L` and of its
/// transpose `U = L^T` for a square (assumed symmetric) pattern. Lane `k` of
/// the `U` pattern is the reach set of index `k` capped at `k`, so all its
/// entries are at most `k`, and it covers at least the stored entries of
/// lane `k` of the matrix that are at most `k`; the `L` pattern is the exact
/// transpose, with the same number of entries.
#[verifier::rlimit(100)]
pub(crate) fn nonzero_pattern(m: &SparsityPattern) -> (lu: (SparsityPattern, SparsityPattern))
    requires
        m.wf(),
        m.dim_major() == m.dim_minor(),
    ensures
        lu.0.wf(),
        lu.1.wf(),
        lu.0.dim_major() == m.dim_major(),
        lu.0.dim_minor() == m.dim_major(),
        lu.1.dim_major() == m.dim_major(),
        lu.1.dim_minor() == m.dim_major(),
        lu.0.spec_nnz() == lu.1.spec_nnz(),
        forall|a: int, b: int|
            #![trigger lu.0.contains_entry(a, b)]
            0 <= a < m.dim_major() && 0 <= b < m.dim_major() ==> (lu.0.contains_entry(a, b)
                <==> lu.1.contains_entry(b, a)),
        forall|k: int, t: int|
            #![trigger lu.1.offsets()[k], lu.1.indices()[t]]
            0 <= k < m.dim_major() && lu.1.offsets()[k] <= t < lu.1.offsets()[k + 1]
                ==> lu.1.indices()[t] <= k,
        forall|a: int, b: int|
            #![trigger m.contains_entry(a, b)]
            0 <= b <= a < m.dim_major() && m.contains_entry(a, b) ==> lu.1.contains_entry(a, b),
{
    let etree = elimination_tree(m);
    let nrows = m.minor_dim();
    let mut rows: Vec<usize> = Vec::new();
    let mut col_offsets: Vec<usize> = Vec::new();
    let mut marks: Vec<bool> = Vec::new();
    col_offsets.push(0);
    let mut i: usize = 0;
    while i < nrows
        invariant
            m.wf(),
            m.dim_major() == m.dim_minor(),
            nrows == m.dim_minor(),
            i <= nrows,
            etree@.len() == nrows,
            forest_wf(etree@, nrows as int),
            col_offsets@.len() == i + 1,
            col_offsets@[0] == 0,
            col_offsets@[i as int] == rows@.len(),
            crate::pattern::offsets_monotonic(col_offsets@),
            crate::pattern::minor_indices_in_bounds(rows@, nrows),
            crate::pattern::lanes_sorted(col_offsets@, rows@),
            forall|jj: int, t: int|
                #![trigger col_offsets@[jj], rows@[t]]
                0 <= jj < i && col_offsets@[jj] <= t < col_offsets@[jj + 1] ==> rows@[t] <= jj,
            forall|jj: int, p: int|
                #![trigger col_offsets@[jj], m.indices()[p]]
                0 <= jj < i && m.offsets()[jj] <= p < m.offsets()[jj + 1] && m.indices()[p] <= jj
                    ==> crate::pattern::parts_contain(col_offsets@, rows@, jj, m.indices()[p] as int),
        decreases nrows - i,
    {
        let ghost prior_offsets = col_offsets@;
        let ghost prior_rows = rows@;
        proof {
            crate::pattern::lemma_offsets_monotone(m, i as int, i + 1);
            crate::pattern::lemma_offsets_monotone(m, i + 1, m.dim_major());
        }
        reach(m, i, i, &etree, &mut marks, &mut rows);
        col_offsets.push(rows.len());
        proof {
            assert forall|t: int| 0 <= t < prior_rows.len() implies rows@[t] == prior_rows[t] by {
                assert(prior_rows.is_prefix_of(rows@));
                assert(prior_rows.subrange(0, prior_rows.len() as int) =~= prior_rows);
            }
            assert forall|t: int| 0 <= t < rows@.len() implies #[trigger] rows@[t] < nrows by {
                if t < prior_rows.len() {
                    assert(rows@[t] == prior_rows[t]);
                } else {
                    assert(rows@[t] <= i);
                }
            }
            assert forall|jl: int, t: int, u: int|
                #![trigger col_offsets@[jl], rows@[t], rows@[u]]
                0 <= jl < col_offsets@.len() - 1 && col_offsets@[jl] <= t < u < col_offsets@[jl
                    + 1] implies rows@[t] < rows@[u] by {
                if jl < i {
                    assert(col_offsets@[jl] == prior_offsets[jl]);
                    assert(col_offsets@[jl + 1] == prior_offsets[jl + 1]);
                    assert(prior_offsets[jl + 1] <= prior_offsets[i as int]);
                    assert(prior_rows[t] < prior_rows[u]);
                }
            }
            assert forall|jj: int, t: int|
                #![trigger col_offsets@[jj], rows@[t]]
                0 <= jj < i + 1 && col_offsets@[jj] <= t < col_offsets@[jj + 1] implies rows@[t]
                <= jj by {
                if jj < i {
                    assert(col_offsets@[jj] == prior_offsets[jj]);
                    assert(col_offsets@[jj + 1] == prior_offsets[jj + 1]);
                    assert(prior_offsets[jj + 1] <= prior_offsets[i as int]);
                    assert(prior_rows[t] <= jj);
                }
            }
            assert forall|jj: int, p: int|
                #![trigger col_offsets@[jj], m.indices()[p]]
                0 <= jj < i + 1 && m.offsets()[jj] <= p < m.offsets()[jj + 1] && m.indices()[p]
                    <= jj implies crate::pattern::parts_contain(
                col_offsets@,
                rows@,
                jj,
                m.indices()[p] as int,
            ) by {
                if jj < i {
                    let r0 = m.indices()[p] as int;
                    assert(col_offsets@[jj] == prior_offsets[jj]);
                    assert(col_offsets@[jj + 1] == prior_offsets[jj + 1]);
                    assert(crate::pattern::parts_contain(prior_offsets, prior_rows, jj, r0));
                    let t0 = choose|t0: int|
                        prior_offsets[jj] <= t0 < prior_offsets[jj + 1] && #[trigger] prior_rows[t0]
                            == r0;
                    assert(prior_offsets[jj + 1] <= prior_offsets[i as int]);
                    assert(rows@[t0] == r0);
                } else {
                    let mi = m.indices()[p];
                    let t0 = choose|t0: int|
                        prior_rows.len() <= t0 < rows@.len() && #[trigger] rows@[t0] == mi;
                    assert(col_offsets@[jj] == prior_rows.len());
                    assert(col_offsets@[jj + 1] == rows@.len());
                    assert(rows@[t0] == m.indices()[p] as int);
                }
            }
        }
        i += 1;
    }
    let ghost co = col_offsets@;
    let ghost rw = rows@;
    let u_pattern = SparsityPattern {
        major_dim: nrows,
        minor_dim: nrows,
        major_offsets: col_offsets,
        minor_indices: rows,
    };
    proof {
        assert forall|a: int, b: int|
            #![trigger m.contains_entry(a, b)]
            0 <= b <= a < m.dim_major() && m.contains_entry(a, b) implies u_pattern.contains_entry(
            a,
            b,
        ) by {
            let p0 = choose|p0: int|
                m.major_offsets@[a] <= p0 < m.major_offsets@[a + 1]
                    && #[trigger] m.minor_indices@[p0] == b;
            assert(co[a] == u_pattern.major_offsets@[a]);
            assert(m.indices()[p0] == b);
            assert(crate::pattern::parts_contain(co, rw, a, m.indices()[p0] as int));
            assert(crate::pattern::parts_contain(
                u_pattern.major_offsets@,
                u_pattern.minor_indices@,
                a,
                b,
            ));
        }
    }
    let l_pattern = u_pattern.transpose();
    (l_pattern, u_pattern)
}

} // verus!
