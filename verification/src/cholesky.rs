//! Sparse Cholesky factorization of a CSC matrix, split into a reusable
//! symbolic phase and a numeric phase.
//!
//! The symbolic phase builds the elimination tree of the upper-triangular
//! pattern, collects each column's reach set into the structural pattern
//! `U`, and transposes it to obtain the pattern of the factor `L`. The
//! numeric phase is a left-looking factorization that walks the columns
//! in order, scattering the original values into a dense workspace,
//! folding in every earlier contributing column, and failing at the first
//! nonpositive diagonal. The factor is handed out only after a successful
//! numeric phase.
//!
//! The contracts pin both phases exactly. The symbolic phase produces the
//! elimination tree `etree_spec` and the reach-set pattern
//! `pattern_build` of that tree, with the factor's pattern its structural
//! transpose; the pattern never changes afterwards. The numeric phase is
//! stated by the recurrence `chol_run`: it succeeds if and only if the
//! recurrence does (in particular, exactly when every pivot stays
//! positive), on success the factor holds the recurrence's values, and
//! `l()` yields the factor exactly when the last numeric phase succeeded.

use vstd::prelude::*;
use crate::scalar::{sub_w, mul_w, div_w, isqrt, wsub64, wmul64, wdiv64, sqrt64, lemma_w64_ops};
use crate::cs::{CsMatrix, same_pattern, lemma_slice_in_bounds};
use crate::csc::CscMatrix;

verus! {

/// A sparse Cholesky factorization engine.
pub struct CsCholesky {
    /// Column offsets of the original upper-triangular pattern, with the
    /// trailing sentinel.
    pub original_p: Vec<usize>,
    /// Row indices of the original upper-triangular pattern.
    pub original_i: Vec<usize>,
    /// Number of values expected from the original matrix.
    pub original_len: usize,
    /// The factor: pattern fixed by the symbolic phase, values filled by
    /// the numeric phase.
    pub l: CscMatrix,
    /// The structural transpose of the factor's pattern, used for column
    /// reach queries.
    pub u: CscMatrix,
    /// Whether the last numeric phase succeeded.
    pub ok: bool,
    /// Dense per-row scratch workspace.
    pub work_x: Vec<i64>,
    /// Per-column write cursors.
    pub work_c: Vec<usize>,
}

/// One ancestor-compression chain walk of the elimination-tree pass:
/// starting at `i` and while below the current column `k`, repoint each
/// visited node's ancestor to `k`; the first node found without an
/// ancestor gets the tree parent `k` if it had none.
pub open spec fn etree_chain(
    forest: Seq<usize>,
    anc: Seq<usize>,
    i: usize,
    k: usize,
    fuel: nat,
) -> (Seq<usize>, Seq<usize>)
    decreases fuel,
{
    if fuel == 0 || i >= k {
        (forest, anc)
    } else {
        let ia = anc[i as int];
        let anc1 = anc.update(i as int, k);
        if ia == usize::MAX {
            if forest[i as int] == usize::MAX {
                (forest.update(i as int, k), anc1)
            } else {
                (forest, anc1)
            }
        } else {
            etree_chain(forest, anc1, ia, k, (fuel - 1) as nat)
        }
    }
}

/// The chain walks from column `k`'s stored rows at positions `[lo, p)`.
pub open spec fn etree_scan(
    minors: Seq<usize>,
    forest: Seq<usize>,
    anc: Seq<usize>,
    k: usize,
    fuel: nat,
    lo: int,
    p: int,
) -> (Seq<usize>, Seq<usize>)
    decreases p - lo,
{
    if p <= lo {
        (forest, anc)
    } else {
        let fa = etree_scan(minors, forest, anc, k, fuel, lo, p - 1);
        etree_chain(fa.0, fa.1, minors[p - 1], k, fuel)
    }
}

/// The elimination-tree pass over the first `kk` columns.
pub open spec fn etree_pass(
    m: &CsMatrix,
    forest: Seq<usize>,
    anc: Seq<usize>,
    kk: int,
) -> (Seq<usize>, Seq<usize>)
    decreases kk,
{
    if kk <= 0 {
        (forest, anc)
    } else {
        let fa = etree_pass(m, forest, anc, kk - 1);
        etree_scan(
            m.minor_indices@, fa.0, fa.1, (kk - 1) as usize, m.major_dim as nat,
            m.lo(kk - 1), m.hi(kk - 1))
    }
}

/// The elimination tree of the matrix's pattern: the forest the
/// one-pass first-unvisited-ancestor walk produces, starting with every
/// node parentless.
pub open spec fn etree_spec(m: &CsMatrix) -> Seq<usize> {
    etree_pass(
        m,
        Seq::new(m.major_dim as nat, |i: int| usize::MAX),
        Seq::new(m.major_dim as nat, |i: int| usize::MAX),
        m.major_dim as int,
    ).0
}

/// One marking walk: follow tree parents upward from `curr`, marking
/// every node not yet marked and not beyond `max_j`.
pub open spec fn reach_walk(
    tree: Seq<usize>,
    marks: Seq<bool>,
    curr: usize,
    max_j: usize,
    fuel: nat,
) -> Seq<bool>
    decreases fuel,
{
    if fuel == 0 || curr == usize::MAX || curr > max_j || marks[curr as int] {
        marks
    } else {
        reach_walk(
            tree, marks.update(curr as int, true), tree[curr as int], max_j,
            (fuel - 1) as nat)
    }
}

/// The marking walks from column `j`'s stored rows at positions `[lo, p)`.
pub open spec fn reach_scan(
    minors: Seq<usize>,
    tree: Seq<usize>,
    marks: Seq<bool>,
    max_j: usize,
    fuel: nat,
    lo: int,
    p: int,
) -> Seq<bool>
    decreases p - lo,
{
    if p <= lo {
        marks
    } else {
        reach_walk(
            tree, reach_scan(minors, tree, marks, max_j, fuel, lo, p - 1), minors[p - 1],
            max_j, fuel)
    }
}

/// The mark indicator of column `j`'s reach set: which nodes the walks
/// from the column's stored rows mark, starting from no marks.
pub open spec fn reach_marks(m: &CsMatrix, tree: Seq<usize>, j: int, max_j: usize) -> Seq<bool> {
    reach_scan(
        m.minor_indices@, tree, Seq::new(m.major_dim as nat, |i: int| false), max_j,
        m.major_dim as nat, m.lo(j), m.hi(j))
}

/// The marked nodes in `[0, i)`, appended to `out` in ascending order.
pub open spec fn reach_collect(marks: Seq<bool>, out: Seq<usize>, i: int) -> Seq<usize>
    decreases i,
{
    if i <= 0 {
        out
    } else {
        let prev = reach_collect(marks, out, i - 1);
        if marks[i - 1] {
            prev.push((i - 1) as usize)
        } else {
            prev
        }
    }
}

/// The structural pattern of the factor's transpose, built column by
/// column: column `k` holds the reach set of column `k` of the analyzed
/// matrix in the elimination tree `tree`, and the offsets record where
/// each column starts.
pub open spec fn pattern_build(m: &CsMatrix, tree: Seq<usize>, kk: int) -> (Seq<usize>, Seq<usize>)
    decreases kk,
{
    if kk <= 0 {
        (Seq::empty(), Seq::empty())
    } else {
        let cr = pattern_build(m, tree, kk - 1);
        (
            cr.0.push(cr.1.len() as usize),
            reach_collect(reach_marks(m, tree, kk - 1, (kk - 1) as usize), cr.1, kk),
        )
    }
}

impl CsCholesky {
    /// The dimension of the (square) factored matrix.
    pub open spec fn n(&self) -> int {
        self.l.cs.major_dim as int
    }

    /// The engine's structural invariant.
    pub open spec fn wf(&self) -> bool {
        &&& self.l.wf()
        &&& self.u.wf()
        &&& self.l.cs.major_dim == self.l.cs.minor_dim
        &&& self.u.cs.major_dim == self.n()
        &&& self.u.cs.minor_dim == self.n()
        &&& self.work_x@.len() == self.n()
        &&& self.work_c@.len() == self.n()
        &&& self.original_p@.len() == self.n() + 1
        &&& self.original_i@.len() == self.original_len as int
        &&& self.original_p@[self.n()] as int == self.original_len as int
        &&& (forall|a: int| 0 <= a < self.n()
            ==> (#[trigger] self.original_p@[a] as int) <= self.original_p@[a + 1] as int)
        &&& (forall|p: int| 0 <= p < self.original_i@.len()
            ==> (#[trigger] self.original_i@[p] as int) < self.n())
        &&& (forall|i: int, j: int|
            0 <= i < self.n() && 0 <= j < self.n()
                ==> (#[trigger] self.l.cs.slice_has(j, i)) == self.u.cs.slice_has(i, j))
    }

    /// Walk one pass over the pattern and produce the elimination tree:
    /// a forest in which each node's parent, when present, is a later
    /// column.
    fn elimination_tree(m: &CscMatrix) -> (forest: Vec<usize>)
        requires
            m.wf(),
            m.nrows_spec() == m.ncols_spec(),
        ensures
            forest@.len() == m.ncols_spec(),
            forall|i: int| 0 <= i < forest@.len()
                ==> #[trigger] forest@[i] == usize::MAX
                    || (i < forest@[i] as int && (forest@[i] as int) < m.ncols_spec()),
            forest@ == etree_spec(&m.cs),
    {
        let nrows = m.cs.major_dim;
        let mut forest: Vec<usize> = Vec::new();
        let mut ancestor: Vec<usize> = Vec::new();
        let mut t: usize = 0;
        while t < nrows
            invariant
                t <= nrows,
                forest@.len() == t as int,
                ancestor@.len() == t as int,
                forall|i: int| 0 <= i < t as int ==> #[trigger] forest@[i] == usize::MAX,
                forall|i: int| 0 <= i < t as int ==> #[trigger] ancestor@[i] == usize::MAX,
            decreases nrows - t,
        {
            forest.push(usize::MAX);
            ancestor.push(usize::MAX);
            t = t + 1;
        }
        let ghost f0 = Seq::new(nrows as nat, |i: int| usize::MAX);
        let ghost a0 = Seq::new(nrows as nat, |i: int| usize::MAX);
        proof {
            assert(forest@ =~= f0);
            assert(ancestor@ =~= a0);
        }
        let mut k: usize = 0;
        while k < nrows
            invariant
                m.wf(),
                m.nrows_spec() == m.ncols_spec(),
                nrows == m.cs.major_dim,
                k <= nrows,
                forest@.len() == nrows as int,
                ancestor@.len() == nrows as int,
                f0 == Seq::new(nrows as nat, |i: int| usize::MAX),
                a0 == Seq::new(nrows as nat, |i: int| usize::MAX),
                etree_pass(&m.cs, f0, a0, k as int) == (forest@, ancestor@),
                forall|i: int| 0 <= i < nrows as int
                    ==> #[trigger] forest@[i] == usize::MAX
                        || (i < forest@[i] as int && (forest@[i] as int) < nrows as int),
                forall|i: int| 0 <= i < nrows as int
                    ==> #[trigger] ancestor@[i] == usize::MAX
                        || (i < ancestor@[i] as int && (ancestor@[i] as int) <= k as int),
            decreases nrows - k,
        {
            let ghost fk = forest@;
            let ghost ak = ancestor@;
            let (lo, hi) = m.cs.slice_bounds(k);
            let mut p = lo;
            while p < hi
                invariant
                    m.wf(),
                    m.nrows_spec() == m.ncols_spec(),
                    nrows == m.cs.major_dim,
                    k < nrows,
                    lo as int == m.cs.lo(k as int),
                    hi as int == m.cs.hi(k as int),
                    lo <= p <= hi,
                    hi as int <= m.cs.nnz(),
                    forest@.len() == nrows as int,
                    ancestor@.len() == nrows as int,
                    etree_scan(
                        m.cs.minor_indices@, fk, ak, k, nrows as nat, lo as int, p as int,
                    ) == (forest@, ancestor@),
                    forall|i: int| 0 <= i < nrows as int
                        ==> #[trigger] forest@[i] == usize::MAX
                            || (i < forest@[i] as int && (forest@[i] as int) < nrows as int),
                    forall|i: int| 0 <= i < nrows as int
                        ==> #[trigger] ancestor@[i] == usize::MAX
                            || (i < ancestor@[i] as int && (ancestor@[i] as int) <= k as int),
                decreases hi - p,
            {
                let ghost fw = forest@;
                let ghost aw = ancestor@;
                let irow = m.cs.minor_indices[p];
                let mut i = irow;
                let ghost fl = nrows as nat;
                while i < k
                    invariant_except_break
                        etree_chain(fw, aw, irow, k, nrows as nat)
                            == etree_chain(forest@, ancestor@, i, k, fl),
                        (i as int) < k as int ==> fl >= k as int - i as int,
                    invariant
                        nrows == m.cs.major_dim,
                        k < nrows,
                        i <= nrows,
                        forest@.len() == nrows as int,
                        ancestor@.len() == nrows as int,
                        forall|i2: int| 0 <= i2 < nrows as int
                            ==> #[trigger] forest@[i2] == usize::MAX
                                || (i2 < forest@[i2] as int
                                    && (forest@[i2] as int) < nrows as int),
                        forall|i2: int| 0 <= i2 < nrows as int
                            ==> #[trigger] ancestor@[i2] == usize::MAX
                                || (i2 < ancestor@[i2] as int
                                    && (ancestor@[i2] as int) <= k as int),
                    ensures
                        etree_chain(fw, aw, irow, k, nrows as nat) == (forest@, ancestor@),
                        forest@.len() == nrows as int,
                        ancestor@.len() == nrows as int,
                        forall|i2: int| 0 <= i2 < nrows as int
                            ==> #[trigger] forest@[i2] == usize::MAX
                                || (i2 < forest@[i2] as int
                                    && (forest@[i2] as int) < nrows as int),
                        forall|i2: int| 0 <= i2 < nrows as int
                            ==> #[trigger] ancestor@[i2] == usize::MAX
                                || (i2 < ancestor@[i2] as int
                                    && (ancestor@[i2] as int) <= k as int),
                    decreases k - i,
                {
                    let ghost fprev = forest@;
                    let ghost aprev = ancestor@;
                    let i_ancestor = ancestor[i];
                    ancestor.set(i, k);
                    if i_ancestor == usize::MAX {
                        if forest[i] == usize::MAX {
                            forest.set(i, k);
                        }
                        proof {
                            assert(etree_chain(fprev, aprev, i, k, fl)
                                == (forest@, ancestor@));
                        }
                        break;
                    }
                    proof {
                        assert(etree_chain(fprev, aprev, i, k, fl)
                            == etree_chain(forest@, ancestor@, i_ancestor, k,
                                (fl - 1) as nat));
                        fl = (fl - 1) as nat;
                    }
                    i = i_ancestor;
                }
                proof {
                    assert(etree_scan(
                        m.cs.minor_indices@, fk, ak, k, nrows as nat, lo as int,
                        p as int + 1) == (forest@, ancestor@));
                }
                p = p + 1;
            }
            proof {
                assert(etree_pass(&m.cs, f0, a0, k as int + 1) == (forest@, ancestor@));
            }
            k = k + 1;
        }
        proof {
            assert(forest@ == etree_spec(&m.cs));
        }
        forest
    }

    /// Collect the reach set of column `j`: walk the elimination tree
    /// upward from every stored row of the column, marking every node not
    /// yet marked and not beyond `max_j` (`reach_marks` states the marks
    /// this leaves), then append the marked nodes to `out` in ascending
    /// order (`reach_collect` states the result).
    fn reach(
        m: &CscMatrix,
        j: usize,
        max_j: usize,
        tree: &Vec<usize>,
        marks: &mut Vec<bool>,
        out: &mut Vec<usize>,
    )
        requires
            m.wf(),
            j < m.cs.major_dim,
            max_j < m.cs.major_dim,
            tree@.len() == m.cs.major_dim,
            forall|i: int| 0 <= i < tree@.len()
                ==> #[trigger] tree@[i] == usize::MAX || i < tree@[i] as int,
        ensures
            final(marks)@ == reach_marks(&m.cs, tree@, j as int, max_j),
            final(out)@ == reach_collect(
                reach_marks(&m.cs, tree@, j as int, max_j), old(out)@, max_j as int + 1),
            final(out)@.len() >= old(out)@.len(),
            final(out)@.subrange(0, old(out)@.len() as int) == old(out)@,
            forall|q: int| old(out)@.len() <= q < final(out)@.len()
                ==> (#[trigger] final(out)@[q] as int) <= max_j as int,
            forall|q1: int, q2: int|
                old(out)@.len() <= q1 && q1 < q2 && q2 < final(out)@.len()
                    ==> (#[trigger] final(out)@[q1]) < (#[trigger] final(out)@[q2]),
    {
        let n = m.cs.major_dim;
        marks.clear();
        let mut t: usize = 0;
        while t < n
            invariant
                t <= n,
                marks@.len() == t as int,
                forall|i: int| 0 <= i < t as int ==> !(#[trigger] marks@[i]),
            decreases n - t,
        {
            marks.push(false);
            t = t + 1;
        }
        let ghost m_init = Seq::new(n as nat, |i: int| false);
        proof {
            assert(marks@ =~= m_init);
        }
        let (lo, hi) = m.cs.slice_bounds(j);
        let mut p = lo;
        while p < hi
            invariant
                m.wf(),
                j < m.cs.major_dim,
                max_j < m.cs.major_dim,
                n == m.cs.major_dim,
                lo as int == m.cs.lo(j as int),
                hi as int == m.cs.hi(j as int),
                lo <= p <= hi,
                hi as int <= m.cs.nnz(),
                marks@.len() == n as int,
                tree@.len() == n as int,
                m_init == Seq::new(n as nat, |i: int| false),
                marks@ == reach_scan(
                    m.cs.minor_indices@, tree@, m_init, max_j, n as nat, lo as int,
                    p as int),
                forall|i: int| 0 <= i < tree@.len()
                    ==> #[trigger] tree@[i] == usize::MAX || i < tree@[i] as int,
            decreases hi - p,
        {
            let ghost mw = marks@;
            let irow = m.cs.minor_indices[p];
            let mut curr = irow;
            let ghost fl = n as nat;
            while curr != usize::MAX && curr <= max_j && !marks[curr]
                invariant
                    n == m.cs.major_dim,
                    max_j < n,
                    marks@.len() == n as int,
                    tree@.len() == n as int,
                    reach_walk(tree@, mw, irow, max_j, n as nat)
                        == reach_walk(tree@, marks@, curr, max_j, fl),
                    curr as int <= max_j as int
                        ==> fl >= max_j as int + 1 - curr as int,
                    forall|i: int| 0 <= i < tree@.len()
                        ==> #[trigger] tree@[i] == usize::MAX || i < tree@[i] as int,
                decreases usize::MAX - curr,
            {
                let ghost mprev = marks@;
                marks.set(curr, true);
                proof {
                    assert(reach_walk(tree@, mprev, curr, max_j, fl)
                        == reach_walk(tree@, marks@, tree@[curr as int], max_j,
                            (fl - 1) as nat));
                    fl = (fl - 1) as nat;
                }
                curr = tree[curr];
            }
            proof {
                assert(reach_walk(tree@, mw, irow, max_j, n as nat) == marks@);
                assert(reach_scan(
                    m.cs.minor_indices@, tree@, m_init, max_j, n as nat, lo as int,
                    p as int + 1) == marks@);
            }
            p = p + 1;
        }
        proof {
            assert(marks@ == reach_marks(&m.cs, tree@, j as int, max_j));
        }
        let ghost mfin = marks@;
        let mut i: usize = 0;
        while i < max_j + 1
            invariant
                max_j < n,
                marks@.len() == n as int,
                marks@ == mfin,
                i <= max_j + 1,
                out@.len() >= old(out)@.len(),
                out@.subrange(0, old(out)@.len() as int) == old(out)@,
                out@ == reach_collect(mfin, old(out)@, i as int),
                forall|q: int| old(out)@.len() <= q < out@.len()
                    ==> (#[trigger] out@[q] as int) < i as int
                        && (out@[q] as int) <= max_j as int,
                forall|q1: int, q2: int|
                    old(out)@.len() <= q1 && q1 < q2 && q2 < out@.len()
                        ==> (#[trigger] out@[q1]) < (#[trigger] out@[q2]),
            decreases max_j + 1 - i,
        {
            if marks[i] {
                let ghost outpre = out@;
                out.push(i);
                proof {
                    assert(out@.subrange(0, old(out)@.len() as int)
                        == outpre.subrange(0, old(out)@.len() as int));
                }
            }
            i = i + 1;
        }
    }

    /// Compute the structural pattern of the factor: `U` column by column
    /// from the reach sets, and `L` as its transpose.
    fn nonzero_pattern(m: &CscMatrix) -> (r: (CscMatrix, CscMatrix))
        requires
            m.wf(),
            m.nrows_spec() == m.ncols_spec(),
        ensures
            r.0.wf(),
            r.1.wf(),
            r.0.cs.major_dim == m.cs.major_dim,
            r.0.cs.minor_dim == m.cs.major_dim,
            r.1.cs.major_dim == m.cs.major_dim,
            r.1.cs.minor_dim == m.cs.major_dim,
            r.0.cs.values@.len() == r.0.cs.nnz(),
            forall|i: int, j: int|
                0 <= i < m.cs.major_dim as int && 0 <= j < m.cs.major_dim as int
                    ==> (#[trigger] r.0.cs.slice_has(j, i)) == r.1.cs.slice_has(i, j),
            r.1.cs.minor_indices@ == pattern_build(
                &m.cs, etree_spec(&m.cs), m.cs.major_dim as int).1,
            r.1.cs.offsets@ == pattern_build(
                &m.cs, etree_spec(&m.cs), m.cs.major_dim as int).0.push(
                pattern_build(&m.cs, etree_spec(&m.cs), m.cs.major_dim as int).1.len()
                    as usize),
    {
        let etree = Self::elimination_tree(m);
        let nrows = m.cs.major_dim;
        let mut rows: Vec<usize> = Vec::new();
        let mut cols: Vec<usize> = Vec::new();
        let mut marks: Vec<bool> = Vec::new();
        let mut i: usize = 0;
        while i < nrows
            invariant
                m.wf(),
                m.nrows_spec() == m.ncols_spec(),
                nrows == m.cs.major_dim,
                i <= nrows,
                etree@.len() == nrows as int,
                forall|t: int| 0 <= t < etree@.len()
                    ==> #[trigger] etree@[t] == usize::MAX || t < etree@[t] as int,
                cols@.len() == i as int,
                i as int == 0 ==> rows@.len() == 0,
                etree@ == etree_spec(&m.cs),
                (cols@, rows@) == pattern_build(&m.cs, etree@, i as int),
                forall|a: int| 0 <= a < i as int
                    ==> (#[trigger] cols@[a] as int) <= rows@.len() as int,
                i as int > 0 ==> cols@[0] as int == 0,
                forall|a: int, b: int| 0 <= a < b < i as int
                    ==> (#[trigger] cols@[a] as int) <= (#[trigger] cols@[b] as int),
                forall|q: int| 0 <= q < rows@.len()
                    ==> (#[trigger] rows@[q] as int) < nrows as int,
                forall|jj: int, a: int, b: int|
                    #![trigger cols@[jj], rows@[a], rows@[b]]
                    0 <= jj < i as int && cols@[jj] as int <= a && a < b
                        && b < crate::cs::built_end(cols@, jj, rows@.len() as int)
                        ==> rows@[a] < rows@[b],
            decreases nrows - i,
        {
            let lo_i = rows.len();
            let ghost cols0 = cols@;
            cols.push(lo_i);
            let ghost rows0 = rows@;
            Self::reach(m, i, i, &etree, &mut marks, &mut rows);
            proof {
                assert(rows@.subrange(0, rows0.len() as int) == rows0);
                assert(forall|q: int| 0 <= q < rows0.len()
                    ==> #[trigger] rows@[q] == rows0[q]);
                assert(cols@ == cols0.push(rows0.len() as usize));
                assert((cols@, rows@) == pattern_build(&m.cs, etree@, i as int + 1));
            }
            i = i + 1;
        }
        let total = rows.len();
        let ghost pre_cols = cols@;
        cols.push(total);
        let mut vals: Vec<i64> = Vec::new();
        let mut t: usize = 0;
        while t < total
            invariant
                t <= total,
                vals@.len() == t as int,
            decreases total - t,
        {
            vals.push(0);
            t = t + 1;
        }
        let ucs = CsMatrix {
            major_dim: nrows,
            minor_dim: nrows,
            offsets: cols,
            minor_indices: rows,
            values: vals,
        };
        proof {
            let md = nrows as int;
            assert(ucs.offsets@.len() == md + 1);
            assert(ucs.offsets@[md] as int == total as int);
            assert(ucs.offsets@[0] as int == 0);
            assert forall|a: int| 0 <= a < md
                implies (#[trigger] ucs.offsets@[a] as int) <= ucs.offsets@[a + 1] as int by {
                assert(ucs.offsets@[a] == pre_cols[a]);
                if a + 1 < md {
                    assert(pre_cols[a] as int <= pre_cols[a + 1] as int);
                } else {
                    assert(pre_cols[a] as int <= total as int);
                }
            }
            assert forall|maj: int, p: int, q: int|
                #![trigger ucs.lo(maj), ucs.minor_indices@[p], ucs.minor_indices@[q]]
                0 <= maj < ucs.major_dim as int && ucs.lo(maj) <= p && p < q && q < ucs.hi(maj)
                    implies ucs.minor_indices@[p] < ucs.minor_indices@[q] by {
                assert(pre_cols[maj] as int <= p);
                assert(q < crate::cs::built_end(pre_cols, maj, total as int));
            }
            assert(ucs.wf());
            assert(ucs.minor_indices@ == pattern_build(
                &m.cs, etree_spec(&m.cs), m.cs.major_dim as int).1);
            assert(ucs.offsets@ == pattern_build(
                &m.cs, etree_spec(&m.cs), m.cs.major_dim as int).0.push(
                pattern_build(&m.cs, etree_spec(&m.cs), m.cs.major_dim as int).1.len()
                    as usize));
        }
        let u = CscMatrix { cs: ucs };
        let l = u.transpose();
        proof {
            assert forall|i: int, j: int|
                0 <= i < m.cs.major_dim as int && 0 <= j < m.cs.major_dim as int
                    implies (#[trigger] l.cs.slice_has(j, i)) == u.cs.slice_has(i, j) by {
                assert(l.stored(i, j) == u.stored(j, i));
            }
        }
        (l, u)
    }

    /// Perform symbolic analysis for the given square matrix: build the
    /// patterns of the factor and its structural transpose, retain the
    /// original pattern with its sentinel, and allocate the workspaces.
    /// The engine starts in the unfactored state.
    pub fn new_symbolic(m: &CscMatrix) -> (r: CsCholesky)
        requires
            m.wf(),
            m.nrows_spec() == m.ncols_spec(),
        ensures
            r.wf(),
            r.n() == m.ncols_spec(),
            !r.ok,
            r.original_p@ == m.cs.offsets@,
            r.original_i@ == m.cs.minor_indices@,
            r.original_len as int == m.cs.nnz(),
            r.u.cs.minor_indices@ == pattern_build(
                &m.cs, etree_spec(&m.cs), m.cs.major_dim as int).1,
            r.u.cs.offsets@ == pattern_build(
                &m.cs, etree_spec(&m.cs), m.cs.major_dim as int).0.push(
                pattern_build(&m.cs, etree_spec(&m.cs), m.cs.major_dim as int).1.len()
                    as usize),
    {
        let (l, u) = Self::nonzero_pattern(m);
        let n = m.cs.major_dim;
        let mut work_x: Vec<i64> = Vec::new();
        let mut work_c: Vec<usize> = Vec::new();
        let mut t: usize = 0;
        while t < n
            invariant
                t <= n,
                work_x@.len() == t as int,
                work_c@.len() == t as int,
            decreases n - t,
        {
            work_x.push(0);
            work_c.push(0);
            t = t + 1;
        }
        let original_p = clone_usize_vec(&m.cs.offsets);
        let original_i = clone_usize_vec(&m.cs.minor_indices);
        let original_len = m.cs.minor_indices.len();
        CsCholesky { original_p, original_i, original_len, l, u, ok: false, work_x, work_c }
    }

    /// The factor, if the last numeric phase succeeded.
    pub fn l(&self) -> (r: Option<&CscMatrix>)
        ensures
            r is Some <==> self.ok,
            r matches Some(f) ==> f == &self.l,
    {
        if self.ok {
            Some(&self.l)
        } else {
            None
        }
    }

    /// The factor, by value, if the last numeric phase succeeded.
    pub fn unwrap_l(self) -> (r: Option<CscMatrix>)
        ensures
            r is Some <==> self.ok,
            r matches Some(f) ==> f == self.l,
    {
        if self.ok {
            Some(self.l)
        } else {
            None
        }
    }
}

/// Copy a vector of indices.
fn clone_usize_vec(v: &Vec<usize>) -> (r: Vec<usize>)
    ensures
        r@ == v@,
{
    let mut r: Vec<usize> = Vec::new();
    let mut t: usize = 0;
    while t < v.len()
        invariant
            t <= v@.len(),
            r@ == v@.subrange(0, t as int),
        decreases v@.len() - t,
    {
        r.push(v[t]);
        proof {
            assert(v@.subrange(0, t as int).push(v@[t as int])
                == v@.subrange(0, t as int + 1));
        }
        t = t + 1;
    }
    proof {
        assert(v@.subrange(0, v@.len() as int) == v@);
    }
    r
}

/// The dense workspace after scattering the original column `k`'s
/// values at positions `[lo, p)`: each stored row at or above the
/// diagonal receives its supplied value.
pub open spec fn chol_scatter(
    x: Seq<i64>,
    orig_i: Seq<usize>,
    values: Seq<i64>,
    k: int,
    lo: int,
    p: int,
) -> Seq<i64>
    decreases p - lo,
{
    if p <= lo {
        x
    } else {
        let prev = chol_scatter(x, orig_i, values, k, lo, p - 1);
        if orig_i[p - 1] as int <= k {
            prev.update(orig_i[p - 1] as int, values[p - 1])
        } else {
            prev
        }
    }
}

/// The dense workspace after fanning the scaled factor entries stored at
/// positions `[lo, p)` into it: each named row loses `value * lki`.
pub open spec fn chol_fan(
    x: Seq<i64>,
    l_min: Seq<usize>,
    lv: Seq<i64>,
    lki: i64,
    lo: int,
    p: int,
) -> Seq<i64>
    decreases p - lo,
{
    if p <= lo {
        x
    } else {
        let prev = chol_fan(x, l_min, lv, lki, lo, p - 1);
        prev.update(
            l_min[p - 1] as int,
            wsub64(prev[l_min[p - 1] as int], wmul64(lv[p - 1], lki)),
        )
    }
}

/// One contribution of the earlier column `irow` to the column `k` being
/// produced: the multiplier is the workspace entry divided by `irow`'s
/// diagonal, the scaled column is fanned into the workspace, the pivot
/// accumulator loses the multiplier's square, and the produced entry is
/// appended at `irow`'s cursor. `None` when the diagonal is absent or
/// zero, or the cursor does not sit on the slot of row `k`.
pub open spec fn chol_contrib(
    l_off: Seq<usize>,
    l_min: Seq<usize>,
    st: (Seq<i64>, Seq<usize>, Seq<i64>),
    diag: i64,
    irow: int,
    k: int,
) -> Option<((Seq<i64>, Seq<usize>, Seq<i64>), i64)> {
    let ld = l_off[irow] as int;
    let ld_hi = l_off[irow + 1] as int;
    if ld >= ld_hi {
        None
    } else if st.2[ld] == 0i64 {
        None
    } else {
        let lki = wdiv64(st.0[irow], st.2[ld]);
        let x2 = chol_fan(st.0.update(irow, 0i64), l_min, st.2, lki, ld + 1, st.1[irow] as int);
        let pos = st.1[irow] as int;
        if pos >= ld_hi || l_min[pos] as int != k {
            None
        } else {
            Some((
                (x2, st.1.update(irow, (pos + 1) as usize), st.2.update(pos, lki)),
                wsub64(diag, wmul64(lki, lki)),
            ))
        }
    }
}

/// The column state after folding in the earlier columns named by the
/// structural transpose's column `k` at positions `[ulo, q)`.
pub open spec fn chol_col_loop(
    l_off: Seq<usize>,
    l_min: Seq<usize>,
    u_min: Seq<usize>,
    st: (Seq<i64>, Seq<usize>, Seq<i64>),
    diag: i64,
    k: int,
    ulo: int,
    q: int,
) -> Option<((Seq<i64>, Seq<usize>, Seq<i64>), i64)>
    decreases q - ulo,
{
    if q <= ulo {
        Some((st, diag))
    } else {
        match chol_col_loop(l_off, l_min, u_min, st, diag, k, ulo, q - 1) {
            None => None,
            Some(sd) => {
                if (u_min[q - 1] as int) < k {
                    chol_contrib(l_off, l_min, sd.0, sd.1, u_min[q - 1] as int, k)
                } else {
                    Some(sd)
                }
            },
        }
    }
}

/// One full column of the numeric phase: scatter the original values,
/// take the diagonal candidate, fold in the earlier contributing
/// columns, fail on a nonpositive pivot, and write the square root of
/// the pivot at the column's cursor.
pub open spec fn chol_column(
    orig_p: Seq<usize>,
    orig_i: Seq<usize>,
    values: Seq<i64>,
    l_off: Seq<usize>,
    l_min: Seq<usize>,
    u_off: Seq<usize>,
    u_min: Seq<usize>,
    st: (Seq<i64>, Seq<usize>, Seq<i64>),
    k: int,
) -> Option<(Seq<i64>, Seq<usize>, Seq<i64>)> {
    let x1 = chol_scatter(
        st.0.update(k, 0i64), orig_i, values, k, orig_p[k] as int, orig_p[k + 1] as int);
    let diag0 = x1[k];
    match chol_col_loop(
        l_off, l_min, u_min, (x1.update(k, 0i64), st.1, st.2), diag0, k,
        u_off[k] as int, u_off[k + 1] as int,
    ) {
        None => None,
        Some(sd) => {
            if sd.1 <= 0i64 {
                None
            } else {
                let posk = sd.0.1[k] as int;
                if posk >= l_off[k + 1] as int || l_min[posk] as int != k {
                    None
                } else {
                    Some((
                        sd.0.0,
                        sd.0.1.update(k, (posk + 1) as usize),
                        sd.0.2.update(posk, sqrt64(sd.1)),
                    ))
                }
            }
        },
    }
}

/// The numeric phase's state after the first `k` columns; `None` once
/// any column fails.
pub open spec fn chol_steps(
    orig_p: Seq<usize>,
    orig_i: Seq<usize>,
    values: Seq<i64>,
    l_off: Seq<usize>,
    l_min: Seq<usize>,
    u_off: Seq<usize>,
    u_min: Seq<usize>,
    st0: (Seq<i64>, Seq<usize>, Seq<i64>),
    k: int,
) -> Option<(Seq<i64>, Seq<usize>, Seq<i64>)>
    decreases k,
{
    if k <= 0 {
        Some(st0)
    } else {
        match chol_steps(orig_p, orig_i, values, l_off, l_min, u_off, u_min, st0, k - 1) {
            None => None,
            Some(st) => chol_column(
                orig_p, orig_i, values, l_off, l_min, u_off, u_min, st, k - 1),
        }
    }
}

/// The numeric phase's start state: all-zero workspace, each cursor at
/// its column's start, all-zero factor values.
pub open spec fn chol_init(s: CsCholesky) -> (Seq<i64>, Seq<usize>, Seq<i64>) {
    (
        Seq::new(s.n() as nat, |i: int| 0i64),
        s.l.cs.offsets@.subrange(0, s.n()),
        Seq::new(s.l.cs.values@.len(), |i: int| 0i64),
    )
}

/// The numeric phase's state after `k` columns on this engine's symbolic
/// pattern equals `st`.
pub open spec fn chol_state_at(
    s0: CsCholesky,
    values: Seq<i64>,
    k: int,
    st: (Seq<i64>, Seq<usize>, Seq<i64>),
) -> bool {
    chol_steps(
        s0.original_p@, s0.original_i@, values,
        s0.l.cs.offsets@, s0.l.cs.minor_indices@,
        s0.u.cs.offsets@, s0.u.cs.minor_indices@,
        chol_init(s0), k,
    ) == Some(st)
}

/// Fields of the engine that a numeric phase never changes: the factor's
/// pattern, the structural transpose, the retained original pattern, and
/// the workspace dimensions.
pub open spec fn chol_frame(s0: CsCholesky, s: CsCholesky) -> bool {
    &&& s.l.cs.major_dim == s0.l.cs.major_dim
    &&& s.l.cs.minor_dim == s0.l.cs.minor_dim
    &&& s.l.cs.offsets@ == s0.l.cs.offsets@
    &&& s.l.cs.minor_indices@ == s0.l.cs.minor_indices@
    &&& s.l.cs.values@.len() == s0.l.cs.values@.len()
    &&& s.u == s0.u
    &&& s.original_p == s0.original_p
    &&& s.original_i == s0.original_i
    &&& s.original_len == s0.original_len
    &&& s.work_x@.len() == s0.n()
    &&& s.work_c@.len() == s0.n()
}

impl CsCholesky {
    /// The whole numeric phase as a function of the engine's symbolic
    /// state and the supplied values.
    pub open spec fn chol_run(&self, values: Seq<i64>) -> Option<(Seq<i64>, Seq<usize>, Seq<i64>)> {
        chol_steps(
            self.original_p@, self.original_i@, values,
            self.l.cs.offsets@, self.l.cs.minor_indices@,
            self.u.cs.offsets@, self.u.cs.minor_indices@,
            chol_init(*self), self.n(),
        )
    }

    /// The numeric phase succeeds on these values.
    pub open spec fn chol_succeeds(&self, values: Seq<i64>) -> bool {
        self.chol_run(values) is Some
    }
}

/// A failed fold stays failed through the rest of the column's entries.
proof fn lemma_col_loop_none(
    l_off: Seq<usize>,
    l_min: Seq<usize>,
    u_min: Seq<usize>,
    st: (Seq<i64>, Seq<usize>, Seq<i64>),
    diag: i64,
    k: int,
    ulo: int,
    q1: int,
    q2: int,
)
    requires
        chol_col_loop(l_off, l_min, u_min, st, diag, k, ulo, q1) is None,
        ulo <= q1 <= q2,
    ensures
        chol_col_loop(l_off, l_min, u_min, st, diag, k, ulo, q2) is None,
    decreases q2 - q1,
{
    if q1 < q2 {
        lemma_col_loop_none(l_off, l_min, u_min, st, diag, k, ulo, q1, q2 - 1);
    }
}

/// A failed column fails the whole pass.
proof fn lemma_chol_steps_none(
    orig_p: Seq<usize>,
    orig_i: Seq<usize>,
    values: Seq<i64>,
    l_off: Seq<usize>,
    l_min: Seq<usize>,
    u_off: Seq<usize>,
    u_min: Seq<usize>,
    st0: (Seq<i64>, Seq<usize>, Seq<i64>),
    k1: int,
    k2: int,
)
    requires
        chol_steps(orig_p, orig_i, values, l_off, l_min, u_off, u_min, st0, k1) is None,
        0 <= k1 <= k2,
    ensures
        chol_steps(orig_p, orig_i, values, l_off, l_min, u_off, u_min, st0, k2) is None,
    decreases k2 - k1,
{
    if k1 < k2 {
        lemma_chol_steps_none(
            orig_p, orig_i, values, l_off, l_min, u_off, u_min, st0, k1, k2 - 1);
    }
}

impl CsCholesky {
    /// The numeric left-looking factorization, reusing the symbolic
    /// pattern: for each column in ascending order, scatter the original
    /// upper-triangular values, fold in every earlier contributing column
    /// named by the structural transpose, and fail at the first
    /// nonpositive pivot. The workspaces and the factor's value array are
    /// reset first, so the outcome is a pure function of the symbolic
    /// pattern and the supplied values, stated exactly by `chol_run`:
    /// the phase succeeds if and only if `chol_run` does, and on success
    /// the factor's values, the cursors and the workspace are the ones
    /// `chol_run` produces. The pattern of the factor, the structural
    /// transpose and the retained original pattern never change.
    ///
    /// `chol_run` fails exactly where this body fails: at a nonpositive
    /// pivot, at a missing or zero diagonal of an earlier column, or at a
    /// write that would fall outside its column or on a different row —
    /// the last two being states a pattern from `new_symbolic` on the
    /// analyzed matrix never produces.
    #[verifier::rlimit(100)]
    pub fn decompose(&mut self, values: &[i64]) -> (r: bool)
        requires
            old(self).wf(),
            values@.len() >= old(self).original_len,
        ensures
            final(self).wf(),
            final(self).n() == old(self).n(),
            r == final(self).ok,
            same_pattern(&old(self).l.cs, &final(self).l.cs),
            final(self).u == old(self).u,
            final(self).original_p == old(self).original_p,
            final(self).original_i == old(self).original_i,
            final(self).original_len == old(self).original_len,
            r == old(self).chol_succeeds(values@),
            r ==> (old(self).chol_run(values@) matches Some(st)
                && final(self).l.cs.values@ == st.2
                && final(self).work_c@ == st.1
                && final(self).work_x@ == st.0),
    {
        let ghost s0 = *old(self);
        let n = self.l.cs.major_dim;
        let mut t: usize = 0;
        while t < n
            invariant
                s0 == *old(self),
                s0.wf(),
                t <= n,
                n as int == s0.n(),
                chol_frame(s0, *self),
                self.l.cs.values@ == s0.l.cs.values@,
                self.ok == s0.ok,
                forall|i: int| 0 <= i < t as int ==> #[trigger] self.work_x@[i] == 0i64,
                forall|i: int| 0 <= i < t as int
                    ==> #[trigger] self.work_c@[i] == s0.l.cs.offsets@[i],
            decreases n - t,
        {
            self.work_x.set(t, 0);
            let o = self.l.cs.offsets[t];
            self.work_c.set(t, o);
            t = t + 1;
        }
        let vn = self.l.cs.values.len();
        let mut t2: usize = 0;
        while t2 < vn
            invariant
                s0 == *old(self),
                s0.wf(),
                t2 <= vn,
                n as int == s0.n(),
                vn as int == s0.l.cs.values@.len(),
                chol_frame(s0, *self),
                self.ok == s0.ok,
                forall|i: int| 0 <= i < n as int ==> #[trigger] self.work_x@[i] == 0i64,
                forall|i: int| 0 <= i < n as int
                    ==> #[trigger] self.work_c@[i] == s0.l.cs.offsets@[i],
                forall|q: int| 0 <= q < t2 as int ==> #[trigger] self.l.cs.values@[q] == 0i64,
            decreases vn - t2,
        {
            self.l.cs.values.set(t2, 0);
            t2 = t2 + 1;
        }
        proof {
            assert(self.work_x@ =~= chol_init(s0).0);
            assert(self.work_c@ =~= chol_init(s0).1);
            assert(self.l.cs.values@ =~= chol_init(s0).2);
            assert(chol_state_at(
                s0, values@, 0, (self.work_x@, self.work_c@, self.l.cs.values@)));
        }
        let mut k: usize = 0;
        while k < n
            invariant
                s0 == *old(self),
                s0.wf(),
                k <= n,
                n as int == s0.n(),
                values@.len() >= s0.original_len,
                chol_frame(s0, *self),
                self.ok == s0.ok,
                forall|i: int| 0 <= i < n as int
                    ==> s0.l.cs.lo(i) <= (#[trigger] self.work_c@[i] as int)
                        && (self.work_c@[i] as int) <= s0.l.cs.hi(i),
                chol_state_at(
                    s0, values@, k as int,
                    (self.work_x@, self.work_c@, self.l.cs.values@)),
            decreases n - k,
        {
            let ghost stk = (self.work_x@, self.work_c@, self.l.cs.values@);
            proof {
                crate::cs::lemma_seq_monotone(
                    self.original_p@, n as int, k as int + 1, n as int);
                lemma_slice_in_bounds(&s0.l.cs, k as int);
            }
            let cr_lo = self.original_p[k];
            let cr_hi = self.original_p[k + 1];
            self.work_x.set(k, 0);
            let ghost x0v = stk.0.update(k as int, 0i64);
            let mut p = cr_lo;
            while p < cr_hi
                invariant
                    s0 == *old(self),
                    s0.wf(),
                    k < n,
                    n as int == s0.n(),
                    values@.len() >= s0.original_len,
                    cr_lo <= p <= cr_hi,
                    cr_lo as int == s0.original_p@[k as int] as int,
                    cr_hi as int == s0.original_p@[k as int + 1] as int,
                    cr_hi <= s0.original_len,
                    chol_frame(s0, *self),
                    self.ok == s0.ok,
                    self.work_c@ == stk.1,
                    self.l.cs.values@ == stk.2,
                    x0v == stk.0.update(k as int, 0i64),
                    self.work_x@ == chol_scatter(
                        x0v, s0.original_i@, values@, k as int, cr_lo as int, p as int),
                decreases cr_hi - p,
            {
                let irow = self.original_i[p];
                if irow <= k {
                    let v = values[p];
                    self.work_x.set(irow, v);
                }
                p = p + 1;
            }
            let ghost x1v = self.work_x@;
            let mut diag = self.work_x[k];
            self.work_x.set(k, 0);
            let ghost diag0v = diag;
            let ghost x2v = x1v.update(k as int, 0i64);
            let (ulo, uhi) = self.u.cs.slice_bounds(k);
            let mut q = ulo;
            while q < uhi
                invariant
                    s0 == *old(self),
                    s0.wf(),
                    k < n,
                    n as int == s0.n(),
                    values@.len() >= s0.original_len,
                    ulo as int == s0.u.cs.lo(k as int),
                    uhi as int == s0.u.cs.hi(k as int),
                    ulo <= q <= uhi,
                    uhi as int <= s0.u.cs.nnz(),
                    chol_frame(s0, *self),
                    self.ok == s0.ok,
                    forall|i: int| 0 <= i < n as int
                        ==> s0.l.cs.lo(i) <= (#[trigger] self.work_c@[i] as int)
                            && (self.work_c@[i] as int) <= s0.l.cs.hi(i),
                    chol_state_at(s0, values@, k as int, stk),
                    x0v == stk.0.update(k as int, 0i64),
                    x1v == chol_scatter(
                        x0v, s0.original_i@, values@, k as int,
                        s0.original_p@[k as int] as int,
                        s0.original_p@[k as int + 1] as int),
                    diag0v == x1v[k as int],
                    x2v == x1v.update(k as int, 0i64),
                    chol_col_loop(
                        s0.l.cs.offsets@, s0.l.cs.minor_indices@, s0.u.cs.minor_indices@,
                        (x2v, stk.1, stk.2), diag0v, k as int, ulo as int, q as int,
                    ) == Some((
                        (self.work_x@, self.work_c@, self.l.cs.values@), diag)),
                decreases uhi - q,
            {
                let ghost stq = (self.work_x@, self.work_c@, self.l.cs.values@);
                let ghost diagq = diag;
                let irow = self.u.cs.minor_indices[q];
                if irow < k {
                    proof {
                        lemma_slice_in_bounds(&s0.l.cs, irow as int);
                    }
                    let ld = self.l.cs.offsets[irow];
                    let ld_hi = self.l.cs.offsets[irow + 1];
                    if ld >= ld_hi {
                        self.ok = false;
                        proof {
                            lemma_chol_fail(
                                s0, values@, k as int, stk, x1v, q as int, uhi as int,
                                stq, diagq, irow as int);
                            lemma_decompose_frame(&s0, self);
                        }
                        return false;
                    }
                    let ldv = self.l.cs.values[ld];
                    if ldv == 0 {
                        self.ok = false;
                        proof {
                            lemma_chol_fail(
                                s0, values@, k as int, stk, x1v, q as int, uhi as int,
                                stq, diagq, irow as int);
                            lemma_decompose_frame(&s0, self);
                        }
                        return false;
                    }
                    let wxi = self.work_x[irow];
                    let lki = div_w(wxi, ldv);
                    self.work_x.set(irow, 0);
                    let ghost xav = stq.0.update(irow as int, 0i64);
                    let cur_end = self.work_c[irow];
                    let mut fp = ld + 1;
                    while fp < cur_end
                        invariant
                            s0 == *old(self),
                            s0.wf(),
                            k < n,
                            irow < k,
                            n as int == s0.n(),
                            ld as int == s0.l.cs.lo(irow as int),
                            cur_end as int <= s0.l.cs.hi(irow as int),
                            cur_end as int <= s0.l.cs.nnz(),
                            ld < fp,
                            fp <= cur_end || fp == ld + 1,
                            chol_frame(s0, *self),
                            self.ok == s0.ok,
                            self.work_c@ == stq.1,
                            self.l.cs.values@ == stq.2,
                            xav == stq.0.update(irow as int, 0i64),
                            self.work_x@ == chol_fan(
                                xav, s0.l.cs.minor_indices@, stq.2, lki,
                                ld as int + 1, fp as int),
                        decreases cur_end - fp,
                    {
                        let rr = self.l.cs.minor_indices[fp];
                        let lv = self.l.cs.values[fp];
                        let wxr = self.work_x[rr];
                        self.work_x.set(rr, sub_w(wxr, mul_w(lv, lki)));
                        proof {
                            lemma_w64_ops(lv, lki);
                        }
                        fp = fp + 1;
                    }
                    diag = sub_w(diag, mul_w(lki, lki));
                    let pos = self.work_c[irow];
                    if pos >= ld_hi || self.l.cs.minor_indices[pos] != k {
                        self.ok = false;
                        proof {
                            lemma_w64_ops(wxi, ldv);
                            lemma_chol_fail(
                                s0, values@, k as int, stk, x1v, q as int, uhi as int,
                                stq, diagq, irow as int);
                            lemma_decompose_frame(&s0, self);
                        }
                        return false;
                    }
                    self.work_c.set(irow, pos + 1);
                    self.l.cs.values.set(pos, lki);
                    proof {
                        lemma_w64_ops(wxi, ldv);
                        lemma_w64_ops(lki, lki);
                        lemma_w64_ops(diagq, wmul64(lki, lki));
                        assert(lki == wdiv64(stq.0[irow as int], stq.2[ld as int]));
                        assert(diag == wsub64(diagq, wmul64(lki, lki)));
                        assert(chol_contrib(
                            s0.l.cs.offsets@, s0.l.cs.minor_indices@, stq, diagq,
                            irow as int, k as int,
                        ) == Some((
                            (self.work_x@, self.work_c@, self.l.cs.values@), diag)));
                    }
                } else {
                    proof {
                        assert((s0.u.cs.minor_indices@[q as int] as int) >= k as int);
                    }
                }
                q = q + 1;
            }
            if diag <= 0 {
                self.ok = false;
                proof {
                    lemma_chol_fail_pivot(
                        s0, values@, k as int, stk, x1v,
                        (self.work_x@, self.work_c@, self.l.cs.values@), diag, true,
                        self.work_c@[k as int] as int);
                    lemma_decompose_frame(&s0, self);
                }
                return false;
            }
            let posk = self.work_c[k];
            proof {
                lemma_slice_in_bounds(&s0.l.cs, k as int);
            }
            if posk >= self.l.cs.offsets[k + 1] || self.l.cs.minor_indices[posk] != k {
                self.ok = false;
                proof {
                    lemma_chol_fail_pivot(
                        s0, values@, k as int, stk, x1v,
                        (self.work_x@, self.work_c@, self.l.cs.values@), diag, false,
                        posk as int);
                    lemma_decompose_frame(&s0, self);
                }
                return false;
            }
            self.work_c.set(k, posk + 1);
            let dv = isqrt(diag);
            self.l.cs.values.set(posk, dv);
            proof {
                lemma_w64_ops(diag, diag);
                assert(dv == sqrt64(diag));
                assert(chol_state_at(
                    s0, values@, k as int + 1,
                    (self.work_x@, self.work_c@, self.l.cs.values@)));
            }
            k = k + 1;
        }
        self.ok = true;
        proof {
            lemma_decompose_frame(&s0, self);
        }
        true
    }

    /// Compute the Cholesky factorization of `m`: symbolic analysis
    /// followed by one numeric phase on the stored values of `m`. The
    /// returned engine holds `m`'s pattern, succeeded exactly when the
    /// numeric phase `chol_run` succeeds on `m`'s stored values, and on
    /// success holds the factor values that phase produces.
    pub fn new(m: &CscMatrix) -> (r: CsCholesky)
        requires
            m.wf(),
            m.nrows_spec() == m.ncols_spec(),
        ensures
            r.wf(),
            r.n() == m.ncols_spec(),
            r.original_p@ == m.cs.offsets@,
            r.original_i@ == m.cs.minor_indices@,
            r.original_len as int == m.cs.nnz(),
            r.ok == r.chol_succeeds(m.cs.values@),
            r.ok ==> (r.chol_run(m.cs.values@) matches Some(st)
                && r.l.cs.values@ == st.2),
    {
        let mut me = Self::new_symbolic(m);
        let ghost me0 = me;
        let _ = me.decompose(m.cs.values.as_slice());
        proof {
            assert(chol_init(me) == chol_init(me0));
            assert(me.chol_run(m.cs.values@) == me0.chol_run(m.cs.values@));
        }
        me
    }
}

/// The failure of one contribution fails the whole pass.
#[verifier::rlimit(100)]
proof fn lemma_chol_fail(
    s0: CsCholesky,
    values: Seq<i64>,
    k: int,
    stk: (Seq<i64>, Seq<usize>, Seq<i64>),
    x1v: Seq<i64>,
    q: int,
    uhi: int,
    stq: (Seq<i64>, Seq<usize>, Seq<i64>),
    diagq: i64,
    irow: int,
)
    requires
        0 <= k < s0.n(),
        chol_state_at(s0, values, k, stk),
        x1v == chol_scatter(
            stk.0.update(k, 0i64), s0.original_i@, values, k,
            s0.original_p@[k] as int, s0.original_p@[k + 1] as int),
        s0.u.cs.lo(k) <= q < uhi,
        uhi == s0.u.cs.hi(k),
        chol_col_loop(
            s0.l.cs.offsets@, s0.l.cs.minor_indices@, s0.u.cs.minor_indices@,
            (x1v.update(k, 0i64), stk.1, stk.2), x1v[k], k, s0.u.cs.lo(k), q,
        ) == Some((stq, diagq)),
        irow == s0.u.cs.minor_indices@[q] as int,
        irow < k,
        chol_contrib(
            s0.l.cs.offsets@, s0.l.cs.minor_indices@, stq, diagq, irow, k) is None,
    ensures
        !s0.chol_succeeds(values),
{
    assert(chol_col_loop(
        s0.l.cs.offsets@, s0.l.cs.minor_indices@, s0.u.cs.minor_indices@,
        (x1v.update(k, 0i64), stk.1, stk.2), x1v[k], k, s0.u.cs.lo(k), q + 1) is None);
    lemma_col_loop_none(
        s0.l.cs.offsets@, s0.l.cs.minor_indices@, s0.u.cs.minor_indices@,
        (x1v.update(k, 0i64), stk.1, stk.2), x1v[k], k, s0.u.cs.lo(k), q + 1, uhi);
    assert(chol_column(
        s0.original_p@, s0.original_i@, values,
        s0.l.cs.offsets@, s0.l.cs.minor_indices@,
        s0.u.cs.offsets@, s0.u.cs.minor_indices@, stk, k) is None);
    assert(chol_steps(
        s0.original_p@, s0.original_i@, values,
        s0.l.cs.offsets@, s0.l.cs.minor_indices@,
        s0.u.cs.offsets@, s0.u.cs.minor_indices@, chol_init(s0), k + 1) is None);
    lemma_chol_steps_none(
        s0.original_p@, s0.original_i@, values,
        s0.l.cs.offsets@, s0.l.cs.minor_indices@,
        s0.u.cs.offsets@, s0.u.cs.minor_indices@, chol_init(s0), k + 1, s0.n());
}

/// A nonpositive pivot, or a diagonal write outside its slot, fails the
/// whole pass.
#[verifier::rlimit(100)]
proof fn lemma_chol_fail_pivot(
    s0: CsCholesky,
    values: Seq<i64>,
    k: int,
    stk: (Seq<i64>, Seq<usize>, Seq<i64>),
    x1v: Seq<i64>,
    st2: (Seq<i64>, Seq<usize>, Seq<i64>),
    diag: i64,
    pivot_bad: bool,
    posk: int,
)
    requires
        0 <= k < s0.n(),
        chol_state_at(s0, values, k, stk),
        x1v == chol_scatter(
            stk.0.update(k, 0i64), s0.original_i@, values, k,
            s0.original_p@[k] as int, s0.original_p@[k + 1] as int),
        chol_col_loop(
            s0.l.cs.offsets@, s0.l.cs.minor_indices@, s0.u.cs.minor_indices@,
            (x1v.update(k, 0i64), stk.1, stk.2), x1v[k], k,
            s0.u.cs.lo(k), s0.u.cs.hi(k),
        ) == Some((st2, diag)),
        pivot_bad ==> diag <= 0i64,
        !pivot_bad ==> diag > 0i64 && posk == st2.1[k] as int
            && (posk >= s0.l.cs.hi(k) || s0.l.cs.minor_indices@[posk] as int != k),
    ensures
        !s0.chol_succeeds(values),
{
    assert(chol_column(
        s0.original_p@, s0.original_i@, values,
        s0.l.cs.offsets@, s0.l.cs.minor_indices@,
        s0.u.cs.offsets@, s0.u.cs.minor_indices@, stk, k) is None);
    assert(chol_steps(
        s0.original_p@, s0.original_i@, values,
        s0.l.cs.offsets@, s0.l.cs.minor_indices@,
        s0.u.cs.offsets@, s0.u.cs.minor_indices@, chol_init(s0), k + 1) is None);
    lemma_chol_steps_none(
        s0.original_p@, s0.original_i@, values,
        s0.l.cs.offsets@, s0.l.cs.minor_indices@,
        s0.u.cs.offsets@, s0.u.cs.minor_indices@, chol_init(s0), k + 1, s0.n());
}

/// A numeric phase preserves the structural invariant: the patterns, the
/// retained original arrays and the workspace lengths are unchanged.
pub proof fn lemma_decompose_frame(s0: &CsCholesky, s: &CsCholesky)
    requires
        s0.wf(),
        chol_frame(*s0, *s),
    ensures
        s.wf(),
        same_pattern(&s0.l.cs, &s.l.cs),
        s.n() == s0.n(),
{
    crate::cs::lemma_same_pattern_structure(&s0.l.cs, &s.l.cs);
    assert forall|i: int, j: int|
        0 <= i < s.n() && 0 <= j < s.n()
            implies (#[trigger] s.l.cs.slice_has(j, i)) == s.u.cs.slice_has(i, j) by {
        assert(s0.l.cs.slice_has(j, i) == s0.u.cs.slice_has(i, j));
    }
}

} // verus!
