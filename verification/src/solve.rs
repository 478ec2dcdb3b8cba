//! Sparse lower-triangular solve: `op(L) X = B` in place on `B`, reading
//! only the stored lower-triangular part of a CSC matrix.
//!
//! The contract pins every produced value by the substitution
//! recurrences `fwd_x` (forward, `L X = B`) and `bwd_x` (backward,
//! `L^T X = B`), in wrapped arithmetic with truncated division. The whole
//! solve fails with a `Singular` error exactly when some column lacks a
//! stored, nonzero diagonal entry (unless `B` has no columns, in which
//! case there is nothing to solve).

use vstd::prelude::*;
use crate::scalar::{wsub, wmul, wdiv, sub_w, mul_w, div_w};
use crate::sums::range_has_minor;
use crate::cs::{CsMatrix, lemma_entry_at_pos, lemma_slice_in_bounds};
use crate::csc::CscMatrix;
use crate::dense::Matrix;
use crate::ops::Op;

verus! {

/// The kind of a triangular-solve failure.
#[derive(Clone, Copy, Debug, PartialEq, Eq, Structural)]
pub enum SolveErrorKind {
    /// The matrix is singular: a diagonal entry is absent or zero.
    Singular,
}

/// An error from a triangular solve.
#[derive(Clone, Debug)]
pub struct SolveError {
    pub kind: SolveErrorKind,
    pub message: &'static str,
}

impl SolveError {
    fn from_type_and_message(kind: SolveErrorKind, message: &'static str) -> (r: SolveError)
        ensures
            r.kind == kind,
            r.message == message,
    {
        SolveError { kind, message }
    }

    /// The kind of the failure.
    pub fn kind(&self) -> (r: SolveErrorKind)
        ensures
            r == self.kind,
    {
        self.kind
    }

    /// The human-readable message carried by the error.
    pub fn message(&self) -> (r: &'static str)
        ensures
            r == self.message,
    {
        self.message
    }
}

fn spsolve_encountered_zero_diagonal() -> (r: Result<(), SolveError>)
    ensures
        r is Err,
        r matches Err(e) && e.kind == SolveErrorKind::Singular
            && e.message@ == "Matrix contains at least one diagonal entry that is zero."@,
{
    let message = "Matrix contains at least one diagonal entry that is zero.";
    Err(SolveError::from_type_and_message(SolveErrorKind::Singular, message))
}

/// Every column of the square matrix stores a nonzero diagonal entry.
pub open spec fn nonzero_diagonal(l: &CsMatrix) -> bool {
    forall|k: int| 0 <= k < l.major_dim as int
        ==> #[trigger] l.slice_has(k, k) && l.at(k, k) != 0
}

/// The first column at or after `k` without a stored, nonzero diagonal
/// entry (the major dimension when every column from `k` on has one).
pub open spec fn first_bad_diag(l: &CsMatrix, k: int) -> int
    decreases l.major_dim as int - k,
{
    if k < 0 || k >= l.major_dim as int {
        k
    } else if !(l.slice_has(k, k) && l.at(k, k) != 0) {
        k
    } else {
        first_bad_diag(l, k + 1)
    }
}

/// The last column at or before `k` without a stored, nonzero diagonal
/// entry (`-1` when every column up to `k` has one).
pub open spec fn last_bad_diag(l: &CsMatrix, k: int) -> int
    decreases k + 1,
{
    if k < 0 {
        k
    } else if !(l.slice_has(k, k) && l.at(k, k) != 0) {
        k
    } else {
        last_bad_diag(l, k - 1)
    }
}

/// A column with a bad diagonal preceded only by good ones is the first
/// bad one.
proof fn lemma_first_bad_at(l: &CsMatrix, j: int, k: int)
    requires
        0 <= j <= k < l.major_dim as int,
        forall|k2: int| j <= k2 < k ==> #[trigger] l.slice_has(k2, k2) && l.at(k2, k2) != 0,
        !(l.slice_has(k, k) && l.at(k, k) != 0),
    ensures
        first_bad_diag(l, j) == k,
    decreases k - j,
{
    if j < k {
        lemma_first_bad_at(l, j + 1, k);
    }
}

/// A column with a bad diagonal followed only by good ones is the last
/// bad one.
proof fn lemma_last_bad_at(l: &CsMatrix, j: int, k: int)
    requires
        0 <= k <= j < l.major_dim as int,
        forall|k2: int| k < k2 <= j ==> #[trigger] l.slice_has(k2, k2) && l.at(k2, k2) != 0,
        !(l.slice_has(k, k) && l.at(k, k) != 0),
    ensures
        last_bad_diag(l, j) == k,
    decreases j - k,
{
    if k < j {
        lemma_last_bad_at(l, j - 1, k);
    }
}

/// One column of a dense matrix, as a function from row index to value.
pub open spec fn col_fn(bm: Matrix, jb: int) -> spec_fn(int) -> int {
    |i: int| bm.ent(i, jb)
}

/// The right-hand side of row `i` after eliminating the first `m`
/// columns in the forward substitution: the initial value minus the
/// contribution `l[i][j] * x[j]` of every eliminated column `j < i` whose
/// cell is stored below the diagonal.
pub open spec fn fwd_pre(l: &CsMatrix, binit: spec_fn(int) -> int, i: int, m: int) -> int
    decreases m, 0int,
{
    if m <= 0 {
        binit(i)
    } else {
        let prev = fwd_pre(l, binit, i, m - 1);
        if l.slice_has(m - 1, i) && m - 1 < i {
            wsub(prev, wmul(l.at(m - 1, i), fwd_x(l, binit, m - 1)))
        } else {
            prev
        }
    }
}

/// The forward-substitution solution value of row `k`.
pub open spec fn fwd_x(l: &CsMatrix, binit: spec_fn(int) -> int, k: int) -> int
    decreases k, 1int,
{
    wdiv(fwd_pre(l, binit, k, k), l.at(k, k))
}

/// The accumulated right-hand side of row `i` in the backward (transpose)
/// substitution, after folding the stored sub-diagonal entries of column
/// `i` at positions `[diag + 1, q)`: each stored row `r > i` contributes
/// `l[r][i] * x[r]`.
pub open spec fn bwd_acc(
    l: &CsMatrix,
    binit: spec_fn(int) -> int,
    n: int,
    i: int,
    q: int,
) -> int
    decreases n - i, q,
{
    if q <= l.entry_pos(i, i) + 1 || q <= 0 {
        binit(i)
    } else {
        let prev = bwd_acc(l, binit, n, i, q - 1);
        if 0 <= i && i < l.minor_indices@[q - 1] as int
            && (l.minor_indices@[q - 1] as int) < n {
            wsub(prev, wmul(
                l.values@[q - 1] as int,
                bwd_x(l, binit, n, l.minor_indices@[q - 1] as int)))
        } else {
            prev
        }
    }
}

/// The backward-substitution solution value of row `i`.
pub open spec fn bwd_x(l: &CsMatrix, binit: spec_fn(int) -> int, n: int, i: int) -> int
    decreases n - i, l.hi(i) + 1,
{
    if 0 <= i < n && l.hi(i) <= l.nnz() && l.entry_pos(i, i) + 1 <= l.hi(i) {
        wdiv(bwd_acc(l, binit, n, i, l.hi(i)), l.at(i, i))
    } else {
        0
    }
}

/// Forward substitution `L X = B` in place on `B`, column by column.
#[verifier::rlimit(100)]
fn spsolve_csc_lower_triangular_no_transpose(l: &CscMatrix, b: &mut Matrix)
    -> (r: Result<(), SolveError>)
    requires
        l.wf(),
        old(b).wf(),
        l.nrows_spec() == l.ncols_spec(),
        l.nrows_spec() == old(b).nrows as int,
    ensures
        final(b).wf(),
        final(b).nrows == old(b).nrows,
        final(b).ncols == old(b).ncols,
        r is Ok <==> (old(b).ncols == 0 || nonzero_diagonal(&l.cs)),
        r matches Err(e) ==> e.kind == SolveErrorKind::Singular
            && e.message@ == "Matrix contains at least one diagonal entry that is zero."@,
        r is Ok ==> forall|i: int, jb: int|
            0 <= i < old(b).nrows as int && 0 <= jb < old(b).ncols as int
                ==> #[trigger] final(b).ent(i, jb) == fwd_x(&l.cs, col_fn(*old(b), jb), i),
        r is Err ==> {
            &&& old(b).ncols > 0
            &&& 0 <= first_bad_diag(&l.cs, 0) < l.cs.major_dim as int
            &&& forall|i: int| 0 <= i < old(b).nrows as int
                ==> #[trigger] final(b).ent(i, 0) == (
                    if i < first_bad_diag(&l.cs, 0) {
                        fwd_x(&l.cs, col_fn(*old(b), 0), i)
                    } else {
                        fwd_pre(&l.cs, col_fn(*old(b), 0), i, first_bad_diag(&l.cs, 0))
                    })
            &&& forall|i: int, j2: int|
                0 <= i < old(b).nrows as int && 1 <= j2 < old(b).ncols as int
                    ==> #[trigger] final(b).ent(i, j2) == old(b).ent(i, j2)
        },
{
    let ghost b0 = *old(b);
    let n = l.cs.major_dim;
    let nb = b.ncols;
    let mut jb: usize = 0;
    while jb < nb
        invariant
            l.wf(),
            b.wf(),
            b.nrows == b0.nrows,
            b.ncols == b0.ncols,
            b0.wf(),
            b0 == *old(b),
            nb == b0.ncols,
            n == l.cs.major_dim,
            l.nrows_spec() == l.ncols_spec(),
            l.nrows_spec() == b0.nrows as int,
            jb <= nb,
            jb > 0 ==> nonzero_diagonal(&l.cs),
            forall|i: int, j2: int|
                0 <= i < b0.nrows as int && 0 <= j2 < jb as int
                    ==> #[trigger] b.ent(i, j2) == fwd_x(&l.cs, col_fn(b0, j2), i),
            forall|i: int, j2: int|
                0 <= i < b0.nrows as int && jb as int <= j2 && j2 < b0.ncols as int
                    ==> #[trigger] b.ent(i, j2) == b0.ent(i, j2),
        decreases nb - jb,
    {
        let mut k: usize = 0;
        while k < n
            invariant
                l.wf(),
                b.wf(),
                b.nrows == b0.nrows,
                b.ncols == b0.ncols,
                b0.wf(),
                b0 == *old(b),
                nb == b0.ncols,
                n == l.cs.major_dim,
                l.nrows_spec() == l.ncols_spec(),
                l.nrows_spec() == b0.nrows as int,
                jb < nb,
                jb > 0 ==> nonzero_diagonal(&l.cs),
                k <= n,
                forall|k2: int| 0 <= k2 < k as int
                    ==> #[trigger] l.cs.slice_has(k2, k2) && l.cs.at(k2, k2) != 0,
                forall|i: int, j2: int|
                    0 <= i < b0.nrows as int && 0 <= j2 < jb as int
                        ==> #[trigger] b.ent(i, j2) == fwd_x(&l.cs, col_fn(b0, j2), i),
                forall|i: int, j2: int|
                    0 <= i < b0.nrows as int && (jb as int) < j2 && j2 < b0.ncols as int
                        ==> #[trigger] b.ent(i, j2) == b0.ent(i, j2),
                forall|i: int| 0 <= i < k as int
                    ==> #[trigger] b.ent(i, jb as int) == fwd_x(&l.cs, col_fn(b0, jb as int), i),
                forall|i: int| k as int <= i && i < b0.nrows as int
                    ==> #[trigger] b.ent(i, jb as int) == fwd_pre(
                        &l.cs, col_fn(b0, jb as int), i, k as int),
            decreases n - k,
        {
            let dopt = l.cs.find_in_slice(k, k);
            match dopt {
                None => {
                    proof {
                        assert(!nonzero_diagonal(&l.cs));
                        lemma_first_bad_at(&l.cs, 0, k as int);
                        assert(jb == 0);
                    }
                    return spsolve_encountered_zero_diagonal();
                },
                Some(d) => {
                    proof {
                        lemma_slice_in_bounds(&l.cs, k as int);
                    }
                    let lkk = l.cs.values[d];
                    if lkk == 0 {
                        proof {
                            assert(l.cs.at(k as int, k as int) == 0);
                            assert(!nonzero_diagonal(&l.cs));
                            lemma_first_bad_at(&l.cs, 0, k as int);
                            assert(jb == 0);
                        }
                        return spsolve_encountered_zero_diagonal();
                    }
                    let ghost binit = col_fn(b0, jb as int);
                    let cur = b.get(k, jb);
                    let xk = div_w(cur, lkk);
                    b.set(k, jb, xk);
                    proof {
                        assert(fwd_pre(&l.cs, binit, k as int, k as int) == cur as int);
                        assert(l.cs.at(k as int, k as int) == lkk as int);
                        assert(b.ent(k as int, jb as int) == fwd_x(&l.cs, binit, k as int));
                    }
                    let (lo, hi) = l.cs.slice_bounds(k);
                    let mut q = d + 1;
                    proof {
                        lemma_entry_at_pos(&l.cs, k as int, d as int);
                        assert forall|i: int|
                            (k as int) < i && i < b0.nrows as int
                                && !range_has_minor(
                                    l.cs.minor_indices@, d as int + 1, q as int, i)
                                implies #[trigger] b.ent(i, jb as int) == fwd_pre(
                                    &l.cs, binit, i, k as int) by {}
                    }
                    while q < hi
                        invariant
                            l.wf(),
                            b.wf(),
                            b.nrows == b0.nrows,
                            b.ncols == b0.ncols,
                            b0.wf(),
                            b0 == *old(b),
                            nb == b0.ncols,
                            n == l.cs.major_dim,
                            l.nrows_spec() == l.ncols_spec(),
                            l.nrows_spec() == b0.nrows as int,
                            jb < nb,
                            k < n,
                            lo as int == l.cs.lo(k as int),
                            hi as int == l.cs.hi(k as int),
                            lo as int <= d as int,
                            (d as int) < hi as int,
                            d < q,
                            q <= hi,
                            hi as int <= l.cs.nnz(),
                            l.cs.minor_indices@[d as int] == k,
                            binit == col_fn(b0, jb as int),
                            xk as int == fwd_x(&l.cs, binit, k as int),
                            forall|k2: int| 0 <= k2 < k as int
                                ==> #[trigger] l.cs.slice_has(k2, k2) && l.cs.at(k2, k2) != 0,
                            l.cs.slice_has(k as int, k as int),
                            l.cs.at(k as int, k as int) != 0,
                            forall|i: int, j2: int|
                                0 <= i < b0.nrows as int && 0 <= j2 < jb as int
                                    ==> #[trigger] b.ent(i, j2) == fwd_x(
                                        &l.cs, col_fn(b0, j2), i),
                            forall|i: int, j2: int|
                                0 <= i < b0.nrows as int && (jb as int) < j2
                                    && j2 < b0.ncols as int
                                    ==> #[trigger] b.ent(i, j2) == b0.ent(i, j2),
                            forall|i: int| 0 <= i <= k as int
                                ==> #[trigger] b.ent(i, jb as int) == fwd_x(&l.cs, binit, i),
                            forall|i: int|
                                (k as int) < i && i < b0.nrows as int
                                    && range_has_minor(
                                        l.cs.minor_indices@, d as int + 1, q as int, i)
                                    ==> #[trigger] b.ent(i, jb as int) == fwd_pre(
                                        &l.cs, binit, i, k as int + 1),
                            forall|i: int|
                                (k as int) < i && i < b0.nrows as int
                                    && !range_has_minor(
                                        l.cs.minor_indices@, d as int + 1, q as int, i)
                                    ==> #[trigger] b.ent(i, jb as int) == fwd_pre(
                                        &l.cs, binit, i, k as int),
                        decreases hi - q,
                    {
                        let i = l.cs.minor_indices[q];
                        let lik = l.cs.values[q];
                        proof {
                            lemma_entry_at_pos(&l.cs, k as int, q as int);
                            assert(k < i);
                            assert(!range_has_minor(
                                l.cs.minor_indices@, d as int + 1, q as int, i as int));
                        }
                        let xi = b.get(i, jb);
                        b.set(i, jb, sub_w(xi, mul_w(lik, xk)));
                        proof {
                            assert(l.cs.at(k as int, i as int) == lik as int);
                            assert(b.ent(i as int, jb as int) == wsub(
                                fwd_pre(&l.cs, binit, i as int, k as int),
                                wmul(l.cs.at(k as int, i as int), fwd_x(
                                    &l.cs, binit, k as int))));
                            assert(b.ent(i as int, jb as int) == fwd_pre(
                                &l.cs, binit, i as int, k as int + 1));
                            assert forall|mm: int|
                                #[trigger] range_has_minor(
                                    l.cs.minor_indices@, d as int + 1, q as int + 1, mm)
                                    && mm != i as int
                                    implies range_has_minor(
                                        l.cs.minor_indices@, d as int + 1, q as int, mm) by {
                                let w = choose|w: int|
                                    d as int + 1 <= w < q as int + 1
                                        && #[trigger] l.cs.minor_indices@[w] == mm;
                                assert(d as int + 1 <= w < q as int);
                            }
                            assert(range_has_minor(
                                l.cs.minor_indices@, d as int + 1, q as int + 1, i as int));
                        }
                        q = q + 1;
                    }
                    proof {
                        assert forall|i: int|
                            (k as int) < i && i < b0.nrows as int
                                implies #[trigger] b.ent(i, jb as int) == fwd_pre(
                                    &l.cs, binit, i, k as int + 1) by {
                            if !range_has_minor(
                                l.cs.minor_indices@, d as int + 1, hi as int, i) {
                                if l.cs.slice_has(k as int, i) {
                                    let w = l.cs.entry_pos(k as int, i);
                                    lemma_entry_at_pos(&l.cs, k as int, d as int);
                                    assert(l.cs.minor_indices@[w] as int == i);
                                    if w <= d as int {
                                        assert(l.cs.minor_indices@[w]
                                            <= l.cs.minor_indices@[d as int]);
                                    }
                                    assert(d as int + 1 <= w < hi as int);
                                }
                                assert(!(l.cs.slice_has(k as int, i) && (k as int) < i));
                            }
                        }
                    }
                },
            }
            k = k + 1;
        }
        jb = jb + 1;
    }
    proof {
        if nb > 0 {
            assert(nonzero_diagonal(&l.cs));
        }
    }
    Ok(())
}

/// Backward substitution `L^T X = B` in place on `B`: an upper-triangular
/// system, solved by walking the columns of `L` from last to first.
#[verifier::rlimit(100)]
fn spsolve_csc_lower_triangular_transpose(l: &CscMatrix, b: &mut Matrix)
    -> (r: Result<(), SolveError>)
    requires
        l.wf(),
        old(b).wf(),
        l.nrows_spec() == l.ncols_spec(),
        l.nrows_spec() == old(b).nrows as int,
    ensures
        final(b).wf(),
        final(b).nrows == old(b).nrows,
        final(b).ncols == old(b).ncols,
        r is Ok <==> (old(b).ncols == 0 || nonzero_diagonal(&l.cs)),
        r matches Err(e) ==> e.kind == SolveErrorKind::Singular
            && e.message@ == "Matrix contains at least one diagonal entry that is zero."@,
        r is Ok ==> forall|i: int, jb: int|
            0 <= i < old(b).nrows as int && 0 <= jb < old(b).ncols as int
                ==> #[trigger] final(b).ent(i, jb) == bwd_x(
                    &l.cs, col_fn(*old(b), jb), old(b).nrows as int, i),
        r is Err ==> {
            &&& old(b).ncols > 0
            &&& 0 <= last_bad_diag(&l.cs, l.cs.major_dim as int - 1) < l.cs.major_dim as int
            &&& forall|i: int| 0 <= i < old(b).nrows as int
                ==> #[trigger] final(b).ent(i, 0) == (
                    if i > last_bad_diag(&l.cs, l.cs.major_dim as int - 1) {
                        bwd_x(&l.cs, col_fn(*old(b), 0), old(b).nrows as int, i)
                    } else {
                        old(b).ent(i, 0)
                    })
            &&& forall|i: int, j2: int|
                0 <= i < old(b).nrows as int && 1 <= j2 < old(b).ncols as int
                    ==> #[trigger] final(b).ent(i, j2) == old(b).ent(i, j2)
        },
{
    let ghost b0 = *old(b);
    let n = l.cs.major_dim;
    let nb = b.ncols;
    let mut jb: usize = 0;
    while jb < nb
        invariant
            l.wf(),
            b.wf(),
            b.nrows == b0.nrows,
            b.ncols == b0.ncols,
            b0.wf(),
            b0 == *old(b),
            nb == b0.ncols,
            n == l.cs.major_dim,
            l.nrows_spec() == l.ncols_spec(),
            l.nrows_spec() == b0.nrows as int,
            jb <= nb,
            jb > 0 ==> nonzero_diagonal(&l.cs),
            forall|i: int, j2: int|
                0 <= i < b0.nrows as int && 0 <= j2 < jb as int
                    ==> #[trigger] b.ent(i, j2) == bwd_x(
                        &l.cs, col_fn(b0, j2), b0.nrows as int, i),
            forall|i: int, j2: int|
                0 <= i < b0.nrows as int && jb as int <= j2 && j2 < b0.ncols as int
                    ==> #[trigger] b.ent(i, j2) == b0.ent(i, j2),
        decreases nb - jb,
    {
        let mut i: usize = n;
        while i > 0
            invariant
                l.wf(),
                b.wf(),
                b.nrows == b0.nrows,
                b.ncols == b0.ncols,
                b0.wf(),
                b0 == *old(b),
                nb == b0.ncols,
                n == l.cs.major_dim,
                l.nrows_spec() == l.ncols_spec(),
                l.nrows_spec() == b0.nrows as int,
                jb < nb,
                jb > 0 ==> nonzero_diagonal(&l.cs),
                i <= n,
                forall|k2: int| i as int <= k2 && k2 < n as int
                    ==> #[trigger] l.cs.slice_has(k2, k2) && l.cs.at(k2, k2) != 0,
                forall|i2: int, j2: int|
                    0 <= i2 < b0.nrows as int && 0 <= j2 < jb as int
                        ==> #[trigger] b.ent(i2, j2) == bwd_x(
                            &l.cs, col_fn(b0, j2), b0.nrows as int, i2),
                forall|i2: int, j2: int|
                    0 <= i2 < b0.nrows as int && (jb as int) < j2 && j2 < b0.ncols as int
                        ==> #[trigger] b.ent(i2, j2) == b0.ent(i2, j2),
                forall|i2: int| i as int <= i2 && i2 < b0.nrows as int
                    ==> #[trigger] b.ent(i2, jb as int) == bwd_x(
                        &l.cs, col_fn(b0, jb as int), b0.nrows as int, i2),
                forall|i2: int| 0 <= i2 < i as int
                    ==> #[trigger] b.ent(i2, jb as int) == b0.ent(i2, jb as int),
            decreases i,
        {
            let ii = i - 1;
            let dopt = l.cs.find_in_slice(ii, ii);
            match dopt {
                None => {
                    proof {
                        assert(!nonzero_diagonal(&l.cs));
                        lemma_last_bad_at(&l.cs, n as int - 1, ii as int);
                        assert(jb == 0);
                    }
                    return spsolve_encountered_zero_diagonal();
                },
                Some(d) => {
                    proof {
                        lemma_slice_in_bounds(&l.cs, ii as int);
                    }
                    let lii = l.cs.values[d];
                    if lii == 0 {
                        proof {
                            assert(l.cs.at(ii as int, ii as int) == 0);
                            assert(!nonzero_diagonal(&l.cs));
                            lemma_last_bad_at(&l.cs, n as int - 1, ii as int);
                            assert(jb == 0);
                        }
                        return spsolve_encountered_zero_diagonal();
                    }
                    let ghost binit = col_fn(b0, jb as int);
                    let (lo, hi) = l.cs.slice_bounds(ii);
                    let mut acc = b.get(ii, jb);
                    let mut q = d + 1;
                    proof {
                        assert(acc as int == bwd_acc(
                            &l.cs, binit, b0.nrows as int, ii as int, d as int + 1));
                    }
                    while q < hi
                        invariant
                            l.wf(),
                            b.wf(),
                            b.nrows == b0.nrows,
                            b.ncols == b0.ncols,
                            b0.wf(),
                            b0 == *old(b),
                            nb == b0.ncols,
                            n == l.cs.major_dim,
                            l.nrows_spec() == l.ncols_spec(),
                            l.nrows_spec() == b0.nrows as int,
                            jb < nb,
                            0 < i <= n,
                            ii == i - 1,
                            lo as int == l.cs.lo(ii as int),
                            hi as int == l.cs.hi(ii as int),
                            lo as int <= d as int,
                            (d as int) < hi as int,
                            d < q,
                            q <= hi,
                            hi as int <= l.cs.nnz(),
                            d as int == l.cs.entry_pos(ii as int, ii as int),
                            l.cs.minor_indices@[d as int] == ii,
                            l.cs.slice_has(ii as int, ii as int),
                            l.cs.at(ii as int, ii as int) == lii as int,
                            lii != 0,
                            binit == col_fn(b0, jb as int),
                            acc as int == bwd_acc(
                                &l.cs, binit, b0.nrows as int, ii as int, q as int),
                            forall|i2: int| i as int <= i2 && i2 < b0.nrows as int
                                ==> #[trigger] b.ent(i2, jb as int) == bwd_x(
                                    &l.cs, col_fn(b0, jb as int), b0.nrows as int, i2),
                        decreases hi - q,
                    {
                        let k = l.cs.minor_indices[q];
                        let lki = l.cs.values[q];
                        proof {
                            lemma_entry_at_pos(&l.cs, ii as int, q as int);
                            assert(ii < k);
                        }
                        let xk = b.get(k, jb);
                        acc = sub_w(acc, mul_w(lki, xk));
                        proof {
                            assert(xk as int == bwd_x(
                                &l.cs, binit, b0.nrows as int, k as int));
                        }
                        q = q + 1;
                    }
                    b.set(ii, jb, div_w(acc, lii));
                    proof {
                        assert(l.cs.at(ii as int, ii as int) == lii as int);
                        assert(b.ent(ii as int, jb as int) == wdiv(
                            bwd_acc(&l.cs, binit, b0.nrows as int, ii as int, hi as int),
                            l.cs.at(ii as int, ii as int)));
                        assert(b.ent(ii as int, jb as int) == bwd_x(
                            &l.cs, binit, b0.nrows as int, ii as int));
                    }
                },
            }
            i = i - 1;
        }
        jb = jb + 1;
    }
    proof {
        if nb > 0 {
            assert(nonzero_diagonal(&l.cs));
        }
    }
    Ok(())
}

/// Solve the lower triangular system `op(L) X = B` in place on `B`,
/// reading only the stored lower-triangular part of `L`.
///
/// `L` must be square and dimensionally compatible with `B`. The solve
/// fails with a `Singular` error exactly when some column of `L` lacks a
/// stored, nonzero diagonal entry (and `B` has at least one column); on
/// success every cell of `B` holds the substitution value `fwd_x`
/// (`NoOp`) or `bwd_x` (`Transpose`) of its row and column.
pub fn spsolve_csc_lower_triangular(l: Op<&CscMatrix>, b: &mut Matrix)
    -> (r: Result<(), SolveError>)
    requires
        l.inner_spec().wf(),
        old(b).wf(),
        l.inner_spec().nrows_spec() == l.inner_spec().ncols_spec(),
        l.inner_spec().nrows_spec() == old(b).nrows as int,
    ensures
        final(b).wf(),
        final(b).nrows == old(b).nrows,
        final(b).ncols == old(b).ncols,
        r is Ok <==> (old(b).ncols == 0 || nonzero_diagonal(&l.inner_spec().cs)),
        r matches Err(e) ==> e.kind == SolveErrorKind::Singular
            && e.message@ == "Matrix contains at least one diagonal entry that is zero."@,
        r is Err && !l.is_transpose() ==> {
            &&& 0 <= first_bad_diag(&l.inner_spec().cs, 0) < l.inner_spec().ncols_spec()
            &&& forall|i: int| 0 <= i < old(b).nrows as int
                ==> #[trigger] final(b).ent(i, 0) == (
                    if i < first_bad_diag(&l.inner_spec().cs, 0) {
                        fwd_x(&l.inner_spec().cs, col_fn(*old(b), 0), i)
                    } else {
                        fwd_pre(&l.inner_spec().cs, col_fn(*old(b), 0), i,
                            first_bad_diag(&l.inner_spec().cs, 0))
                    })
            &&& forall|i: int, j2: int|
                0 <= i < old(b).nrows as int && 1 <= j2 < old(b).ncols as int
                    ==> #[trigger] final(b).ent(i, j2) == old(b).ent(i, j2)
        },
        r is Err && l.is_transpose() ==> {
            &&& 0 <= last_bad_diag(&l.inner_spec().cs, l.inner_spec().ncols_spec() - 1)
                < l.inner_spec().ncols_spec()
            &&& forall|i: int| 0 <= i < old(b).nrows as int
                ==> #[trigger] final(b).ent(i, 0) == (
                    if i > last_bad_diag(&l.inner_spec().cs, l.inner_spec().ncols_spec() - 1) {
                        bwd_x(&l.inner_spec().cs, col_fn(*old(b), 0), old(b).nrows as int, i)
                    } else {
                        old(b).ent(i, 0)
                    })
            &&& forall|i: int, j2: int|
                0 <= i < old(b).nrows as int && 1 <= j2 < old(b).ncols as int
                    ==> #[trigger] final(b).ent(i, j2) == old(b).ent(i, j2)
        },
        r is Ok && !l.is_transpose() ==> forall|i: int, jb: int|
            0 <= i < old(b).nrows as int && 0 <= jb < old(b).ncols as int
                ==> #[trigger] final(b).ent(i, jb) == fwd_x(
                    &l.inner_spec().cs, col_fn(*old(b), jb), i),
        r is Ok && l.is_transpose() ==> forall|i: int, jb: int|
            0 <= i < old(b).nrows as int && 0 <= jb < old(b).ncols as int
                ==> #[trigger] final(b).ent(i, jb) == bwd_x(
                    &l.inner_spec().cs, col_fn(*old(b), jb), old(b).nrows as int, i),
{
    match l {
        Op::NoOp(a) => spsolve_csc_lower_triangular_no_transpose(a, b),
        Op::Transpose(a) => spsolve_csc_lower_triangular_transpose(a, b),
    }
}

} // verus!
