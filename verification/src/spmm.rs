//! Sparse-sparse matrix multiplication:
//! `C <- beta * C + alpha * op(A) * op(B)` with all three compressed.
//!
//! The canonical kernel multiplies two matrices in their stored (major by
//! minor) orientation, row by row, scattering each partial product into a
//! dense per-row workspace and draining the touched columns back into the
//! preallocated pattern of `C`. The checked entry point validates first
//! that the pattern of `C` covers the structural product; the unchecked
//! entry point takes that coverage as a precondition, making the trusted
//! "the pattern was just computed" claim a statically checked one.
//! Transposed operands are materialized and the canonical kernel reused.

use vstd::prelude::*;
use crate::{OperationError, OperationErrorKind};
use crate::scalar::{
    wadd, wmul, mul_w, add_w, lemma_wadd_assoc, lemma_wadd_zero, lemma_wmul_zero,
};
use crate::sums::{
    wsum, range_has_minor, lemma_wsum_sparse_dense, lemma_wsum_in_range, lemma_wsum_zero,
    lemma_wsum_congruence,
};
use crate::cs::{
    CsMatrix, same_pattern, lemma_same_pattern_structure, lemma_entry_at_pos,
    lemma_slice_in_bounds, lemma_slices_disjoint,
};
use crate::csc::CscMatrix;
use crate::csr::CsrMatrix;
use crate::ops::Op;
use crate::kernel_spec::{
    spmm_term, cs_at_or_t, cs_stored_or_t, cs_rows_or_t, cs_cols_or_t, sparse_term_fn,
    spmm_sparse_cell,
};

verus! {

/// The structural product of the oriented operands stores something at
/// `(i, j)`: some inner index is stored in both.
pub open spec fn spmm_produced(
    a: &CsMatrix,
    at: bool,
    b: &CsMatrix,
    bt: bool,
    i: int,
    j: int,
) -> bool {
    exists|k: int| 0 <= k < cs_cols_or_t(a, at) && #[trigger] cs_stored_or_t(a, at, i, k)
        && cs_stored_or_t(b, bt, k, j)
}

/// The pattern of `c` covers the structural product of the oriented
/// operands.
pub open spec fn spmm_pattern_ok(
    c: &CsMatrix,
    a: &CsMatrix,
    at: bool,
    b: &CsMatrix,
    bt: bool,
) -> bool {
    forall|i: int, j: int|
        0 <= i < c.major_dim as int && 0 <= j < c.minor_dim as int
            && #[trigger] spmm_produced(a, at, b, bt, i, j) ==> c.slice_has(i, j)
}

/// The entry-position-indexed scatter term of row `i`: position `pp` of
/// `a`'s row contributes `alpha * a_values[pp] * b(minor[pp], j)`.
pub open spec fn sp_row_term_fn(
    alpha: int,
    a: &CsMatrix,
    b: &CsMatrix,
    j: int,
) -> spec_fn(int) -> int {
    |pp: int| spmm_term(
        alpha,
        a.values@[pp] as int,
        b.at(a.minor_indices@[pp] as int, j),
    )
}

/// Decide whether the pattern of `c` covers the structural product
/// `a * b` (both taken in stored orientation).
#[verifier::rlimit(60)]
fn spmm_pattern_check(c: &CsMatrix, a: &CsMatrix, b: &CsMatrix) -> (r: bool)
    requires
        c.wf(),
        a.wf(),
        b.wf(),
        c.major_dim == a.major_dim,
        c.minor_dim == b.minor_dim,
        a.minor_dim == b.major_dim,
    ensures
        r == spmm_pattern_ok(c, a, false, b, false),
{
    let n = a.major_dim;
    let mut i: usize = 0;
    while i < n
        invariant
            c.wf(),
            a.wf(),
            b.wf(),
            i <= n,
            n == a.major_dim,
            c.major_dim == a.major_dim,
            c.minor_dim == b.minor_dim,
            a.minor_dim == b.major_dim,
            forall|i2: int, j2: int|
                0 <= i2 < i as int && 0 <= j2 < c.minor_dim as int
                    && #[trigger] spmm_produced(a, false, b, false, i2, j2)
                    ==> c.slice_has(i2, j2),
        decreases n - i,
    {
        let (lo, hi) = a.slice_bounds(i);
        let mut p = lo;
        while p < hi
            invariant
                c.wf(),
                a.wf(),
                b.wf(),
                i < n,
                n == a.major_dim,
                c.major_dim == a.major_dim,
                c.minor_dim == b.minor_dim,
                a.minor_dim == b.major_dim,
                lo as int == a.lo(i as int),
                hi as int == a.hi(i as int),
                lo <= p <= hi,
                hi as int <= a.nnz(),
                forall|i2: int, j2: int|
                    0 <= i2 < i as int && 0 <= j2 < c.minor_dim as int
                        && #[trigger] spmm_produced(a, false, b, false, i2, j2)
                        ==> c.slice_has(i2, j2),
                forall|pp: int, j2: int|
                    lo as int <= pp < p as int && 0 <= j2 < c.minor_dim as int
                        && #[trigger] b.slice_has(a.minor_indices@[pp] as int, j2)
                        ==> c.slice_has(i as int, j2),
            decreases hi - p,
        {
            let k = a.minor_indices[p];
            let (blo, bhi) = b.slice_bounds(k);
            let mut q = blo;
            while q < bhi
                invariant
                    c.wf(),
                    a.wf(),
                    b.wf(),
                    i < n,
                    n == a.major_dim,
                    c.major_dim == a.major_dim,
                    c.minor_dim == b.minor_dim,
                    a.minor_dim == b.major_dim,
                    lo as int == a.lo(i as int),
                    hi as int == a.hi(i as int),
                    lo <= p < hi,
                    hi as int <= a.nnz(),
                    k == a.minor_indices@[p as int],
                    k < a.minor_dim,
                    blo as int == b.lo(k as int),
                    bhi as int == b.hi(k as int),
                    blo <= q <= bhi,
                    bhi as int <= b.nnz(),
                    forall|i2: int, j2: int|
                        0 <= i2 < i as int && 0 <= j2 < c.minor_dim as int
                            && #[trigger] spmm_produced(a, false, b, false, i2, j2)
                            ==> c.slice_has(i2, j2),
                    forall|pp: int, j2: int|
                        lo as int <= pp < p as int && 0 <= j2 < c.minor_dim as int
                            && #[trigger] b.slice_has(a.minor_indices@[pp] as int, j2)
                            ==> c.slice_has(i as int, j2),
                    forall|qq: int| blo as int <= qq < q as int
                        ==> c.slice_has(i as int, #[trigger] b.minor_indices@[qq] as int),
                decreases bhi - q,
            {
                let j = b.minor_indices[q];
                if !c.has_in_slice(i, j) {
                    proof {
                        lemma_entry_at_pos(a, i as int, p as int);
                        lemma_entry_at_pos(b, k as int, q as int);
                        assert(cs_stored_or_t(a, false, i as int, k as int)
                            && cs_stored_or_t(b, false, k as int, j as int));
                        assert(spmm_produced(a, false, b, false, i as int, j as int));
                        assert(!spmm_pattern_ok(c, a, false, b, false));
                    }
                    return false;
                }
                q = q + 1;
            }
            proof {
                assert forall|j2: int|
                    0 <= j2 < c.minor_dim as int
                        && #[trigger] b.slice_has(k as int, j2)
                        implies c.slice_has(i as int, j2) by {
                    let w = b.entry_pos(k as int, j2);
                    assert(b.minor_indices@[w] == j2);
                }
            }
            p = p + 1;
        }
        proof {
            assert forall|j2: int|
                0 <= j2 < c.minor_dim as int
                    && #[trigger] spmm_produced(a, false, b, false, i as int, j2)
                    implies c.slice_has(i as int, j2) by {
                let k2 = choose|k2: int|
                    0 <= k2 < cs_cols_or_t(a, false)
                        && #[trigger] cs_stored_or_t(a, false, i as int, k2)
                        && cs_stored_or_t(b, false, k2, j2);
                let w = a.entry_pos(i as int, k2);
                assert(a.minor_indices@[w] as int == k2);
            }
        }
        i = i + 1;
    }
    proof {
        assert(spmm_pattern_ok(c, a, false, b, false));
    }
    true
}

/// Scatter row `i` of the product `alpha * a * b` into the dense
/// workspace, which must start all zero.
#[verifier::rlimit(100)]
fn spmm_scatter_row(ws: &mut Vec<i64>, alpha: i64, a: &CsMatrix, b: &CsMatrix, i: usize)
    requires
        a.wf(),
        b.wf(),
        a.minor_dim == b.major_dim,
        i < a.major_dim,
        old(ws)@.len() == b.minor_dim,
        forall|j: int| 0 <= j < b.minor_dim as int ==> #[trigger] old(ws)@[j] == 0i64,
    ensures
        final(ws)@.len() == b.minor_dim,
        forall|j: int| 0 <= j < b.minor_dim as int
            ==> (#[trigger] final(ws)@[j] as int) == wsum(
                a.lo(i as int), a.hi(i as int), sp_row_term_fn(alpha as int, a, b, j)),
{
    let (lo, hi) = a.slice_bounds(i);
    let mut p = lo;
    while p < hi
        invariant
            a.wf(),
            b.wf(),
            a.minor_dim == b.major_dim,
            i < a.major_dim,
            lo as int == a.lo(i as int),
            hi as int == a.hi(i as int),
            lo <= p <= hi,
            hi as int <= a.nnz(),
            ws@.len() == b.minor_dim,
            forall|j: int| 0 <= j < b.minor_dim as int
                ==> (#[trigger] ws@[j] as int) == wsum(
                    lo as int, p as int, sp_row_term_fn(alpha as int, a, b, j)),
        decreases hi - p,
    {
        let k = a.minor_indices[p];
        let av = a.values[p];
        let (blo, bhi) = b.slice_bounds(k);
        let mut q = blo;
        while q < bhi
            invariant
                a.wf(),
                b.wf(),
                a.minor_dim == b.major_dim,
                i < a.major_dim,
                lo as int == a.lo(i as int),
                hi as int == a.hi(i as int),
                lo <= p < hi,
                hi as int <= a.nnz(),
                k == a.minor_indices@[p as int],
                av == a.values@[p as int],
                k < a.minor_dim,
                blo as int == b.lo(k as int),
                bhi as int == b.hi(k as int),
                blo <= q <= bhi,
                bhi as int <= b.nnz(),
                ws@.len() == b.minor_dim,
                forall|j: int|
                    0 <= j < b.minor_dim as int
                        && range_has_minor(b.minor_indices@, blo as int, q as int, j)
                        ==> (#[trigger] ws@[j] as int) == wsum(
                            lo as int, p as int + 1, sp_row_term_fn(alpha as int, a, b, j)),
                forall|j: int|
                    0 <= j < b.minor_dim as int
                        && !range_has_minor(b.minor_indices@, blo as int, q as int, j)
                        ==> (#[trigger] ws@[j] as int) == wsum(
                            lo as int, p as int, sp_row_term_fn(alpha as int, a, b, j)),
            decreases bhi - q,
        {
            let j = b.minor_indices[q];
            let bv = b.values[q];
            proof {
                lemma_entry_at_pos(b, k as int, q as int);
                assert(!range_has_minor(b.minor_indices@, blo as int, q as int, j as int));
            }
            let cur = ws[j];
            ws.set(j, add_w(cur, mul_w(alpha, mul_w(av, bv))));
            proof {
                let f = sp_row_term_fn(alpha as int, a, b, j as int);
                assert(b.at(k as int, j as int) == bv as int);
                assert(f(p as int) == wmul(alpha as int, wmul(av as int, bv as int)));
                assert(wsum(lo as int, p as int + 1, f)
                    == wadd(wsum(lo as int, p as int, f), f(p as int)));
                assert(ws@[j as int] as int == wsum(lo as int, p as int + 1, f));
                assert forall|mm: int|
                    range_has_minor(b.minor_indices@, blo as int, q as int + 1, mm)
                        && mm != j as int
                        implies range_has_minor(
                            b.minor_indices@, blo as int, q as int, mm) by {
                    let w = choose|w: int|
                        blo as int <= w < q as int + 1
                            && #[trigger] b.minor_indices@[w] == mm;
                    assert(blo as int <= w < q as int);
                }
                assert(range_has_minor(
                    b.minor_indices@, blo as int, q as int + 1, j as int));
            }
            q = q + 1;
        }
        proof {
            assert forall|j: int| 0 <= j < b.minor_dim as int
                implies (#[trigger] ws@[j] as int) == wsum(
                    lo as int, p as int + 1, sp_row_term_fn(alpha as int, a, b, j)) by {
                let f = sp_row_term_fn(alpha as int, a, b, j);
                if !range_has_minor(b.minor_indices@, blo as int, bhi as int, j) {
                    assert(!b.slice_has(k as int, j));
                    assert(b.at(k as int, j) == 0);
                    lemma_wmul_zero(a.values@[p as int] as int);
                    lemma_wmul_zero(alpha as int);
                    assert(f(p as int) == 0);
                    lemma_wsum_in_range(lo as int, p as int, f);
                    lemma_wadd_zero(wsum(lo as int, p as int, f));
                    assert(wsum(lo as int, p as int + 1, f)
                        == wsum(lo as int, p as int, f));
                }
            }
        }
        p = p + 1;
    }
}

/// Drain the workspace into row `i` of `c`: each stored slot of the row
/// becomes `beta * slot + workspace[column]`, and the workspace returns
/// to all zero. Rows other than `i` are untouched.
#[verifier::rlimit(100)]
fn spmm_drain_row(
    c: &mut CsMatrix,
    ws: &mut Vec<i64>,
    beta: i64,
    alpha: i64,
    a: &CsMatrix,
    b: &CsMatrix,
    i: usize,
)
    requires
        old(c).wf(),
        a.wf(),
        b.wf(),
        old(c).major_dim == a.major_dim,
        old(c).minor_dim == b.minor_dim,
        a.minor_dim == b.major_dim,
        i < old(c).major_dim,
        old(ws)@.len() == b.minor_dim,
        forall|j: int| 0 <= j < b.minor_dim as int
            ==> (#[trigger] old(ws)@[j] as int) == wsum(
                a.lo(i as int), a.hi(i as int), sp_row_term_fn(alpha as int, a, b, j)),
        forall|j: int|
            0 <= j < old(c).minor_dim as int
                && #[trigger] spmm_produced(a, false, b, false, i as int, j)
                ==> old(c).slice_has(i as int, j),
    ensures
        final(c).wf(),
        same_pattern(old(c), final(c)),
        final(ws)@.len() == b.minor_dim,
        forall|j: int| 0 <= j < b.minor_dim as int ==> #[trigger] final(ws)@[j] == 0i64,
        forall|j: int| 0 <= j < old(c).minor_dim as int
            ==> #[trigger] final(c).at(i as int, j) == wadd(
                wmul(beta as int, old(c).at(i as int, j)),
                wsum(a.lo(i as int), a.hi(i as int), sp_row_term_fn(alpha as int, a, b, j))),
        forall|m2: int, n2: int|
            0 <= m2 < old(c).major_dim as int && m2 != i as int
                ==> #[trigger] final(c).at(m2, n2) == old(c).at(m2, n2),
{
    let ghost c0 = *c;
    let (clo, chi) = c.slice_bounds(i);
    let mut q = clo;
    while q < chi
        invariant
            c.major_dim == c0.major_dim,
            c.minor_dim == c0.minor_dim,
            c.offsets@ == c0.offsets@,
            c.minor_indices@ == c0.minor_indices@,
            c.values@.len() == c0.values@.len(),
            c0.wf(),
            a.wf(),
            b.wf(),
            c0.major_dim == a.major_dim,
            c0.minor_dim == b.minor_dim,
            a.minor_dim == b.major_dim,
            i < c0.major_dim,
            clo as int == c0.lo(i as int),
            chi as int == c0.hi(i as int),
            clo <= q <= chi,
            chi as int <= c0.nnz(),
            ws@.len() == b.minor_dim,
            forall|x: int| clo as int <= x < q as int
                ==> (#[trigger] c.values@[x] as int) == wadd(
                    wmul(beta as int, c0.values@[x] as int),
                    wsum(a.lo(i as int), a.hi(i as int), sp_row_term_fn(
                        alpha as int, a, b, c0.minor_indices@[x] as int))),
            forall|x: int| 0 <= x < c0.values@.len() && !(clo as int <= x < q as int)
                ==> #[trigger] c.values@[x] == c0.values@[x],
            forall|j: int|
                0 <= j < b.minor_dim as int
                    && range_has_minor(c0.minor_indices@, clo as int, q as int, j)
                    ==> #[trigger] ws@[j] == 0i64,
            forall|j: int|
                0 <= j < b.minor_dim as int
                    && !range_has_minor(c0.minor_indices@, clo as int, q as int, j)
                    ==> (#[trigger] ws@[j] as int) == wsum(
                        a.lo(i as int), a.hi(i as int), sp_row_term_fn(alpha as int, a, b, j)),
        decreases chi - q,
    {
        let j = c.minor_indices[q];
        proof {
            lemma_entry_at_pos(&c0, i as int, q as int);
            assert(!range_has_minor(c0.minor_indices@, clo as int, q as int, j as int));
        }
        let cur = c.values[q];
        let wv = ws[j];
        c.values.set(q, add_w(mul_w(beta, cur), wv));
        ws.set(j, 0);
        proof {
            assert forall|mm: int|
                range_has_minor(c0.minor_indices@, clo as int, q as int + 1, mm)
                    && mm != j as int
                    implies range_has_minor(
                        c0.minor_indices@, clo as int, q as int, mm) by {
                let w = choose|w: int|
                    clo as int <= w < q as int + 1
                        && #[trigger] c0.minor_indices@[w] == mm;
                assert(clo as int <= w < q as int);
            }
            assert(range_has_minor(c0.minor_indices@, clo as int, q as int + 1, j as int));
        }
        q = q + 1;
    }
    proof {
        lemma_same_pattern_structure(&c0, c);
        lemma_spmm_row_zero_outside(&c0, a, b, alpha as int, i as int);
        lemma_spmm_drain_finish(
            &c0, c, a, b, alpha as int, beta as int, i as int, clo as int, chi as int);
        assert forall|j: int| 0 <= j < b.minor_dim as int
            implies #[trigger] ws@[j] == 0i64 by {
            if !range_has_minor(c0.minor_indices@, clo as int, chi as int, j) {
                assert(!c0.slice_has(i as int, j));
            }
        }
    }
}

/// A row slot the pattern does not store receives only zero terms: the
/// scatter sum of an uncovered column is zero.
pub proof fn lemma_spmm_row_zero_outside(
    c0: &CsMatrix,
    a: &CsMatrix,
    b: &CsMatrix,
    alpha: int,
    i: int,
)
    requires
        c0.wf(),
        a.wf(),
        b.wf(),
        c0.major_dim == a.major_dim,
        c0.minor_dim == b.minor_dim,
        a.minor_dim == b.major_dim,
        0 <= i < c0.major_dim as int,
        forall|j: int|
            0 <= j < c0.minor_dim as int
                && #[trigger] spmm_produced(a, false, b, false, i, j)
                ==> c0.slice_has(i, j),
    ensures
        forall|j: int|
            0 <= j < c0.minor_dim as int && !c0.slice_has(i, j)
                ==> wsum(a.lo(i), a.hi(i), #[trigger] sp_row_term_fn(alpha, a, b, j)) == 0,
{
    lemma_slice_in_bounds(a, i);
    assert forall|j: int|
        0 <= j < c0.minor_dim as int && !c0.slice_has(i, j)
            implies wsum(a.lo(i), a.hi(i), #[trigger] sp_row_term_fn(alpha, a, b, j))
                == 0 by {
        assert(!spmm_produced(a, false, b, false, i, j));
        let f = sp_row_term_fn(alpha, a, b, j);
        assert forall|pp: int| a.lo(i) <= pp < a.hi(i)
            implies #[trigger] f(pp) == 0 by {
            lemma_entry_at_pos(a, i, pp);
            let k2 = a.minor_indices@[pp] as int;
            if b.slice_has(k2, j) {
                assert(cs_stored_or_t(a, false, i, k2)
                    && cs_stored_or_t(b, false, k2, j));
                assert(spmm_produced(a, false, b, false, i, j));
            }
            assert(b.at(k2, j) == 0);
            lemma_wmul_zero(a.values@[pp] as int);
            lemma_wmul_zero(alpha);
        }
        lemma_wsum_zero(a.lo(i), a.hi(i), f);
    }
}

/// Positional updates of a row slice translate to the row's cell values,
/// leaving every other row unchanged.
#[verifier::rlimit(100)]
pub proof fn lemma_spmm_drain_finish(
    c0: &CsMatrix,
    c: &CsMatrix,
    a: &CsMatrix,
    b: &CsMatrix,
    alpha: int,
    beta: int,
    i: int,
    clo: int,
    chi: int,
)
    requires
        c0.wf(),
        a.wf(),
        b.wf(),
        same_pattern(c0, c),
        c0.major_dim == a.major_dim,
        c0.minor_dim == b.minor_dim,
        a.minor_dim == b.major_dim,
        0 <= i < c0.major_dim as int,
        clo == c0.lo(i),
        chi == c0.hi(i),
        chi <= c0.nnz(),
        forall|x: int| clo <= x < chi
            ==> (#[trigger] c.values@[x] as int) == wadd(
                wmul(beta, c0.values@[x] as int),
                wsum(a.lo(i), a.hi(i), sp_row_term_fn(
                    alpha, a, b, c0.minor_indices@[x] as int))),
        forall|x: int| 0 <= x < c0.values@.len() && !(clo <= x < chi)
            ==> #[trigger] c.values@[x] == c0.values@[x],
        forall|j: int|
            0 <= j < c0.minor_dim as int && !c0.slice_has(i, j)
                ==> wsum(a.lo(i), a.hi(i), #[trigger] sp_row_term_fn(alpha, a, b, j)) == 0,
    ensures
        forall|j: int| 0 <= j < c0.minor_dim as int
            ==> #[trigger] c.at(i, j) == wadd(
                wmul(beta, c0.at(i, j)),
                wsum(a.lo(i), a.hi(i), sp_row_term_fn(alpha, a, b, j))),
        forall|m2: int, n2: int|
            0 <= m2 < c0.major_dim as int && m2 != i
                ==> #[trigger] c.at(m2, n2) == c0.at(m2, n2),
{
    lemma_same_pattern_structure(c0, c);
    assert forall|j: int| 0 <= j < c0.minor_dim as int
        implies #[trigger] c.at(i, j) == wadd(
            wmul(beta, c0.at(i, j)),
            wsum(a.lo(i), a.hi(i), sp_row_term_fn(alpha, a, b, j))) by {
        if c0.slice_has(i, j) {
            let x = c0.entry_pos(i, j);
            lemma_entry_at_pos(c0, i, x);
            lemma_entry_at_pos(c, i, x);
        } else {
            assert(c.at(i, j) == 0 && c0.at(i, j) == 0);
            lemma_wmul_zero(beta);
            lemma_wadd_zero(0);
        }
    }
    assert forall|m2: int, n2: int|
        0 <= m2 < c0.major_dim as int && m2 != i
            implies #[trigger] c.at(m2, n2) == c0.at(m2, n2) by {
        if c0.slice_has(m2, n2) {
            let x = c0.entry_pos(m2, n2);
            lemma_slice_in_bounds(c0, m2);
            if m2 < i {
                lemma_slices_disjoint(c0, m2, i);
            } else {
                lemma_slices_disjoint(c0, i, m2);
            }
            assert(c.values@[x] == c0.values@[x]);
        }
    }
}

/// The canonical multiply: `C <- beta * C + alpha * a * b`, all three in
/// stored orientation, with the pattern of `C` known to cover the
/// structural product.
#[verifier::rlimit(100)]
fn spmm_cs_values(beta: i64, c: &mut CsMatrix, alpha: i64, a: &CsMatrix, b: &CsMatrix)
    requires
        old(c).wf(),
        a.wf(),
        b.wf(),
        old(c).major_dim == a.major_dim,
        old(c).minor_dim == b.minor_dim,
        a.minor_dim == b.major_dim,
        spmm_pattern_ok(old(c), a, false, b, false),
    ensures
        final(c).wf(),
        same_pattern(old(c), final(c)),
        forall|i: int, j: int|
            0 <= i < old(c).major_dim as int && 0 <= j < old(c).minor_dim as int
                ==> #[trigger] final(c).at(i, j) == spmm_sparse_cell(
                    beta as int, old(c).at(i, j), alpha as int, a, false, b, false, i, j,
                    a.minor_dim as int),
{
    let ghost c0 = *c;
    let wn = b.minor_dim;
    let mut ws: Vec<i64> = Vec::new();
    let mut t: usize = 0;
    while t < wn
        invariant
            t <= wn,
            ws@.len() == t as int,
            forall|x: int| 0 <= x < t as int ==> #[trigger] ws@[x] == 0i64,
        decreases wn - t,
    {
        ws.push(0);
        t = t + 1;
    }
    let n = a.major_dim;
    let mut i: usize = 0;
    while i < n
        invariant
            c.wf(),
            a.wf(),
            b.wf(),
            i <= n,
            n == a.major_dim,
            c0 == *old(c),
            c0.wf(),
            same_pattern(&c0, c),
            c0.major_dim == a.major_dim,
            c0.minor_dim == b.minor_dim,
            a.minor_dim == b.major_dim,
            spmm_pattern_ok(&c0, a, false, b, false),
            ws@.len() == b.minor_dim,
            forall|x: int| 0 <= x < b.minor_dim as int ==> #[trigger] ws@[x] == 0i64,
            forall|i2: int, j2: int|
                0 <= i2 < i as int && 0 <= j2 < c0.minor_dim as int
                    ==> #[trigger] c.at(i2, j2) == wadd(
                        wmul(beta as int, c0.at(i2, j2)),
                        wsum(a.lo(i2), a.hi(i2), sp_row_term_fn(alpha as int, a, b, j2))),
            forall|i2: int, j2: int|
                i as int <= i2 && i2 < c0.major_dim as int
                    ==> #[trigger] c.at(i2, j2) == c0.at(i2, j2),
        decreases n - i,
    {
        spmm_scatter_row(&mut ws, alpha, a, b, i);
        let ghost cpre = *c;
        proof {
            lemma_same_pattern_structure(&c0, &cpre);
            assert forall|j: int|
                0 <= j < cpre.minor_dim as int
                    && #[trigger] spmm_produced(a, false, b, false, i as int, j)
                    implies cpre.slice_has(i as int, j) by {
                assert(c0.slice_has(i as int, j));
            }
        }
        spmm_drain_row(c, &mut ws, beta, alpha, a, b, i);
        proof {
            lemma_same_pattern_structure(&c0, &cpre);
            lemma_same_pattern_structure(&c0, c);
            assert forall|j2: int| 0 <= j2 < c0.minor_dim as int
                implies #[trigger] c.at(i as int, j2) == wadd(
                    wmul(beta as int, c0.at(i as int, j2)),
                    wsum(a.lo(i as int), a.hi(i as int), sp_row_term_fn(
                        alpha as int, a, b, j2))) by {
                assert(cpre.at(i as int, j2) == c0.at(i as int, j2));
            }
        }
        i = i + 1;
    }
    proof {
        lemma_spmm_rows_to_cells(&c0, c, a, b, alpha as int, beta as int);
    }
}

/// The per-row stored-entry sums equal the naive inner-product sums over
/// the whole inner dimension.
#[verifier::rlimit(100)]
pub proof fn lemma_spmm_rows_to_cells(
    c0: &CsMatrix,
    c: &CsMatrix,
    a: &CsMatrix,
    b: &CsMatrix,
    alpha: int,
    beta: int,
)
    requires
        c0.wf(),
        a.wf(),
        b.wf(),
        same_pattern(c0, c),
        c0.major_dim == a.major_dim,
        c0.minor_dim == b.minor_dim,
        a.minor_dim == b.major_dim,
        forall|i2: int, j2: int|
            0 <= i2 < c0.major_dim as int && 0 <= j2 < c0.minor_dim as int
                ==> #[trigger] c.at(i2, j2) == wadd(
                    wmul(beta, c0.at(i2, j2)),
                    wsum(a.lo(i2), a.hi(i2), sp_row_term_fn(alpha, a, b, j2))),
    ensures
        forall|i: int, j: int|
            0 <= i < c0.major_dim as int && 0 <= j < c0.minor_dim as int
                ==> #[trigger] c.at(i, j) == spmm_sparse_cell(
                    beta, c0.at(i, j), alpha, a, false, b, false, i, j, a.minor_dim as int),
{
    assert forall|i: int, j: int|
        0 <= i < c0.major_dim as int && 0 <= j < c0.minor_dim as int
            implies #[trigger] c.at(i, j) == spmm_sparse_cell(
                beta, c0.at(i, j), alpha, a, false, b, false, i, j, a.minor_dim as int) by {
        let f = sp_row_term_fn(alpha, a, b, j);
        let g = sparse_term_fn(alpha, a, false, b, false, i, j);
        lemma_slice_in_bounds(a, i);
        assert forall|pp: int| a.lo(i) <= pp < a.hi(i)
            implies g(a.minor_indices@[pp] as int) == #[trigger] f(pp) by {
            lemma_entry_at_pos(a, i, pp);
        }
        assert forall|k2: int|
            0 <= k2 < a.minor_dim as int && !range_has_minor(
                a.minor_indices@, a.lo(i), a.hi(i), k2)
                implies #[trigger] g(k2) == 0 by {
            assert(!a.slice_has(i, k2));
            assert(cs_at_or_t(a, false, i, k2) == 0);
            lemma_wmul_zero(cs_at_or_t(b, false, k2, j));
            lemma_wmul_zero(alpha);
        }
        lemma_wsum_sparse_dense(
            a.minor_indices@, a.lo(i), a.hi(i), a.minor_dim as int, f, g);
    }
}

/// Operand matrices that agree entrywise under their orientation tags
/// give the same product cells, the same structural product, and the same
/// pattern coverage.
#[verifier::rlimit(100)]
pub proof fn lemma_spmm_op_equiv(
    c0: &CsMatrix,
    aa: &CsMatrix,
    a: &CsMatrix,
    at: bool,
    bb: &CsMatrix,
    b: &CsMatrix,
    bt: bool,
    alpha: int,
    beta: int,
)
    requires
        aa.major_dim as int == cs_rows_or_t(a, at),
        aa.minor_dim as int == cs_cols_or_t(a, at),
        bb.major_dim as int == cs_rows_or_t(b, bt),
        bb.minor_dim as int == cs_cols_or_t(b, bt),
        forall|i: int, k: int|
            0 <= i < cs_rows_or_t(a, at) && 0 <= k < cs_cols_or_t(a, at)
                ==> #[trigger] cs_at_or_t(aa, false, i, k) == cs_at_or_t(a, at, i, k),
        forall|i: int, k: int|
            0 <= i < cs_rows_or_t(a, at) && 0 <= k < cs_cols_or_t(a, at)
                ==> #[trigger] cs_stored_or_t(aa, false, i, k)
                    == cs_stored_or_t(a, at, i, k),
        forall|k: int, j: int|
            0 <= k < cs_rows_or_t(b, bt) && 0 <= j < cs_cols_or_t(b, bt)
                ==> #[trigger] cs_at_or_t(bb, false, k, j) == cs_at_or_t(b, bt, k, j),
        forall|k: int, j: int|
            0 <= k < cs_rows_or_t(b, bt) && 0 <= j < cs_cols_or_t(b, bt)
                ==> #[trigger] cs_stored_or_t(bb, false, k, j)
                    == cs_stored_or_t(b, bt, k, j),
        c0.major_dim as int == cs_rows_or_t(a, at),
        c0.minor_dim as int == cs_cols_or_t(b, bt),
        cs_cols_or_t(a, at) == cs_rows_or_t(b, bt),
    ensures
        forall|i: int, j: int, v: int|
            0 <= i < c0.major_dim as int && 0 <= j < c0.minor_dim as int
                ==> #[trigger] spmm_sparse_cell(
                    beta, v, alpha, aa, false, bb, false, i, j, aa.minor_dim as int)
                    == spmm_sparse_cell(
                        beta, v, alpha, a, at, b, bt, i, j, cs_cols_or_t(a, at)),
        spmm_pattern_ok(c0, aa, false, bb, false) == spmm_pattern_ok(c0, a, at, b, bt),
{
    assert forall|i: int, j: int, v: int|
        0 <= i < c0.major_dim as int && 0 <= j < c0.minor_dim as int
            implies #[trigger] spmm_sparse_cell(
                beta, v, alpha, aa, false, bb, false, i, j, aa.minor_dim as int)
                == spmm_sparse_cell(
                    beta, v, alpha, a, at, b, bt, i, j, cs_cols_or_t(a, at)) by {
        lemma_wsum_congruence(
            0,
            cs_cols_or_t(a, at),
            sparse_term_fn(alpha, aa, false, bb, false, i, j),
            sparse_term_fn(alpha, a, at, b, bt, i, j),
        );
    }
    assert forall|i: int, j: int|
        0 <= i < c0.major_dim as int && 0 <= j < c0.minor_dim as int
            implies #[trigger] spmm_produced(aa, false, bb, false, i, j)
                == spmm_produced(a, at, b, bt, i, j) by {
        if spmm_produced(aa, false, bb, false, i, j) {
            let k = choose|k: int|
                0 <= k < cs_cols_or_t(aa, false)
                    && #[trigger] cs_stored_or_t(aa, false, i, k)
                    && cs_stored_or_t(bb, false, k, j);
            assert(cs_stored_or_t(a, at, i, k) && cs_stored_or_t(b, bt, k, j));
        }
        if spmm_produced(a, at, b, bt, i, j) {
            let k = choose|k: int|
                0 <= k < cs_cols_or_t(a, at)
                    && #[trigger] cs_stored_or_t(a, at, i, k)
                    && cs_stored_or_t(b, bt, k, j);
            assert(cs_stored_or_t(aa, false, i, k) && cs_stored_or_t(bb, false, k, j));
        }
    }
    if spmm_pattern_ok(c0, aa, false, bb, false) {
        assert forall|i: int, j: int|
            0 <= i < c0.major_dim as int && 0 <= j < c0.minor_dim as int
                && #[trigger] spmm_produced(a, at, b, bt, i, j)
                implies c0.slice_has(i, j) by {
            assert(spmm_produced(aa, false, bb, false, i, j));
        }
    }
    if spmm_pattern_ok(c0, a, at, b, bt) {
        assert forall|i: int, j: int|
            0 <= i < c0.major_dim as int && 0 <= j < c0.minor_dim as int
                && #[trigger] spmm_produced(aa, false, bb, false, i, j)
                implies c0.slice_has(i, j) by {
            assert(spmm_produced(a, at, b, bt, i, j));
        }
    }
}

/// The number of transposed operand tags, used as the recursion measure
/// of the materializing wrapper.
pub open spec fn op_weight(at: bool, bt: bool) -> int {
    (if at { 1int } else { 0int }) + (if bt { 1int } else { 0int })
}

/// Checked multiply over compressed storage with orientation tags; a
/// transposed operand is first materialized. Fails with `InvalidPattern`,
/// before touching any value, exactly when the pattern of `c` does not
/// cover the structural product.
#[verifier::rlimit(100)]
fn spmm_cs_prealloc_op(
    beta: i64,
    c: &mut CsMatrix,
    alpha: i64,
    a: &CsMatrix,
    at: bool,
    b: &CsMatrix,
    bt: bool,
) -> (r: Result<(), OperationError>)
    requires
        old(c).wf(),
        a.wf(),
        b.wf(),
        old(c).major_dim as int == cs_rows_or_t(a, at),
        old(c).minor_dim as int == cs_cols_or_t(b, bt),
        cs_cols_or_t(a, at) == cs_rows_or_t(b, bt),
    ensures
        final(c).wf(),
        same_pattern(old(c), final(c)),
        r is Ok <==> spmm_pattern_ok(old(c), a, at, b, bt),
        r is Ok ==> forall|i: int, j: int|
            0 <= i < old(c).major_dim as int && 0 <= j < old(c).minor_dim as int
                ==> #[trigger] final(c).at(i, j) == spmm_sparse_cell(
                    beta as int, old(c).at(i, j), alpha as int, a, at, b, bt, i, j,
                    cs_cols_or_t(a, at)),
        !(r is Ok) ==> *final(c) == *old(c),
    decreases op_weight(at, bt),
{
    if !at && !bt {
        let ghost c0 = *c;
        if !spmm_pattern_check(c, a, b) {
            return Err(OperationError::from_kind_and_message(
                OperationErrorKind::InvalidPattern,
                "Found unexpected entry that cannot be stored in the sparse matrix.",
            ));
        }
        spmm_cs_values(beta, c, alpha, a, b);
        proof {
            assert forall|i: int, j: int|
                0 <= i < c0.major_dim as int && 0 <= j < c0.minor_dim as int
                    implies #[trigger] c.at(i, j) == spmm_sparse_cell(
                        beta as int, c0.at(i, j), alpha as int, a, at, b, bt, i, j,
                        cs_cols_or_t(a, at)) by {}
        }
        Ok(())
    } else if at && !bt {
        let ta = a.transpose();
        let r = spmm_cs_prealloc_op(beta, c, alpha, &ta, false, b, false);
        proof {
            lemma_spmm_op_equiv(
                old(c), &ta, a, at, b, b, false, alpha as int, beta as int);
        }
        r
    } else if !at && bt {
        let tb = b.transpose();
        let r = spmm_cs_prealloc_op(beta, c, alpha, a, false, &tb, false);
        proof {
            lemma_spmm_op_equiv(
                old(c), a, a, false, &tb, b, bt, alpha as int, beta as int);
        }
        r
    } else {
        let ta = a.transpose();
        let tb = b.transpose();
        let r = spmm_cs_prealloc_op(beta, c, alpha, &ta, false, &tb, false);
        proof {
            lemma_spmm_op_equiv(
                old(c), &ta, a, at, &tb, b, bt, alpha as int, beta as int);
        }
        r
    }
}

/// Sparse-sparse matrix multiplication
/// `C <- beta * C + alpha * op(A) * op(B)` for CSR matrices, with the
/// pattern of `C` checked against the structural product: returns
/// `InvalidPattern`, leaving `C` untouched, exactly when the pattern
/// cannot hold the result.
#[verifier::rlimit(60)]
pub fn spmm_csr_prealloc_checked(
    beta: i64,
    c: &mut CsrMatrix,
    alpha: i64,
    a: Op<&CsrMatrix>,
    b: Op<&CsrMatrix>,
) -> (r: Result<(), OperationError>)
    requires
        old(c).wf(),
        a.inner_spec().wf(),
        b.inner_spec().wf(),
        old(c).nrows_spec() == cs_rows_or_t(&a.inner_spec().cs, a.is_transpose()),
        old(c).ncols_spec() == cs_cols_or_t(&b.inner_spec().cs, b.is_transpose()),
        cs_cols_or_t(&a.inner_spec().cs, a.is_transpose())
            == cs_rows_or_t(&b.inner_spec().cs, b.is_transpose()),
    ensures
        final(c).wf(),
        same_pattern(&old(c).cs, &final(c).cs),
        r is Ok <==> spmm_pattern_ok(
            &old(c).cs, &a.inner_spec().cs, a.is_transpose(),
            &b.inner_spec().cs, b.is_transpose()),
        r is Ok ==> forall|i: int, j: int|
            0 <= i < old(c).nrows_spec() && 0 <= j < old(c).ncols_spec()
                ==> #[trigger] final(c).at(i, j) == spmm_sparse_cell(
                    beta as int, old(c).at(i, j), alpha as int,
                    &a.inner_spec().cs, a.is_transpose(),
                    &b.inner_spec().cs, b.is_transpose(), i, j,
                    cs_cols_or_t(&a.inner_spec().cs, a.is_transpose())),
        !(r is Ok) ==> *final(c) == *old(c),
{
    let at = match &a {
        Op::NoOp(_) => false,
        Op::Transpose(_) => true,
    };
    let am = a.inner_ref();
    let bt = match &b {
        Op::NoOp(_) => false,
        Op::Transpose(_) => true,
    };
    let bm = b.inner_ref();
    spmm_cs_prealloc_op(beta, &mut c.cs, alpha, &am.cs, at, &bm.cs, bt)
}

/// Sparse-sparse matrix multiplication for CSR matrices that trusts the
/// caller-proved pattern coverage instead of re-checking it, so it cannot
/// fail.
#[verifier::rlimit(60)]
pub fn spmm_csr_prealloc_unchecked(
    beta: i64,
    c: &mut CsrMatrix,
    alpha: i64,
    a: Op<&CsrMatrix>,
    b: Op<&CsrMatrix>,
) -> (r: Result<(), OperationError>)
    requires
        old(c).wf(),
        a.inner_spec().wf(),
        b.inner_spec().wf(),
        old(c).nrows_spec() == cs_rows_or_t(&a.inner_spec().cs, a.is_transpose()),
        old(c).ncols_spec() == cs_cols_or_t(&b.inner_spec().cs, b.is_transpose()),
        cs_cols_or_t(&a.inner_spec().cs, a.is_transpose())
            == cs_rows_or_t(&b.inner_spec().cs, b.is_transpose()),
        spmm_pattern_ok(
            &old(c).cs, &a.inner_spec().cs, a.is_transpose(),
            &b.inner_spec().cs, b.is_transpose()),
    ensures
        final(c).wf(),
        same_pattern(&old(c).cs, &final(c).cs),
        r is Ok,
        forall|i: int, j: int|
            0 <= i < old(c).nrows_spec() && 0 <= j < old(c).ncols_spec()
                ==> #[trigger] final(c).at(i, j) == spmm_sparse_cell(
                    beta as int, old(c).at(i, j), alpha as int,
                    &a.inner_spec().cs, a.is_transpose(),
                    &b.inner_spec().cs, b.is_transpose(), i, j,
                    cs_cols_or_t(&a.inner_spec().cs, a.is_transpose())),
{
    let at = match &a {
        Op::NoOp(_) => false,
        Op::Transpose(_) => true,
    };
    let am = a.inner_ref();
    let bt = match &b {
        Op::NoOp(_) => false,
        Op::Transpose(_) => true,
    };
    let bm = b.inner_ref();
    spmm_cs_prealloc_op(beta, &mut c.cs, alpha, &am.cs, at, &bm.cs, bt)
}

/// Sparse-sparse matrix multiplication
/// `C <- beta * C + alpha * op(A) * op(B)` for CSC matrices. Column-major
/// storage reverses the operand order of the row-major kernel; the
/// contract still pins every cell of `C` (row `i`, column `j`).
#[verifier::rlimit(60)]
pub fn spmm_csc_prealloc(
    beta: i64,
    c: &mut CscMatrix,
    alpha: i64,
    a: Op<&CscMatrix>,
    b: Op<&CscMatrix>,
) -> (r: Result<(), OperationError>)
    requires
        old(c).wf(),
        a.inner_spec().wf(),
        b.inner_spec().wf(),
        old(c).ncols_spec() == cs_rows_or_t(&b.inner_spec().cs, b.is_transpose()),
        old(c).nrows_spec() == cs_cols_or_t(&a.inner_spec().cs, a.is_transpose()),
        cs_cols_or_t(&b.inner_spec().cs, b.is_transpose())
            == cs_rows_or_t(&a.inner_spec().cs, a.is_transpose()),
    ensures
        final(c).wf(),
        same_pattern(&old(c).cs, &final(c).cs),
        r is Ok <==> spmm_pattern_ok(
            &old(c).cs, &b.inner_spec().cs, b.is_transpose(),
            &a.inner_spec().cs, a.is_transpose()),
        r is Ok ==> forall|j: int, i: int|
            0 <= j < old(c).ncols_spec() && 0 <= i < old(c).nrows_spec()
                ==> #[trigger] final(c).cs.at(j, i) == spmm_sparse_cell(
                    beta as int, old(c).cs.at(j, i), alpha as int,
                    &b.inner_spec().cs, b.is_transpose(),
                    &a.inner_spec().cs, a.is_transpose(), j, i,
                    cs_cols_or_t(&b.inner_spec().cs, b.is_transpose())),
        !(r is Ok) ==> *final(c) == *old(c),
{
    let at = match &a {
        Op::NoOp(_) => false,
        Op::Transpose(_) => true,
    };
    let am = a.inner_ref();
    let bt = match &b {
        Op::NoOp(_) => false,
        Op::Transpose(_) => true,
    };
    let bm = b.inner_ref();
    spmm_cs_prealloc_op(beta, &mut c.cs, alpha, &bm.cs, bt, &am.cs, at)
}

} // verus!