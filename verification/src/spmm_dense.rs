//! Sparse-dense matrix multiplication:
//! `C <- beta * C + alpha * op(A) * op(B)` with `A` compressed and `B`,
//! `C` dense.
//!
//! One core routine traverses the compressed operand row-major: a CSR
//! matrix is consumed directly, and a CSC matrix is consumed by flipping
//! its orientation tag, since column-major storage read row-major is the
//! transpose. The contract states the naive triple product, cell by cell,
//! in wrapped arithmetic.

use vstd::prelude::*;
use crate::scalar::{
    wadd, wmul, mul_w, add_w, fits_i64, lemma_wadd_assoc, lemma_wadd_zero, lemma_wmul_zero,
};
use crate::sums::{wsum, range_has_minor, lemma_wsum_sparse_dense, lemma_wsum_in_range};
use crate::cs::{CsMatrix, lemma_entry_at_pos};
use crate::csc::CscMatrix;
use crate::csr::CsrMatrix;
use crate::dense::{Matrix, lemma_index_bound};
use crate::ops::Op;
use crate::kernel_spec::{
    spmm_term, cs_at_or_t, cs_rows_or_t, cs_cols_or_t, mat_at_or_t, mat_rows_or_t, mat_cols_or_t,
    dense_term_fn, row_term_fn, spmm_dense_cell,
};

verus! {

/// Scale every entry of `c` by `beta`, wrapping.
fn scale_dense(beta: i64, c: &mut Matrix)
    requires
        old(c).wf(),
    ensures
        final(c).wf(),
        final(c).nrows == old(c).nrows,
        final(c).ncols == old(c).ncols,
        forall|q: int| 0 <= q < old(c).data@.len()
            ==> (#[trigger] final(c).data@[q] as int)
                == wmul(beta as int, old(c).data@[q] as int),
        forall|i: int, j: int|
            0 <= i < old(c).nrows as int && 0 <= j < old(c).ncols as int
                ==> #[trigger] final(c).ent(i, j) == wmul(beta as int, old(c).ent(i, j)),
{
    let n = c.data.len();
    let mut p: usize = 0;
    while p < n
        invariant
            n == c.data@.len(),
            p <= n,
            c.nrows == old(c).nrows,
            c.ncols == old(c).ncols,
            c.wf(),
            forall|q: int| 0 <= q < p as int
                ==> (#[trigger] c.data@[q] as int) == wmul(beta as int, old(c).data@[q] as int),
            forall|q: int| p as int <= q < n ==> #[trigger] c.data@[q] == old(c).data@[q],
        decreases n - p,
    {
        let v = c.data[p];
        c.data.set(p, mul_w(beta, v));
        p = p + 1;
    }
    proof {
        assert forall|i: int, j: int|
            0 <= i < old(c).nrows as int && 0 <= j < old(c).ncols as int
                implies #[trigger] c.ent(i, j) == wmul(beta as int, old(c).ent(i, j)) by {
            lemma_index_bound(i, j, c.nrows as int, c.ncols as int);
        }
    }
}

/// The core multiply over compressed storage interpreted row-major
/// (`at == false`) or column-major (`at == true`), with the dense right
/// operand read as-is (`bt == false`) or transposed (`bt == true`).
#[verifier::rlimit(100)]
fn spmm_cs_dense(beta: i64, c: &mut Matrix, alpha: i64, am: &CsMatrix, at: bool, bm: &Matrix, bt: bool)
    requires
        old(c).wf(),
        am.wf(),
        bm.wf(),
        cs_rows_or_t(am, at) == old(c).nrows as int,
        cs_cols_or_t(am, at) == mat_rows_or_t(bm, bt),
        mat_cols_or_t(bm, bt) == old(c).ncols as int,
    ensures
        final(c).wf(),
        final(c).nrows == old(c).nrows,
        final(c).ncols == old(c).ncols,
        forall|i: int, j: int|
            0 <= i < old(c).nrows as int && 0 <= j < old(c).ncols as int
                ==> #[trigger] final(c).ent(i, j) == spmm_dense_cell(
                    beta as int, old(c).ent(i, j), alpha as int, am, at, bm, bt, i, j,
                    cs_cols_or_t(am, at)),
{
    scale_dense(beta, c);
    let ghost c1 = *c;
    let ghost kk = cs_cols_or_t(am, at);
    let nr = c.nrows;
    let nc = c.ncols;
    if !at {
        let mut i: usize = 0;
        while i < am.major_dim
            invariant
                c.wf(),
                am.wf(),
                bm.wf(),
                c.nrows == nr,
                c.ncols == nc,
                i <= am.major_dim,
                am.major_dim as int == nr as int,
                am.minor_dim as int == kk,
                kk == mat_rows_or_t(bm, bt),
                nc as int == mat_cols_or_t(bm, bt),
                c1.nrows == nr,
                c1.ncols == nc,
                c1.wf(),
                forall|i2: int, j2: int|
                    0 <= i2 < i as int && 0 <= j2 < nc as int
                        ==> #[trigger] c.ent(i2, j2) == wadd(
                            c1.ent(i2, j2),
                            wsum(0, kk, dense_term_fn(
                                alpha as int, am, false, bm, bt, i2, j2))),
                forall|i2: int, j2: int|
                    (i as int) <= i2 && i2 < nr as int && 0 <= j2 < nc as int
                        ==> #[trigger] c.ent(i2, j2) == c1.ent(i2, j2),
            decreases am.major_dim - i,
        {
            let (lo, hi) = self_slice(am, i);
            let mut p = lo;
            while p < hi
                invariant
                    c.wf(),
                    am.wf(),
                    bm.wf(),
                    c.nrows == nr,
                    c.ncols == nc,
                    i < am.major_dim,
                    am.major_dim as int == nr as int,
                    am.minor_dim as int == kk,
                    kk == mat_rows_or_t(bm, bt),
                    nc as int == mat_cols_or_t(bm, bt),
                    c1.nrows == nr,
                    c1.ncols == nc,
                    c1.wf(),
                    lo as int == am.lo(i as int),
                    hi as int == am.hi(i as int),
                    lo <= p <= hi,
                    hi as int <= am.nnz(),
                    forall|i2: int, j2: int|
                        0 <= i2 < i as int && 0 <= j2 < nc as int
                            ==> #[trigger] c.ent(i2, j2) == wadd(
                                c1.ent(i2, j2),
                                wsum(0, kk, dense_term_fn(
                                    alpha as int, am, false, bm, bt, i2, j2))),
                    forall|i2: int, j2: int|
                        (i as int) < i2 && i2 < nr as int && 0 <= j2 < nc as int
                            ==> #[trigger] c.ent(i2, j2) == c1.ent(i2, j2),
                    forall|j2: int| 0 <= j2 < nc as int
                        ==> #[trigger] c.ent(i as int, j2) == wadd(
                            c1.ent(i as int, j2),
                            wsum(lo as int, p as int, row_term_fn(
                                alpha as int, am, bm, bt, j2))),
                decreases hi - p,
            {
                let k = am.minor_indices[p];
                let v = am.values[p];
                let mut j: usize = 0;
                while j < nc
                    invariant
                        c.wf(),
                        am.wf(),
                        bm.wf(),
                        c.nrows == nr,
                        c.ncols == nc,
                        j <= nc,
                        i < am.major_dim,
                        am.major_dim as int == nr as int,
                        am.minor_dim as int == kk,
                        kk == mat_rows_or_t(bm, bt),
                        nc as int == mat_cols_or_t(bm, bt),
                        c1.nrows == nr,
                        c1.ncols == nc,
                        c1.wf(),
                        lo as int == am.lo(i as int),
                        hi as int == am.hi(i as int),
                        lo <= p < hi,
                        hi as int <= am.nnz(),
                        k == am.minor_indices@[p as int],
                        v == am.values@[p as int],
                        k < am.minor_dim,
                        forall|i2: int, j2: int|
                            0 <= i2 < i as int && 0 <= j2 < nc as int
                                ==> #[trigger] c.ent(i2, j2) == wadd(
                                    c1.ent(i2, j2),
                                    wsum(0, kk, dense_term_fn(
                                        alpha as int, am, false, bm, bt, i2, j2))),
                        forall|i2: int, j2: int|
                            (i as int) < i2 && i2 < nr as int && 0 <= j2 < nc as int
                                ==> #[trigger] c.ent(i2, j2) == c1.ent(i2, j2),
                        forall|j2: int| 0 <= j2 < j as int
                            ==> #[trigger] c.ent(i as int, j2) == wadd(
                                c1.ent(i as int, j2),
                                wsum(lo as int, p as int + 1, row_term_fn(
                                    alpha as int, am, bm, bt, j2))),
                        forall|j2: int| (j as int) <= j2 < nc as int
                            ==> #[trigger] c.ent(i as int, j2) == wadd(
                                c1.ent(i as int, j2),
                                wsum(lo as int, p as int, row_term_fn(
                                    alpha as int, am, bm, bt, j2))),
                    decreases nc - j,
                {
                    let bval = if bt {
                        bm.get(j, k)
                    } else {
                        bm.get(k, j)
                    };
                    let cur = c.get(i, j);
                    let ghost cprev = *c;
                    c.set(i, j, add_w(cur, mul_w(alpha, mul_w(v, bval))));
                    proof {
                        let f = row_term_fn(alpha as int, am, bm, bt, j as int);
                        assert(bval as int == mat_at_or_t(bm, bt, k as int, j as int));
                        assert(f(p as int) == wmul(
                            alpha as int, wmul(v as int, bval as int)));
                        lemma_wadd_assoc(
                            c1.ent(i as int, j as int),
                            wsum(lo as int, p as int, f),
                            f(p as int));
                        assert(wsum(lo as int, p as int + 1, f)
                            == wadd(wsum(lo as int, p as int, f), f(p as int)));
                        assert(c.ent(i as int, j as int) == wadd(
                            c1.ent(i as int, j as int),
                            wsum(lo as int, p as int + 1, f)));
                    }
                    j = j + 1;
                }
                p = p + 1;
            }
            proof {
                assert forall|j2: int| 0 <= j2 < nc as int
                    implies wsum(lo as int, hi as int, row_term_fn(
                        alpha as int, am, bm, bt, j2))
                        == wsum(0, kk, dense_term_fn(
                            alpha as int, am, false, bm, bt, i as int, j2)) by {
                    let f = row_term_fn(alpha as int, am, bm, bt, j2);
                    let g = dense_term_fn(alpha as int, am, false, bm, bt, i as int, j2);
                    assert(am.lo(i as int) == lo as int);
                    assert forall|pp: int| lo as int <= pp < hi as int
                        implies g(am.minor_indices@[pp] as int) == #[trigger] f(pp) by {
                        lemma_entry_at_pos(am, i as int, pp);
                    }
                    assert forall|k2: int|
                        0 <= k2 < kk && !range_has_minor(
                            am.minor_indices@, lo as int, hi as int, k2)
                            implies #[trigger] g(k2) == 0 by {
                        assert(!am.slice_has(i as int, k2));
                        assert(cs_at_or_t(am, false, i as int, k2) == 0);
                        lemma_wmul_zero(mat_at_or_t(bm, bt, k2, j2));
                        lemma_wmul_zero(alpha as int);
                    }
                    lemma_wsum_sparse_dense(
                        am.minor_indices@, lo as int, hi as int, kk, f, g);
                }
            }
            i = i + 1;
        }
    } else {
        let mut m: usize = 0;
        while m < am.major_dim
            invariant
                c.wf(),
                am.wf(),
                bm.wf(),
                c.nrows == nr,
                c.ncols == nc,
                m <= am.major_dim,
                am.major_dim as int == kk,
                am.minor_dim as int == nr as int,
                kk == mat_rows_or_t(bm, bt),
                nc as int == mat_cols_or_t(bm, bt),
                c1.nrows == nr,
                c1.ncols == nc,
                c1.wf(),
                forall|i2: int, j2: int|
                    0 <= i2 < nr as int && 0 <= j2 < nc as int
                        ==> #[trigger] c.ent(i2, j2) == wadd(
                            c1.ent(i2, j2),
                            wsum(0, m as int, dense_term_fn(
                                alpha as int, am, true, bm, bt, i2, j2))),
            decreases am.major_dim - m,
        {
            let (lo, hi) = self_slice(am, m);
            let mut p = lo;
            while p < hi
                invariant
                    c.wf(),
                    am.wf(),
                    bm.wf(),
                    c.nrows == nr,
                    c.ncols == nc,
                    m < am.major_dim,
                    am.major_dim as int == kk,
                    am.minor_dim as int == nr as int,
                    kk == mat_rows_or_t(bm, bt),
                    nc as int == mat_cols_or_t(bm, bt),
                    c1.nrows == nr,
                    c1.ncols == nc,
                    c1.wf(),
                    lo as int == am.lo(m as int),
                    hi as int == am.hi(m as int),
                    lo <= p <= hi,
                    hi as int <= am.nnz(),
                    forall|i2: int, j2: int|
                        0 <= i2 < nr as int && 0 <= j2 < nc as int
                            && range_has_minor(am.minor_indices@, lo as int, p as int, i2)
                            ==> #[trigger] c.ent(i2, j2) == wadd(
                                c1.ent(i2, j2),
                                wsum(0, m as int + 1, dense_term_fn(
                                    alpha as int, am, true, bm, bt, i2, j2))),
                    forall|i2: int, j2: int|
                        0 <= i2 < nr as int && 0 <= j2 < nc as int
                            && !range_has_minor(am.minor_indices@, lo as int, p as int, i2)
                            ==> #[trigger] c.ent(i2, j2) == wadd(
                                c1.ent(i2, j2),
                                wsum(0, m as int, dense_term_fn(
                                    alpha as int, am, true, bm, bt, i2, j2))),
                decreases hi - p,
            {
                let irow = am.minor_indices[p];
                let v = am.values[p];
                proof {
                    lemma_entry_at_pos(am, m as int, p as int);
                    assert(!range_has_minor(
                        am.minor_indices@, lo as int, p as int, irow as int));
                }
                let mut j: usize = 0;
                while j < nc
                    invariant
                        c.wf(),
                        am.wf(),
                        bm.wf(),
                        c.nrows == nr,
                        c.ncols == nc,
                        j <= nc,
                        m < am.major_dim,
                        am.major_dim as int == kk,
                        am.minor_dim as int == nr as int,
                        kk == mat_rows_or_t(bm, bt),
                        nc as int == mat_cols_or_t(bm, bt),
                        c1.nrows == nr,
                        c1.ncols == nc,
                        c1.wf(),
                        lo as int == am.lo(m as int),
                        hi as int == am.hi(m as int),
                        lo <= p < hi,
                        hi as int <= am.nnz(),
                        irow == am.minor_indices@[p as int],
                        v == am.values@[p as int],
                        irow < am.minor_dim,
                        am.at(m as int, irow as int) == v as int,
                        !range_has_minor(am.minor_indices@, lo as int, p as int, irow as int),
                        forall|i2: int, j2: int|
                            0 <= i2 < nr as int && 0 <= j2 < nc as int && i2 != irow as int
                                && range_has_minor(
                                    am.minor_indices@, lo as int, p as int, i2)
                                ==> #[trigger] c.ent(i2, j2) == wadd(
                                    c1.ent(i2, j2),
                                    wsum(0, m as int + 1, dense_term_fn(
                                        alpha as int, am, true, bm, bt, i2, j2))),
                        forall|i2: int, j2: int|
                            0 <= i2 < nr as int && 0 <= j2 < nc as int && i2 != irow as int
                                && !range_has_minor(
                                    am.minor_indices@, lo as int, p as int, i2)
                                ==> #[trigger] c.ent(i2, j2) == wadd(
                                    c1.ent(i2, j2),
                                    wsum(0, m as int, dense_term_fn(
                                        alpha as int, am, true, bm, bt, i2, j2))),
                        forall|j2: int| 0 <= j2 < j as int
                            ==> #[trigger] c.ent(irow as int, j2) == wadd(
                                c1.ent(irow as int, j2),
                                wsum(0, m as int + 1, dense_term_fn(
                                    alpha as int, am, true, bm, bt, irow as int, j2))),
                        forall|j2: int| (j as int) <= j2 < nc as int
                            ==> #[trigger] c.ent(irow as int, j2) == wadd(
                                c1.ent(irow as int, j2),
                                wsum(0, m as int, dense_term_fn(
                                    alpha as int, am, true, bm, bt, irow as int, j2))),
                    decreases nc - j,
                {
                    let bval = if bt {
                        bm.get(j, m)
                    } else {
                        bm.get(m, j)
                    };
                    let cur = c.get(irow, j);
                    c.set(irow, j, add_w(cur, mul_w(alpha, mul_w(v, bval))));
                    proof {
                        let g = dense_term_fn(
                            alpha as int, am, true, bm, bt, irow as int, j as int);
                        assert(bval as int == mat_at_or_t(bm, bt, m as int, j as int));
                        assert(cs_at_or_t(am, true, irow as int, m as int) == v as int);
                        assert(g(m as int) == wmul(
                            alpha as int, wmul(v as int, bval as int)));
                        lemma_wadd_assoc(
                            c1.ent(irow as int, j as int),
                            wsum(0, m as int, g),
                            g(m as int));
                        assert(wsum(0, m as int + 1, g)
                            == wadd(wsum(0, m as int, g), g(m as int)));
                    }
                    j = j + 1;
                }
                proof {
                    assert forall|i2: int|
                        0 <= i2 < nr as int
                            && range_has_minor(
                                am.minor_indices@, lo as int, p as int + 1, i2)
                            && !range_has_minor(
                                am.minor_indices@, lo as int, p as int, i2)
                            implies i2 == irow as int by {
                        let w = choose|w: int|
                            lo as int <= w < p as int + 1
                                && #[trigger] am.minor_indices@[w] == i2;
                        assert(w == p as int);
                    }
                }
                p = p + 1;
            }
            proof {
                assert forall|i2: int, j2: int|
                    0 <= i2 < nr as int && 0 <= j2 < nc as int
                        implies #[trigger] c.ent(i2, j2) == wadd(
                            c1.ent(i2, j2),
                            wsum(0, m as int + 1, dense_term_fn(
                                alpha as int, am, true, bm, bt, i2, j2))) by {
                    let g = dense_term_fn(alpha as int, am, true, bm, bt, i2, j2);
                    if !range_has_minor(am.minor_indices@, lo as int, hi as int, i2) {
                        assert(!am.slice_has(m as int, i2));
                        assert(cs_at_or_t(am, true, i2, m as int) == 0);
                        lemma_wmul_zero(mat_at_or_t(bm, bt, m as int, j2));
                        lemma_wmul_zero(alpha as int);
                        assert(g(m as int) == 0);
                        lemma_wsum_in_range(0, m as int, g);
                        lemma_wadd_zero(wsum(0, m as int, g));
                        assert(wsum(0, m as int + 1, g) == wsum(0, m as int, g));
                    }
                }
            }
            m = m + 1;
        }
    }
}

/// The slice bounds of `maj` (helper so both arms share one call form).
fn self_slice(am: &CsMatrix, maj: usize) -> (r: (usize, usize))
    requires
        am.wf(),
        maj < am.major_dim,
    ensures
        r.0 as int == am.lo(maj as int),
        r.1 as int == am.hi(maj as int),
        0 <= r.0 as int <= r.1 as int <= am.nnz(),
{
    am.slice_bounds(maj)
}

/// Sparse-dense matrix multiplication
/// `C <- beta * C + alpha * op(A) * op(B)` with `A` in CSR form.
pub fn spmm_csr_dense(beta: i64, c: &mut Matrix, alpha: i64, a: Op<&CsrMatrix>, b: Op<&Matrix>)
    requires
        old(c).wf(),
        a.inner_spec().wf(),
        b.inner_spec().wf(),
        cs_rows_or_t(&a.inner_spec().cs, a.is_transpose()) == old(c).nrows as int,
        cs_cols_or_t(&a.inner_spec().cs, a.is_transpose())
            == mat_rows_or_t(b.inner_spec(), b.is_transpose()),
        mat_cols_or_t(b.inner_spec(), b.is_transpose()) == old(c).ncols as int,
    ensures
        final(c).wf(),
        final(c).nrows == old(c).nrows,
        final(c).ncols == old(c).ncols,
        forall|i: int, j: int|
            0 <= i < old(c).nrows as int && 0 <= j < old(c).ncols as int
                ==> #[trigger] final(c).ent(i, j) == spmm_dense_cell(
                    beta as int, old(c).ent(i, j), alpha as int,
                    &a.inner_spec().cs, a.is_transpose(),
                    b.inner_spec(), b.is_transpose(), i, j,
                    cs_cols_or_t(&a.inner_spec().cs, a.is_transpose())),
{
    let at = match &a {
        Op::NoOp(_) => false,
        Op::Transpose(_) => true,
    };
    let am = a.inner_ref();
    let bt = match &b {
        Op::NoOp(_) => false,
        Op::Transpose(_) => true,
    };
    let bm = b.inner_ref();
    spmm_cs_dense(beta, c, alpha, &am.cs, at, bm, bt);
}

/// Sparse-dense matrix multiplication
/// `C <- beta * C + alpha * op(A) * op(B)` with `A` in CSC form.
///
/// A CSC matrix read row-major is the transpose of its compressed
/// storage, so the orientation tag is flipped before the core multiply.
pub fn spmm_csc_dense(beta: i64, c: &mut Matrix, alpha: i64, a: Op<&CscMatrix>, b: Op<&Matrix>)
    requires
        old(c).wf(),
        a.inner_spec().wf(),
        b.inner_spec().wf(),
        cs_rows_or_t(&a.inner_spec().cs, !a.is_transpose()) == old(c).nrows as int,
        cs_cols_or_t(&a.inner_spec().cs, !a.is_transpose())
            == mat_rows_or_t(b.inner_spec(), b.is_transpose()),
        mat_cols_or_t(b.inner_spec(), b.is_transpose()) == old(c).ncols as int,
    ensures
        final(c).wf(),
        final(c).nrows == old(c).nrows,
        final(c).ncols == old(c).ncols,
        forall|i: int, j: int|
            0 <= i < old(c).nrows as int && 0 <= j < old(c).ncols as int
                ==> #[trigger] final(c).ent(i, j) == spmm_dense_cell(
                    beta as int, old(c).ent(i, j), alpha as int,
                    &a.inner_spec().cs, !a.is_transpose(),
                    b.inner_spec(), b.is_transpose(), i, j,
                    cs_cols_or_t(&a.inner_spec().cs, !a.is_transpose())),
{
    let at = match &a {
        Op::NoOp(_) => true,
        Op::Transpose(_) => false,
    };
    let am = a.inner_ref();
    let bt = match &b {
        Op::NoOp(_) => false,
        Op::Transpose(_) => true,
    };
    let bm = b.inner_ref();
    spmm_cs_dense(beta, c, alpha, &am.cs, at, bm, bt);
}

} // verus!
