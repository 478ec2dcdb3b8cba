//! Algebraic laws relating the kernels' contracts.
//!
//! These proof functions state, and Verus proves, properties that span
//! several kernels: the sparse-dense and sparse-sparse multiplies agree
//! with each other (both compute the naive triple product, cell by cell),
//! and the scaled sparse addition is linear in the scaling factor of its
//! source.

use vstd::prelude::*;
use crate::scalar::{
    wadd, wsub, wmul, wdiv, wrap, tdiv, fits_i64, lemma_wrap_in_range, lemma_wrap_id,
    lemma_wadd_assoc, lemma_wadd_comm, lemma_wadd_zero, lemma_wadd_wrap_left, lemma_wmul_one,
    lemma_wmul_zero, lemma_wmul_distrib,
};
use crate::sums::{
    wsum, range_has_minor, lemma_wsum_congruence, lemma_wsum_in_range, lemma_wsum_tail_zero,
    lemma_wsum_except, lemma_wsum_sparse_dense, lemma_wsum_zero,
};
use crate::solve::{fwd_pre, fwd_x, bwd_acc, bwd_x};
use crate::cs::{lemma_entry_at_pos, lemma_slice_in_bounds};
use crate::cs::CsMatrix;
use crate::dense::Matrix;
use crate::kernel_spec::{
    cs_at_or_t, mat_at_or_t, cs_cols_or_t, mat_rows_or_t, mat_cols_or_t, dense_term_fn,
    sparse_term_fn, spmm_dense_cell, spmm_sparse_cell, spadd_cell,
};

verus! {

/// Every cell value of a compressed matrix is a valid 64-bit value.
pub proof fn lemma_cs_at_fits(m: &CsMatrix, maj: int, min: int)
    ensures
        fits_i64(m.at(maj, min)),
{
}

/// The sparse-dense multiply and the sparse-sparse multiply agree with
/// the same naive triple product: when the dense operands mirror the
/// sparse ones cell for cell, every cell formula of `spmm_csr_dense` (or
/// `spmm_csc_dense`) coincides with the cell formula of the preallocated
/// sparse multiply.
pub proof fn lemma_spmm_dense_sparse_agree(
    beta: int,
    alpha: int,
    am: &CsMatrix,
    at: bool,
    bm: &Matrix,
    bs: &CsMatrix,
    bt: bool,
    c0d: &Matrix,
    c0s: &CsMatrix,
)
    requires
        mat_rows_or_t(bm, bt) == cs_cols_or_t(am, at),
        forall|k: int, j: int|
            0 <= k < cs_cols_or_t(am, at) && 0 <= j < mat_cols_or_t(bm, bt)
                ==> #[trigger] mat_at_or_t(bm, bt, k, j) == cs_at_or_t(bs, bt, k, j),
        forall|i: int, j: int|
            0 <= i < c0s.major_dim as int && 0 <= j < c0s.minor_dim as int
                ==> #[trigger] c0d.ent(i, j) == c0s.at(i, j),
    ensures
        forall|i: int, j: int|
            0 <= i < c0s.major_dim as int && 0 <= j < c0s.minor_dim as int
                && 0 <= j < mat_cols_or_t(bm, bt)
                ==> #[trigger] spmm_dense_cell(
                    beta, c0d.ent(i, j), alpha, am, at, bm, bt, i, j, cs_cols_or_t(am, at))
                    == spmm_sparse_cell(
                        beta, c0s.at(i, j), alpha, am, at, bs, bt, i, j,
                        cs_cols_or_t(am, at)),
{
    assert forall|i: int, j: int|
        0 <= i < c0s.major_dim as int && 0 <= j < c0s.minor_dim as int
            && 0 <= j < mat_cols_or_t(bm, bt)
            implies #[trigger] spmm_dense_cell(
                beta, c0d.ent(i, j), alpha, am, at, bm, bt, i, j, cs_cols_or_t(am, at))
                == spmm_sparse_cell(
                    beta, c0s.at(i, j), alpha, am, at, bs, bt, i, j,
                    cs_cols_or_t(am, at)) by {
        lemma_wsum_congruence(
            0,
            cs_cols_or_t(am, at),
            dense_term_fn(alpha, am, at, bm, bt, i, j),
            sparse_term_fn(alpha, am, at, bs, bt, i, j),
        );
    }
}

/// The scaled sparse addition is linear in the scaling of the source:
/// adding `alpha1 + alpha2` times a cell at once equals adding `alpha1`
/// times and then, on the result kept unscaled, `alpha2` times, for every
/// destination and source cell value and with the pattern fixed.
pub proof fn lemma_spadd_linear(beta: int, c0: int, alpha1: int, alpha2: int, a0: int)
    requires
        fits_i64(c0),
        fits_i64(a0),
    ensures
        spadd_cell(beta, c0, wadd(alpha1, alpha2), a0)
            == spadd_cell(1, spadd_cell(beta, c0, alpha1, a0), alpha2, a0),
{
    lemma_wmul_distrib(alpha1, alpha2, a0);
    lemma_wrap_in_range(wmul(beta, c0) + wmul(alpha1, a0));
    lemma_wmul_one(spadd_cell(beta, c0, alpha1, a0));
    lemma_wadd_assoc(wmul(beta, c0), wmul(alpha1, a0), wmul(alpha2, a0));
}

/// The matrix form of the linearity law: for any destination cell of a
/// preallocated scaled addition (any matrices, any orientation tag, with
/// the destination pattern fixed), folding in `alpha1 + alpha2` at once
/// gives the same cell as folding `alpha1` and then `alpha2` with the
/// intermediate result kept unscaled.
pub proof fn lemma_spadd_prealloc_linear(
    c0: &CsMatrix,
    a: &CsMatrix,
    at: bool,
    beta: int,
    alpha1: int,
    alpha2: int,
    maj: int,
    min: int,
)
    ensures
        spadd_cell(beta, c0.at(maj, min), wadd(alpha1, alpha2), cs_at_or_t(a, at, maj, min))
            == spadd_cell(
                1,
                spadd_cell(beta, c0.at(maj, min), alpha1, cs_at_or_t(a, at, maj, min)),
                alpha2,
                cs_at_or_t(a, at, maj, min)),
{
    lemma_cs_at_fits(c0, maj, min);
    if at {
        lemma_cs_at_fits(a, min, maj);
    } else {
        lemma_cs_at_fits(a, maj, min);
    }
    lemma_spadd_linear(
        beta, c0.at(maj, min), alpha1, alpha2, cs_at_or_t(a, at, maj, min));
}

/// The matrix is lower triangular with a stored unit diagonal: every
/// column stores its diagonal cell with value one, and every stored cell
/// lies on or below the diagonal (the stored minor index is at least the
/// column index).
pub open spec fn unit_lower_triangular(l: &CsMatrix) -> bool {
    &&& (forall|k: int| 0 <= k < l.major_dim as int
        ==> #[trigger] l.slice_has(k, k) && l.at(k, k) == 1)
    &&& (forall|maj: int, min: int|
        0 <= maj < l.major_dim as int && #[trigger] l.slice_has(maj, min) ==> min >= maj)
}

/// The term of row `i` of the product `L x`: column `j` contributes
/// `L[i][j] * x[j]` with `x` the forward-substitution solution.
pub open spec fn solve_product_term_fn(l: &CsMatrix, binit: spec_fn(int) -> int, i: int)
    -> spec_fn(int) -> int {
    |j: int| wmul(l.at(j, i), fwd_x(l, binit, j))
}

/// Dividing a cell value by one is the identity.
proof fn lemma_wdiv_one(v: int)
    requires
        fits_i64(v),
    ensures
        wdiv(v, 1) == v,
{
    if v > 0 {
        vstd::arithmetic::div_mod::lemma_div_basics_1(v);
        assert(tdiv(v, 1) == v);
    } else if v < 0 {
        vstd::arithmetic::div_mod::lemma_div_basics_1(-v);
        assert(tdiv(v, 1) == v);
    }
    lemma_wrap_id(v);
}

/// Subtracting a term and then adding it back cancels, in wrapped
/// arithmetic.
proof fn lemma_wsub_wadd_cancel(prev: int, t: int, s: int)
    ensures
        wadd(wsub(prev, t), wadd(s, t)) == wadd(prev, s),
{
    lemma_wadd_wrap_left(prev - t, wrap(s + t));
    lemma_wadd_comm(prev - t, wrap(s + t));
    lemma_wadd_wrap_left(s + t, prev - t);
    lemma_wadd_comm(s + t, prev - t);
    assert((prev - t) + (s + t) == prev + s);
}

/// The eliminated right-hand side is a cell value.
proof fn lemma_fwd_pre_fits(l: &CsMatrix, binit: spec_fn(int) -> int, i: int, m: int)
    requires
        fits_i64(binit(i)),
    ensures
        fits_i64(fwd_pre(l, binit, i, m)),
    decreases m,
{
    if m > 0 {
        lemma_fwd_pre_fits(l, binit, i, m - 1);
        lemma_wrap_in_range(
            fwd_pre(l, binit, i, m - 1) - wmul(l.at(m - 1, i), fwd_x(l, binit, m - 1)));
    }
}

/// After eliminating the first `m` columns, what was subtracted from row
/// `i` is exactly what the first `m` product terms add back.
proof fn lemma_solve_partial(l: &CsMatrix, binit: spec_fn(int) -> int, i: int, m: int)
    requires
        l.wf(),
        l.major_dim == l.minor_dim,
        unit_lower_triangular(l),
        0 <= m <= i,
        i < l.major_dim as int,
        forall|t: int| #[trigger] fits_i64(binit(t)),
    ensures
        wadd(fwd_pre(l, binit, i, m), wsum(0, m, solve_product_term_fn(l, binit, i)))
            == binit(i),
    decreases m,
{
    let f = solve_product_term_fn(l, binit, i);
    if m == 0 {
        assert(fits_i64(binit(i)));
        lemma_wadd_zero(binit(i));
    } else {
        lemma_solve_partial(l, binit, i, m - 1);
        let prev = fwd_pre(l, binit, i, m - 1);
        let s = wsum(0, m - 1, f);
        if l.slice_has(m - 1, i) && m - 1 < i {
            assert(fwd_x(l, binit, m - 1)
                == wdiv(fwd_pre(l, binit, m - 1, m - 1), l.at(m - 1, m - 1)));
            assert(f(m - 1) == wmul(l.at(m - 1, i), fwd_x(l, binit, m - 1)));
            lemma_wsub_wadd_cancel(prev, f(m - 1), s);
        } else {
            assert(l.at(m - 1, i) == 0);
            lemma_wmul_zero(fwd_x(l, binit, m - 1));
            assert(f(m - 1) == 0);
            lemma_wsum_in_range(0, m - 1, f);
            lemma_wadd_zero(s);
        }
    }
}

/// The triangular-solve round trip: for a unit-lower-triangular matrix
/// `L`, multiplying the forward-substitution solution back reproduces the
/// original right-hand side exactly, cell for cell. (With a general
/// nonzero diagonal the truncated division loses remainders, so the round
/// trip holds only for exactly solvable systems; the unit diagonal makes
/// every division exact.)
pub proof fn lemma_solve_round_trip(l: &CsMatrix, binit: spec_fn(int) -> int, i: int)
    requires
        l.wf(),
        l.major_dim == l.minor_dim,
        unit_lower_triangular(l),
        0 <= i < l.major_dim as int,
        forall|t: int| #[trigger] fits_i64(binit(t)),
    ensures
        wsum(0, l.major_dim as int, solve_product_term_fn(l, binit, i)) == binit(i),
{
    let f = solve_product_term_fn(l, binit, i);
    let n = l.major_dim as int;
    lemma_solve_partial(l, binit, i, i);
    lemma_fwd_pre_fits(l, binit, i, i);
    assert(l.at(i, i) == 1);
    lemma_wdiv_one(fwd_pre(l, binit, i, i));
    assert(fwd_x(l, binit, i) == fwd_pre(l, binit, i, i));
    assert(fits_i64(fwd_x(l, binit, i)));
    lemma_wmul_one(fwd_x(l, binit, i));
    assert(f(i) == fwd_x(l, binit, i));
    assert(wsum(0, i + 1, f) == wadd(wsum(0, i, f), f(i)));
    lemma_wadd_comm(wsum(0, i, f), f(i));
    lemma_wadd_comm(fwd_pre(l, binit, i, i), wsum(0, i, f));
    assert(wsum(0, i + 1, f) == binit(i));
    assert forall|j: int| i + 1 <= j < n implies #[trigger] f(j) == 0 by {
        if l.slice_has(j, i) {
            assert(i >= j);
        }
        assert(l.at(j, i) == 0);
        lemma_wmul_zero(fwd_x(l, binit, j));
    }
    lemma_wsum_tail_zero(0, i + 1, n, f);
}

/// The term of row `i` of the product `L^T x`: column `j` of the
/// transposed matrix contributes `L[j][i] * x[j]` with `x` the
/// backward-substitution solution.
pub open spec fn solve_t_product_term_fn(
    l: &CsMatrix,
    binit: spec_fn(int) -> int,
    n: int,
    i: int,
) -> spec_fn(int) -> int {
    |j: int| wmul(l.at(i, j), bwd_x(l, binit, n, j))
}

/// The position-indexed tail terms of one column in the backward
/// substitution.
pub open spec fn bwd_pos_term_fn(l: &CsMatrix, binit: spec_fn(int) -> int, n: int)
    -> spec_fn(int) -> int {
    |p: int| wmul(l.values@[p] as int, bwd_x(l, binit, n, l.minor_indices@[p] as int))
}

/// The accumulated backward right-hand side is a cell value.
proof fn lemma_bwd_acc_fits(l: &CsMatrix, binit: spec_fn(int) -> int, n: int, i: int, q: int)
    requires
        fits_i64(binit(i)),
    ensures
        fits_i64(bwd_acc(l, binit, n, i, q)),
    decreases n - i, q,
{
    if !(q <= l.entry_pos(i, i) + 1 || q <= 0) {
        lemma_bwd_acc_fits(l, binit, n, i, q - 1);
        lemma_wrap_in_range(
            bwd_acc(l, binit, n, i, q - 1)
                - wmul(l.values@[q - 1] as int,
                    bwd_x(l, binit, n, l.minor_indices@[q - 1] as int)));
    }
}

/// What the backward substitution has subtracted from row `i` up to
/// position `q` is exactly what the corresponding tail terms add back.
proof fn lemma_bwd_partial(l: &CsMatrix, binit: spec_fn(int) -> int, i: int, q: int)
    requires
        l.wf(),
        l.major_dim == l.minor_dim,
        unit_lower_triangular(l),
        0 <= i < l.major_dim as int,
        l.entry_pos(i, i) + 1 <= q,
        q <= l.hi(i),
        forall|t: int| #[trigger] fits_i64(binit(t)),
    ensures
        wadd(
            bwd_acc(l, binit, l.major_dim as int, i, q),
            wsum(l.entry_pos(i, i) + 1, q, bwd_pos_term_fn(l, binit, l.major_dim as int)),
        ) == binit(i),
    decreases q,
{
    let n = l.major_dim as int;
    let d = l.entry_pos(i, i);
    let f = bwd_pos_term_fn(l, binit, n);
    assert(l.slice_has(i, i));
    lemma_entry_at_pos(l, i, d);
    lemma_slice_in_bounds(l, i);
    if q == d + 1 {
        assert(bwd_acc(l, binit, n, i, q) == binit(i));
        assert(fits_i64(binit(i)));
        lemma_wadd_zero(binit(i));
    } else {
        lemma_bwd_partial(l, binit, i, q - 1);
        let prev = bwd_acc(l, binit, n, i, q - 1);
        let s = wsum(d + 1, q - 1, f);
        assert(l.minor_indices@[d] == i);
        assert(i < l.minor_indices@[q - 1] as int);
        assert((l.minor_indices@[q - 1] as int) < n);
        assert(bwd_acc(l, binit, n, i, q) == wsub(prev, f(q - 1)));
        lemma_wsub_wadd_cancel(prev, f(q - 1), s);
    }
}

/// The triangular-solve round trip for the transpose variant: for a
/// unit-lower-triangular matrix `L`, multiplying the
/// backward-substitution solution by `L^T` reproduces the original
/// right-hand side exactly, cell for cell.
#[verifier::rlimit(60)]
pub proof fn lemma_solve_transpose_round_trip(
    l: &CsMatrix,
    binit: spec_fn(int) -> int,
    i: int,
)
    requires
        l.wf(),
        l.major_dim == l.minor_dim,
        unit_lower_triangular(l),
        0 <= i < l.major_dim as int,
        forall|t: int| #[trigger] fits_i64(binit(t)),
    ensures
        wsum(0, l.major_dim as int, solve_t_product_term_fn(l, binit, l.major_dim as int, i))
            == binit(i),
{
    let n = l.major_dim as int;
    let d = l.entry_pos(i, i);
    let g = solve_t_product_term_fn(l, binit, n, i);
    let f = bwd_pos_term_fn(l, binit, n);
    assert(l.slice_has(i, i));
    lemma_entry_at_pos(l, i, d);
    lemma_slice_in_bounds(l, i);
    // the tail terms of column i, summed over the whole index range with
    // the diagonal zeroed out
    let g2 = |j: int| if j == i { 0int } else { g(j) };
    assert forall|pp: int| d + 1 <= pp < l.hi(i)
        implies g2(l.minor_indices@[pp] as int) == #[trigger] f(pp) by {
        lemma_entry_at_pos(l, i, pp);
        assert(l.minor_indices@[d] < l.minor_indices@[pp]);
    }
    assert forall|k: int|
        0 <= k < n && !range_has_minor(l.minor_indices@, d + 1, l.hi(i), k)
            implies #[trigger] g2(k) == 0 by {
        if k != i {
            if l.slice_has(i, k) {
                let w = l.entry_pos(i, k);
                lemma_entry_at_pos(l, i, w);
                if w < d {
                    assert(l.minor_indices@[w] < l.minor_indices@[d]);
                    assert(k < i);
                    assert(k >= i);
                }
                if w == d {
                    assert(k == i);
                }
                assert(d + 1 <= w < l.hi(i));
            }
            assert(l.at(i, k) == 0);
            lemma_wmul_zero(bwd_x(l, binit, n, k));
        }
    }
    lemma_wsum_sparse_dense(l.minor_indices@, d + 1, l.hi(i), n, f, g2);
    assert(wsum(d + 1, l.hi(i), f) == wsum(0, n, g2));
    // reinsert the diagonal term
    assert(g(i) == wmul(1, bwd_x(l, binit, n, i)));
    lemma_bwd_acc_fits(l, binit, n, i, l.hi(i));
    lemma_wdiv_one(bwd_acc(l, binit, n, i, l.hi(i)));
    assert(bwd_x(l, binit, n, i) == bwd_acc(l, binit, n, i, l.hi(i)));
    lemma_wmul_one(bwd_x(l, binit, n, i));
    assert forall|k: int| 0 <= k < n && k != i implies #[trigger] g(k) == g2(k) by {}
    lemma_wsum_except(0, n, g, g2, i);
    assert(wsum(0, n, g) == wadd(wsum(0, n, g2), g(i)));
    lemma_wadd_comm(wsum(0, n, g2), g(i));
    lemma_bwd_partial(l, binit, i, l.hi(i));
}

} // verus!
