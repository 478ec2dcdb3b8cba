//! Shared specification functions for the arithmetic kernels.
//!
//! Every multiply kernel's contract states the same cell formula: the
//! destination cell becomes `beta * c + alpha * sum_k A(i,k) * B(k,j)`,
//! in wrapped arithmetic, with `A` and `B` read through their orientation
//! tags. The term closures are built here by named spec functions so that
//! every kernel and law speaks of literally the same functions.

use vstd::prelude::*;
use crate::scalar::{wadd, wmul};
use crate::sums::wsum;
use crate::cs::CsMatrix;
use crate::dense::Matrix;

verus! {

/// One term of a multiply: `alpha * (a * b)` in wrapped arithmetic.
pub open spec fn spmm_term(alpha: int, aik: int, bkj: int) -> int {
    wmul(alpha, wmul(aik, bkj))
}

/// The entry `(i, k)` of a compressed matrix read row-major (`t == false`)
/// or of its transpose (`t == true`).
pub open spec fn cs_at_or_t(am: &CsMatrix, t: bool, i: int, k: int) -> int {
    if t {
        am.at(k, i)
    } else {
        am.at(i, k)
    }
}

/// The cell `(i, k)` of `cs_at_or_t` is explicitly stored.
pub open spec fn cs_stored_or_t(am: &CsMatrix, t: bool, i: int, k: int) -> bool {
    if t {
        am.slice_has(k, i)
    } else {
        am.slice_has(i, k)
    }
}

/// The row count of a compressed matrix under its orientation tag.
pub open spec fn cs_rows_or_t(am: &CsMatrix, t: bool) -> int {
    if t {
        am.minor_dim as int
    } else {
        am.major_dim as int
    }
}

/// The column count of a compressed matrix under its orientation tag.
pub open spec fn cs_cols_or_t(am: &CsMatrix, t: bool) -> int {
    if t {
        am.major_dim as int
    } else {
        am.minor_dim as int
    }
}

/// The entry `(k, j)` of a dense matrix or of its transpose.
pub open spec fn mat_at_or_t(bm: &Matrix, t: bool, k: int, j: int) -> int {
    if t {
        bm.ent(j, k)
    } else {
        bm.ent(k, j)
    }
}

/// The row count of a dense matrix under its orientation tag.
pub open spec fn mat_rows_or_t(bm: &Matrix, t: bool) -> int {
    if t {
        bm.ncols as int
    } else {
        bm.nrows as int
    }
}

/// The column count of a dense matrix under its orientation tag.
pub open spec fn mat_cols_or_t(bm: &Matrix, t: bool) -> int {
    if t {
        bm.nrows as int
    } else {
        bm.ncols as int
    }
}

/// The `k`-indexed term function of the product cell `(i, j)` with a
/// sparse left operand and a dense right operand.
pub open spec fn dense_term_fn(
    alpha: int,
    am: &CsMatrix,
    at: bool,
    bm: &Matrix,
    bt: bool,
    i: int,
    j: int,
) -> spec_fn(int) -> int {
    |k: int| spmm_term(alpha, cs_at_or_t(am, at, i, k), mat_at_or_t(bm, bt, k, j))
}

/// The cell formula of the sparse-dense multiply: the naive triple
/// product over the full inner range `kk`, in wrapped arithmetic.
pub open spec fn spmm_dense_cell(
    beta: int,
    c0: int,
    alpha: int,
    am: &CsMatrix,
    at: bool,
    bm: &Matrix,
    bt: bool,
    i: int,
    j: int,
    kk: int,
) -> int {
    wadd(wmul(beta, c0), wsum(0, kk, dense_term_fn(alpha, am, at, bm, bt, i, j)))
}

/// The entry-position-indexed term function for a stored row slice of the
/// left operand: position `p` contributes `alpha * values[p] * B(minor[p], j)`.
pub open spec fn row_term_fn(
    alpha: int,
    am: &CsMatrix,
    bm: &Matrix,
    bt: bool,
    j: int,
) -> spec_fn(int) -> int {
    |p: int| spmm_term(
        alpha,
        am.values@[p] as int,
        mat_at_or_t(bm, bt, am.minor_indices@[p] as int, j),
    )
}

/// The `k`-indexed term function of the product cell `(i, j)` with both
/// operands sparse.
pub open spec fn sparse_term_fn(
    alpha: int,
    am: &CsMatrix,
    at: bool,
    bs: &CsMatrix,
    bt: bool,
    i: int,
    j: int,
) -> spec_fn(int) -> int {
    |k: int| spmm_term(alpha, cs_at_or_t(am, at, i, k), cs_at_or_t(bs, bt, k, j))
}

/// The cell formula of the sparse-sparse multiply: the naive triple
/// product over the full inner range `kk`, in wrapped arithmetic.
pub open spec fn spmm_sparse_cell(
    beta: int,
    c0: int,
    alpha: int,
    am: &CsMatrix,
    at: bool,
    bs: &CsMatrix,
    bt: bool,
    i: int,
    j: int,
    kk: int,
) -> int {
    wadd(wmul(beta, c0), wsum(0, kk, sparse_term_fn(alpha, am, at, bs, bt, i, j)))
}

/// Every cell stored by the (oriented) source matrix has a slot in the
/// destination pattern.
pub open spec fn spadd_pattern_ok(c: &CsMatrix, am: &CsMatrix, at: bool) -> bool {
    forall|maj: int, min: int|
        0 <= maj < c.major_dim as int && 0 <= min < c.minor_dim as int
            && #[trigger] cs_stored_or_t(am, at, maj, min) ==> c.slice_has(maj, min)
}

/// The cell formula of the scaled sparse addition:
/// `beta * c + alpha * a` in wrapped arithmetic.
pub open spec fn spadd_cell(beta: int, c0: int, alpha: int, a0: int) -> int {
    wadd(wmul(beta, c0), wmul(alpha, a0))
}

} // verus!
