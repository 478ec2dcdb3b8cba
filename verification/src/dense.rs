//! Dense, dynamically sized matrices in row-major order.
//!
//! The sparse kernels read and write their dense operands through this
//! type. It also carries the norm operations: the squared Euclidean norm
//! is the wrapped sum of squared entries, and the norm itself is the floor
//! of its square root (zero when the wrapped sum is negative).

use vstd::prelude::*;
use crate::scalar::{
    wadd, wmul, wsub, wdiv, wabs, wpow, sqrt_floor, root_floor, fits_i64, add_w, mul_w,
    sub_w, div_w, abs_w, isqrt, pow_w, iroot,
};
use crate::sums::wsum;

verus! {

/// A dense `nrows x ncols` matrix stored row-major.
pub struct Matrix {
    pub nrows: usize,
    pub ncols: usize,
    pub data: Vec<i64>,
}

/// A row-major index lies inside the data array.
pub proof fn lemma_index_bound(i: int, j: int, nrows: int, ncols: int)
    requires
        0 <= i < nrows,
        0 <= j < ncols,
    ensures
        0 <= i * ncols + j < nrows * ncols,
{
    assert(0 <= i * ncols + j < nrows * ncols) by (nonlinear_arith)
        requires
            0 <= i < nrows,
            0 <= j < ncols,
    ;
}

/// Distinct in-range positions map to distinct row-major indices.
pub proof fn lemma_index_injective(i1: int, j1: int, i2: int, j2: int, nrows: int, ncols: int)
    requires
        0 <= i1 < nrows,
        0 <= j1 < ncols,
        0 <= i2 < nrows,
        0 <= j2 < ncols,
        !(i1 == i2 && j1 == j2),
    ensures
        i1 * ncols + j1 != i2 * ncols + j2,
{
    assert(i1 * ncols + j1 != i2 * ncols + j2) by (nonlinear_arith)
        requires
            0 <= i1 < nrows,
            0 <= j1 < ncols,
            0 <= i2 < nrows,
            0 <= j2 < ncols,
            !(i1 == i2 && j1 == j2),
    ;
}

impl Matrix {
    /// The data array holds exactly one cell per position.
    pub open spec fn wf(&self) -> bool {
        &&& self.data@.len() == self.nrows as int * self.ncols as int
        &&& self.nrows as int * self.ncols as int <= usize::MAX as int
    }

    /// The entry at row `i`, column `j`.
    pub open spec fn ent(&self, i: int, j: int) -> int {
        self.data@[i * self.ncols as int + j] as int
    }

    /// The wrapped sum of the squares of all entries.
    pub open spec fn norm_squared_spec(&self) -> int {
        wsum(0, self.data@.len() as int, |p: int| wmul(self.data@[p] as int, self.data@[p] as int))
    }

    /// The floor square root of the squared norm (zero if that wrapped
    /// sum came out negative).
    pub open spec fn norm_spec(&self) -> int {
        if self.norm_squared_spec() < 0 {
            0
        } else {
            sqrt_floor(self.norm_squared_spec())
        }
    }

    /// An all-zero matrix of the given dimensions.
    pub fn zeros(nrows: usize, ncols: usize) -> (r: Matrix)
        requires
            nrows as int * ncols as int <= usize::MAX as int,
        ensures
            r.wf(),
            r.nrows == nrows,
            r.ncols == ncols,
            forall|i: int, j: int|
                0 <= i < nrows && 0 <= j < ncols ==> r.ent(i, j) == 0,
    {
        let n = nrows * ncols;
        let mut data: Vec<i64> = Vec::new();
        let mut p: usize = 0;
        while p < n
            invariant
                p <= n,
                data@.len() == p as int,
                forall|q: int| 0 <= q < p ==> data@[q] == 0i64,
            decreases n - p,
        {
            data.push(0);
            p = p + 1;
        }
        let r = Matrix { nrows, ncols, data };
        proof {
            assert forall|i: int, j: int|
                0 <= i < nrows && 0 <= j < ncols implies r.ent(i, j) == 0 by {
                lemma_index_bound(i, j, nrows as int, ncols as int);
            }
        }
        r
    }

    /// A matrix over the given row-major data; fails when the data length
    /// does not match the dimensions.
    pub fn from_row_major(nrows: usize, ncols: usize, data: Vec<i64>) -> (r: Option<Matrix>)
        ensures
            match r {
                Some(m) => {
                    &&& m.wf()
                    &&& m.nrows == nrows
                    &&& m.ncols == ncols
                    &&& m.data@ == data@
                    &&& data@.len() == nrows as int * ncols as int
                },
                None => data@.len() != nrows as int * ncols as int
                    || nrows as int * ncols as int > usize::MAX as int,
            },
    {
        match nrows.checked_mul(ncols) {
            Some(n) => {
                if data.len() == n {
                    Some(Matrix { nrows, ncols, data })
                } else {
                    None
                }
            },
            None => None,
        }
    }

    /// The number of rows.
    pub fn nrows(&self) -> (r: usize)
        ensures
            r == self.nrows,
    {
        self.nrows
    }

    /// The number of columns.
    pub fn ncols(&self) -> (r: usize)
        ensures
            r == self.ncols,
    {
        self.ncols
    }

    /// Read the entry at row `i`, column `j`.
    pub fn get(&self, i: usize, j: usize) -> (r: i64)
        requires
            self.wf(),
            i < self.nrows,
            j < self.ncols,
        ensures
            r as int == self.ent(i as int, j as int),
    {
        proof {
            lemma_index_bound(i as int, j as int, self.nrows as int, self.ncols as int);
        }
        self.data[i * self.ncols + j]
    }

    /// Write the entry at row `i`, column `j`.
    pub fn set(&mut self, i: usize, j: usize, v: i64)
        requires
            old(self).wf(),
            i < old(self).nrows,
            j < old(self).ncols,
        ensures
            final(self).wf(),
            final(self).nrows == old(self).nrows,
            final(self).ncols == old(self).ncols,
            final(self).data@ == old(self).data@.update(
                i as int * old(self).ncols as int + j as int, v),
            final(self).ent(i as int, j as int) == v as int,
            forall|i2: int, j2: int|
                0 <= i2 < old(self).nrows && 0 <= j2 < old(self).ncols
                    && !(i2 == i as int && j2 == j as int)
                    ==> final(self).ent(i2, j2) == old(self).ent(i2, j2),
    {
        proof {
            lemma_index_bound(i as int, j as int, self.nrows as int, self.ncols as int);
        }
        let idx = i * self.ncols + j;
        self.data.set(idx, v);
        proof {
            assert forall|i2: int, j2: int|
                0 <= i2 < self.nrows && 0 <= j2 < self.ncols
                    && !(i2 == i as int && j2 == j as int)
                    implies self.ent(i2, j2) == old(self).ent(i2, j2) by {
                lemma_index_bound(i2, j2, self.nrows as int, self.ncols as int);
                lemma_index_injective(
                    i2, j2, i as int, j as int, self.nrows as int, self.ncols as int);
            }
        }
    }
}

/// The largest wrapped absolute value among the first `n` cells.
pub open spec fn max_abs(d: Seq<i64>, n: int) -> int
    decreases n,
{
    if n <= 0 {
        0
    } else {
        let m = max_abs(d, n - 1);
        let a = wabs(d[n - 1] as int);
        if a > m {
            a
        } else {
            m
        }
    }
}

/// The largest wrapped absolute difference among the first `n` cell pairs.
pub open spec fn max_abs_diff(a: Seq<i64>, b: Seq<i64>, n: int) -> int
    decreases n,
{
    if n <= 0 {
        0
    } else {
        let m = max_abs_diff(a, b, n - 1);
        let x = wabs(wsub(a[n - 1] as int, b[n - 1] as int));
        if x > m {
            x
        } else {
            m
        }
    }
}

impl Matrix {
    /// The wrapped sum of squared entrywise differences with `other`.
    pub open spec fn dist_squared_spec(&self, other: &Matrix) -> int {
        wsum(
            0,
            self.data@.len() as int,
            |p: int| wmul(
                wsub(self.data@[p] as int, other.data@[p] as int),
                wsub(self.data@[p] as int, other.data@[p] as int),
            ),
        )
    }

    /// The floor square root of `dist_squared_spec` (zero when negative).
    pub open spec fn dist_spec(&self, other: &Matrix) -> int {
        if self.dist_squared_spec(other) < 0 {
            0
        } else {
            sqrt_floor(self.dist_squared_spec(other))
        }
    }

    /// The squared Euclidean norm: the wrapped sum of squared entries.
    pub fn norm_squared(&self) -> (r: i64)
        requires
            self.wf(),
        ensures
            r as int == self.norm_squared_spec(),
    {
        let n = self.data.len();
        let mut acc: i64 = 0;
        let mut p: usize = 0;
        while p < n
            invariant
                p <= n,
                n == self.data@.len(),
                acc as int == wsum(
                    0,
                    p as int,
                    |q: int| wmul(self.data@[q] as int, self.data@[q] as int),
                ),
            decreases n - p,
        {
            let v = self.data[p];
            acc = add_w(acc, mul_w(v, v));
            p = p + 1;
        }
        acc
    }

    /// The Euclidean norm: the floor square root of `norm_squared`
    /// (zero when the wrapped squared norm is negative).
    pub fn norm(&self) -> (r: i64)
        requires
            self.wf(),
        ensures
            r as int == self.norm_spec(),
    {
        let ns = self.norm_squared();
        if ns < 0 {
            0
        } else {
            isqrt(ns)
        }
    }

    /// The Euclidean distance between `self` and `rhs`.
    pub fn metric_distance(&self, rhs: &Matrix) -> (r: i64)
        requires
            self.wf(),
            rhs.wf(),
            self.nrows == rhs.nrows,
            self.ncols == rhs.ncols,
        ensures
            r as int == self.dist_spec(rhs),
    {
        self.apply_metric_distance(rhs, &EuclideanNorm)
    }

    /// The norm of `self` under the given norm.
    pub fn apply_norm<NO: Norm>(&self, norm: &NO) -> (r: i64)
        requires
            self.wf(),
        ensures
            r as int == norm.norm_spec(self),
    {
        norm.norm(self)
    }

    /// The distance between `self` and `rhs` under the given norm.
    pub fn apply_metric_distance<NO: Norm>(&self, rhs: &Matrix, norm: &NO) -> (r: i64)
        requires
            self.wf(),
            rhs.wf(),
            self.nrows == rhs.nrows,
            self.ncols == rhs.ncols,
        ensures
            r as int == norm.metric_distance_spec(self, rhs),
    {
        norm.metric_distance(self, rhs)
    }

    /// A synonym for the Euclidean norm.
    pub fn magnitude(&self) -> (r: i64)
        requires
            self.wf(),
        ensures
            r as int == self.norm_spec(),
    {
        self.norm()
    }

    /// A synonym for the squared Euclidean norm.
    pub fn magnitude_squared(&self) -> (r: i64)
        requires
            self.wf(),
        ensures
            r as int == self.norm_squared_spec(),
    {
        self.norm_squared()
    }
}

/// An abstract matrix norm, packaged with its mathematical meaning.
pub trait Norm {
    /// The value this norm assigns to `m`.
    spec fn norm_spec(&self, m: &Matrix) -> int;

    /// The distance this norm's induced metric assigns to the pair.
    spec fn metric_distance_spec(&self, m1: &Matrix, m2: &Matrix) -> int;

    /// Apply this norm to the given matrix.
    fn norm(&self, m: &Matrix) -> (r: i64)
        requires
            m.wf(),
        ensures
            r as int == self.norm_spec(m),
    ;

    /// The distance between the two matrices under this norm's metric.
    fn metric_distance(&self, m1: &Matrix, m2: &Matrix) -> (r: i64)
        requires
            m1.wf(),
            m2.wf(),
            m1.nrows == m2.nrows,
            m1.ncols == m2.ncols,
        ensures
            r as int == self.metric_distance_spec(m1, m2),
    ;
}

/// The Euclidean norm.
pub struct EuclideanNorm;

/// The uniform (supremum) norm: the largest absolute entry.
pub struct UniformNorm;

impl Norm for EuclideanNorm {
    open spec fn norm_spec(&self, m: &Matrix) -> int {
        m.norm_spec()
    }

    open spec fn metric_distance_spec(&self, m1: &Matrix, m2: &Matrix) -> int {
        m1.dist_spec(m2)
    }

    fn norm(&self, m: &Matrix) -> (r: i64) {
        m.norm()
    }

    fn metric_distance(&self, m1: &Matrix, m2: &Matrix) -> (r: i64) {
        let n = m1.data.len();
        let mut acc: i64 = 0;
        let mut p: usize = 0;
        while p < n
            invariant
                p <= n,
                n == m1.data@.len(),
                n == m2.data@.len(),
                acc as int == wsum(
                    0,
                    p as int,
                    |q: int| wmul(
                        wsub(m1.data@[q] as int, m2.data@[q] as int),
                        wsub(m1.data@[q] as int, m2.data@[q] as int),
                    ),
                ),
            decreases n - p,
        {
            let d = sub_w(m1.data[p], m2.data[p]);
            acc = add_w(acc, mul_w(d, d));
            p = p + 1;
        }
        if acc < 0 {
            0
        } else {
            isqrt(acc)
        }
    }
}

impl Norm for UniformNorm {
    open spec fn norm_spec(&self, m: &Matrix) -> int {
        max_abs(m.data@, m.data@.len() as int)
    }

    open spec fn metric_distance_spec(&self, m1: &Matrix, m2: &Matrix) -> int {
        max_abs_diff(m1.data@, m2.data@, m1.data@.len() as int)
    }

    fn norm(&self, m: &Matrix) -> (r: i64) {
        let n = m.data.len();
        let mut acc: i64 = 0;
        let mut p: usize = 0;
        while p < n
            invariant
                p <= n,
                n == m.data@.len(),
                acc as int == max_abs(m.data@, p as int),
            decreases n - p,
        {
            let a = abs_w(m.data[p]);
            if a > acc {
                acc = a;
            }
            p = p + 1;
        }
        acc
    }

    fn metric_distance(&self, m1: &Matrix, m2: &Matrix) -> (r: i64) {
        let n = m1.data.len();
        let mut acc: i64 = 0;
        let mut p: usize = 0;
        while p < n
            invariant
                p <= n,
                n == m1.data@.len(),
                n == m2.data@.len(),
                acc as int == max_abs_diff(m1.data@, m2.data@, p as int),
            decreases n - p,
        {
            let a = abs_w(sub_w(m1.data[p], m2.data[p]));
            if a > acc {
                acc = a;
            }
            p = p + 1;
        }
        acc
    }
}

impl Matrix {
    /// Multiply every entry by `s`, wrapping.
    pub fn scale_mut(&mut self, s: i64)
        requires
            old(self).wf(),
        ensures
            final(self).wf(),
            final(self).nrows == old(self).nrows,
            final(self).ncols == old(self).ncols,
            forall|q: int| 0 <= q < old(self).data@.len()
                ==> (#[trigger] final(self).data@[q] as int)
                    == wmul(old(self).data@[q] as int, s as int),
    {
        let n = self.data.len();
        let mut q: usize = 0;
        while q < n
            invariant
                n == self.data@.len(),
                q <= n,
                self.nrows == old(self).nrows,
                self.ncols == old(self).ncols,
                self.wf(),
                forall|p: int| 0 <= p < q as int
                    ==> (#[trigger] self.data@[p] as int)
                        == wmul(old(self).data@[p] as int, s as int),
                forall|p: int| q as int <= p < n ==> #[trigger] self.data@[p]
                    == old(self).data@[p],
            decreases n - q,
        {
            let v = self.data[q];
            self.data.set(q, mul_w(v, s));
            q = q + 1;
        }
    }

    /// Divide every entry by `s` (truncating), wrapping; `s` must be
    /// nonzero.
    pub fn unscale_mut(&mut self, s: i64)
        requires
            old(self).wf(),
            s != 0,
        ensures
            final(self).wf(),
            final(self).nrows == old(self).nrows,
            final(self).ncols == old(self).ncols,
            forall|q: int| 0 <= q < old(self).data@.len()
                ==> (#[trigger] final(self).data@[q] as int)
                    == wdiv(old(self).data@[q] as int, s as int),
    {
        let n = self.data.len();
        let mut q: usize = 0;
        while q < n
            invariant
                n == self.data@.len(),
                q <= n,
                s != 0,
                self.nrows == old(self).nrows,
                self.ncols == old(self).ncols,
                self.wf(),
                forall|p: int| 0 <= p < q as int
                    ==> (#[trigger] self.data@[p] as int)
                        == wdiv(old(self).data@[p] as int, s as int),
                forall|p: int| q as int <= p < n ==> #[trigger] self.data@[p]
                    == old(self).data@[p],
            decreases n - q,
        {
            let v = self.data[q];
            self.data.set(q, div_w(v, s));
            q = q + 1;
        }
    }

    /// A copy with every entry divided by `s` (truncating); `s` must be
    /// nonzero.
    pub fn unscale(&self, s: i64) -> (r: Matrix)
        requires
            self.wf(),
            s != 0,
        ensures
            r.wf(),
            r.nrows == self.nrows,
            r.ncols == self.ncols,
            forall|q: int| 0 <= q < self.data@.len()
                ==> (#[trigger] r.data@[q] as int) == wdiv(self.data@[q] as int, s as int),
    {
        let mut r = Matrix { nrows: self.nrows, ncols: self.ncols, data: Vec::new() };
        let n = self.data.len();
        let mut q: usize = 0;
        while q < n
            invariant
                n == self.data@.len(),
                q <= n,
                s != 0,
                r.nrows == self.nrows,
                r.ncols == self.ncols,
                r.data@.len() == q as int,
                forall|p: int| 0 <= p < q as int
                    ==> (#[trigger] r.data@[p] as int) == wdiv(self.data@[p] as int, s as int),
            decreases n - q,
        {
            r.data.push(div_w(self.data[q], s));
            q = q + 1;
        }
        r
    }

    /// Scale this vector so that its magnitude becomes `magnitude`: every
    /// entry is multiplied by the truncated quotient of `magnitude` and
    /// the current norm, which must be nonzero.
    pub fn set_magnitude(&mut self, magnitude: i64)
        requires
            old(self).wf(),
            old(self).norm_spec() != 0,
        ensures
            final(self).wf(),
            final(self).nrows == old(self).nrows,
            final(self).ncols == old(self).ncols,
            forall|q: int| 0 <= q < old(self).data@.len()
                ==> (#[trigger] final(self).data@[q] as int) == wmul(
                    old(self).data@[q] as int,
                    wdiv(magnitude as int, old(self).norm_spec())),
    {
        let n = self.norm();
        self.scale_mut(div_w(magnitude, n));
    }

    /// A normalized copy: every entry divided (truncating) by the norm,
    /// which must be nonzero.
    pub fn normalize(&self) -> (r: Matrix)
        requires
            self.wf(),
            self.norm_spec() != 0,
        ensures
            r.wf(),
            r.nrows == self.nrows,
            r.ncols == self.ncols,
            forall|q: int| 0 <= q < self.data@.len()
                ==> (#[trigger] r.data@[q] as int)
                    == wdiv(self.data@[q] as int, self.norm_spec()),
    {
        let n = self.norm();
        self.unscale(n)
    }

    /// Normalize in place and return the old norm, which must be nonzero.
    pub fn normalize_mut(&mut self) -> (r: i64)
        requires
            old(self).wf(),
            old(self).norm_spec() != 0,
        ensures
            final(self).wf(),
            final(self).nrows == old(self).nrows,
            final(self).ncols == old(self).ncols,
            r as int == old(self).norm_spec(),
            forall|q: int| 0 <= q < old(self).data@.len()
                ==> (#[trigger] final(self).data@[q] as int)
                    == wdiv(old(self).data@[q] as int, old(self).norm_spec()),
    {
        let n = self.norm();
        self.unscale_mut(n);
        n
    }

    /// Scale this vector to magnitude `magnitude` unless its norm is
    /// below `min_magnitude` (or zero, which the integer quotient cannot
    /// divide by): then it is left unchanged.
    pub fn try_set_magnitude(&mut self, magnitude: i64, min_magnitude: i64)
        requires
            old(self).wf(),
        ensures
            final(self).wf(),
            final(self).nrows == old(self).nrows,
            final(self).ncols == old(self).ncols,
            old(self).norm_spec() >= min_magnitude as int && old(self).norm_spec() != 0
                ==> forall|q: int| 0 <= q < old(self).data@.len()
                    ==> (#[trigger] final(self).data@[q] as int) == wmul(
                        old(self).data@[q] as int,
                        wdiv(magnitude as int, old(self).norm_spec())),
            !(old(self).norm_spec() >= min_magnitude as int && old(self).norm_spec() != 0)
                ==> final(self).data@ == old(self).data@,
    {
        let n = self.norm();
        if n >= min_magnitude && n != 0 {
            self.scale_mut(div_w(magnitude, n));
        }
    }

    /// A normalized copy, unless the norm is at most `min_norm`: then
    /// nothing is returned.
    pub fn try_normalize(&self, min_norm: i64) -> (r: Option<Matrix>)
        requires
            self.wf(),
        ensures
            r is Some <==> self.norm_spec() > min_norm as int && self.norm_spec() != 0,
            r matches Some(m) ==> {
                &&& m.wf()
                &&& m.nrows == self.nrows
                &&& m.ncols == self.ncols
                &&& forall|q: int| 0 <= q < self.data@.len()
                    ==> (#[trigger] m.data@[q] as int)
                        == wdiv(self.data@[q] as int, self.norm_spec())
            },
    {
        let n = self.norm();
        if n <= min_norm || n == 0 {
            None
        } else {
            Some(self.unscale(n))
        }
    }

    /// Normalize in place and return the old norm, unless the norm is at
    /// most `min_norm`: then nothing changes and nothing is returned.
    pub fn try_normalize_mut(&mut self, min_norm: i64) -> (r: Option<i64>)
        requires
            old(self).wf(),
        ensures
            final(self).wf(),
            final(self).nrows == old(self).nrows,
            final(self).ncols == old(self).ncols,
            r is Some <==> old(self).norm_spec() > min_norm as int
                && old(self).norm_spec() != 0,
            r matches Some(nv) ==> nv as int == old(self).norm_spec()
                && forall|q: int| 0 <= q < old(self).data@.len()
                    ==> (#[trigger] final(self).data@[q] as int)
                        == wdiv(old(self).data@[q] as int, old(self).norm_spec()),
            r is None ==> final(self).data@ == old(self).data@,
    {
        let n = self.norm();
        if n <= min_norm || n == 0 {
            None
        } else {
            self.unscale_mut(n);
            Some(n)
        }
    }
}

/// The wrapped sum of the `p`-th powers of the absolute entries of the
/// first `n` cells.
pub open spec fn lp_sum(d: Seq<i64>, p: nat, n: int) -> int {
    wsum(0, n, |q: int| wpow(wabs(d[q] as int), p))
}

/// The wrapped sum of the `p`-th powers of the absolute entrywise
/// differences of the first `n` cell pairs.
pub open spec fn lp_diff_sum(a: Seq<i64>, b: Seq<i64>, p: nat, n: int) -> int {
    wsum(0, n, |q: int| wpow(wabs(wsub(a[q] as int, b[q] as int)), p))
}

/// The floor `p`-th root of a wrapped power sum (zero when the sum came
/// out negative or the exponent is below one).
pub open spec fn lp_root(s: int, p: int) -> int {
    if p < 1 || s < 0 {
        0
    } else {
        root_floor(s, p as nat)
    }
}

/// The `p`-norm: the floor `p`-th root of the wrapped sum of `p`-th
/// powers of the absolute entries.
pub struct LpNorm(pub i32);

impl Norm for LpNorm {
    open spec fn norm_spec(&self, m: &Matrix) -> int {
        lp_root(lp_sum(m.data@, self.0 as nat, m.data@.len() as int), self.0 as int)
    }

    open spec fn metric_distance_spec(&self, m1: &Matrix, m2: &Matrix) -> int {
        lp_root(
            lp_diff_sum(m1.data@, m2.data@, self.0 as nat, m1.data@.len() as int),
            self.0 as int)
    }

    fn norm(&self, m: &Matrix) -> (r: i64) {
        if self.0 < 1 {
            return 0;
        }
        let e = self.0 as u32;
        let n = m.data.len();
        let mut acc: i64 = 0;
        let mut q: usize = 0;
        while q < n
            invariant
                q <= n,
                n == m.data@.len(),
                1 <= self.0,
                e == self.0 as u32,
                acc as int == lp_sum(m.data@, self.0 as nat, q as int),
            decreases n - q,
        {
            acc = add_w(acc, pow_w(abs_w(m.data[q]), e));
            q = q + 1;
        }
        if acc < 0 {
            0
        } else {
            iroot(acc, e)
        }
    }

    fn metric_distance(&self, m1: &Matrix, m2: &Matrix) -> (r: i64) {
        if self.0 < 1 {
            return 0;
        }
        let e = self.0 as u32;
        let n = m1.data.len();
        let mut acc: i64 = 0;
        let mut q: usize = 0;
        while q < n
            invariant
                q <= n,
                n == m1.data@.len(),
                n == m2.data@.len(),
                1 <= self.0,
                e == self.0 as u32,
                acc as int == lp_diff_sum(m1.data@, m2.data@, self.0 as nat, q as int),
            decreases n - q,
        {
            acc = add_w(acc, pow_w(abs_w(sub_w(m1.data[q], m2.data[q])), e));
            q = q + 1;
        }
        if acc < 0 {
            0
        } else {
            iroot(acc, e)
        }
    }
}

impl Matrix {
    /// The `p`-norm of this matrix.
    pub fn lp_norm(&self, p: i32) -> (r: i64)
        requires
            self.wf(),
        ensures
            r as int == lp_root(
                lp_sum(self.data@, p as nat, self.data@.len() as int), p as int),
    {
        self.apply_norm(&LpNorm(p))
    }
}

} // verus!
