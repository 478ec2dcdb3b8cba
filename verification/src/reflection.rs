//! Reflections with respect to a plane, applied to the columns or the
//! rows of a dense matrix.

use vstd::prelude::*;
use crate::scalar::{wadd, wsub, wmul, add_w, sub_w, mul_w};
use crate::sums::wsum;
use crate::dense::Matrix;
use crate::dvec::{DVec, dot_spec};

verus! {

/// A reflection with respect to the plane orthogonal to `axis` at the
/// position `bias` along it.
pub struct Reflection {
    /// The reflection axis.
    pub axis: DVec,
    /// The position of the plane on the axis; zero for a plane through
    /// the origin.
    pub bias: i64,
}

/// The wrapped dot product of an axis with column `j` of a dense matrix,
/// over the first `n` rows.
pub open spec fn axis_col_dot(axis: Seq<i64>, m: Matrix, j: int, n: int) -> int {
    wsum(0, n, |r: int| wmul(axis[r] as int, m.ent(r, j)))
}

/// The wrapped dot product of row `i` of a dense matrix with an axis,
/// over the first `n` columns.
pub open spec fn row_axis_dot(m: Matrix, i: int, axis: Seq<i64>, n: int) -> int {
    wsum(0, n, |c: int| wmul(m.ent(i, c) as int, axis[c] as int))
}

/// The reflection factor of a column: `(axis . column - bias) * (-2 * sign)`.
pub open spec fn reflect_factor(axis: Seq<i64>, bias: int, m: Matrix, j: int, sign: int)
    -> int {
    wmul(wsub(axis_col_dot(axis, m, j, axis.len() as int), bias), wmul(sign, -2))
}

impl Reflection {
    /// A reflection with respect to the plane orthogonal to `axis` at
    /// position `bias` on it.
    pub fn new(axis: DVec, bias: i64) -> (r: Reflection)
        ensures
            r.axis == axis,
            r.bias == bias,
    {
        Reflection { axis, bias }
    }

    /// A reflection with respect to the plane orthogonal to `axis` that
    /// contains the point `pt`: the bias is the projection of the point
    /// onto the axis.
    pub fn new_containing_point(axis: DVec, pt: &DVec) -> (r: Reflection)
        requires
            axis.len_spec() == pt.len_spec(),
        ensures
            r.axis == axis,
            r.bias as int == dot_spec(axis.at@, pt.at@, axis.len_spec()),
    {
        let bias = axis.dot(pt);
        Reflection { axis, bias }
    }

    /// The reflection axis.
    pub fn axis(&self) -> (r: &DVec)
        ensures
            r == &self.axis,
    {
        &self.axis
    }

    /// Apply the reflection to the columns of `rhs`, scaled by `sign`:
    /// each column becomes `sign * column + factor * axis` with
    /// `factor = (axis . column - bias) * (-2 * sign)`.
    #[verifier::rlimit(60)]
    pub fn reflect_with_sign(&self, rhs: &mut Matrix, sign: i64)
        requires
            old(rhs).wf(),
            self.axis.len_spec() == old(rhs).nrows as int,
        ensures
            final(rhs).wf(),
            final(rhs).nrows == old(rhs).nrows,
            final(rhs).ncols == old(rhs).ncols,
            forall|r: int, j: int|
                0 <= r < old(rhs).nrows as int && 0 <= j < old(rhs).ncols as int
                    ==> #[trigger] final(rhs).ent(r, j) == wadd(
                        wmul(sign as int, old(rhs).ent(r, j)),
                        wmul(
                            reflect_factor(
                                self.axis.at@, self.bias as int, *old(rhs), j, sign as int),
                            self.axis.at@[r] as int)),
    {
        let ghost m0 = *rhs;
        let nr = rhs.nrows;
        let nc = rhs.ncols;
        let mut j: usize = 0;
        while j < nc
            invariant
                rhs.wf(),
                rhs.nrows == nr,
                rhs.ncols == nc,
                m0.wf(),
                m0 == *old(rhs),
                m0.nrows == nr,
                m0.ncols == nc,
                self.axis.len_spec() == nr as int,
                j <= nc,
                forall|r: int, j2: int|
                    0 <= r < nr as int && 0 <= j2 < j as int
                        ==> #[trigger] rhs.ent(r, j2) == wadd(
                            wmul(sign as int, m0.ent(r, j2)),
                            wmul(
                                reflect_factor(
                                    self.axis.at@, self.bias as int, m0, j2, sign as int),
                                self.axis.at@[r] as int)),
                forall|r: int, j2: int|
                    0 <= r < nr as int && j as int <= j2 && j2 < nc as int
                        ==> #[trigger] rhs.ent(r, j2) == m0.ent(r, j2),
            decreases nc - j,
        {
            let mut acc: i64 = 0;
            let mut t: usize = 0;
            while t < nr
                invariant
                    rhs.wf(),
                    rhs.nrows == nr,
                    rhs.ncols == nc,
                    self.axis.len_spec() == nr as int,
                    j < nc,
                    t <= nr,
                    m0.nrows == nr,
                    forall|r: int| 0 <= r < nr as int
                        ==> #[trigger] rhs.ent(r, j as int) == m0.ent(r, j as int),
                    acc as int == axis_col_dot(self.axis.at@, m0, j as int, t as int),
                decreases nr - t,
            {
                acc = add_w(acc, mul_w(self.axis.at[t], rhs.get(t, j)));
                t = t + 1;
            }
            let m_two = mul_w(sign, -2);
            let factor = mul_w(sub_w(acc, self.bias), m_two);
            proof {
                assert(factor as int == reflect_factor(
                    self.axis.at@, self.bias as int, m0, j as int, sign as int));
            }
            let mut r: usize = 0;
            while r < nr
                invariant
                    rhs.wf(),
                    rhs.nrows == nr,
                    rhs.ncols == nc,
                    m0.wf(),
                    m0.nrows == nr,
                    m0.ncols == nc,
                    self.axis.len_spec() == nr as int,
                    j < nc,
                    r <= nr,
                    factor as int == reflect_factor(
                        self.axis.at@, self.bias as int, m0, j as int, sign as int),
                    forall|r2: int, j2: int|
                        0 <= r2 < nr as int && 0 <= j2 < j as int
                            ==> #[trigger] rhs.ent(r2, j2) == wadd(
                                wmul(sign as int, m0.ent(r2, j2)),
                                wmul(
                                    reflect_factor(
                                        self.axis.at@, self.bias as int, m0, j2,
                                        sign as int),
                                    self.axis.at@[r2] as int)),
                    forall|r2: int, j2: int|
                        0 <= r2 < nr as int && (j as int) < j2 && j2 < nc as int
                            ==> #[trigger] rhs.ent(r2, j2) == m0.ent(r2, j2),
                    forall|r2: int| 0 <= r2 < r as int
                        ==> #[trigger] rhs.ent(r2, j as int) == wadd(
                            wmul(sign as int, m0.ent(r2, j as int)),
                            wmul(factor as int, self.axis.at@[r2] as int)),
                    forall|r2: int| r as int <= r2 && r2 < nr as int
                        ==> #[trigger] rhs.ent(r2, j as int) == m0.ent(r2, j as int),
                decreases nr - r,
            {
                let cur = rhs.get(r, j);
                rhs.set(r, j, add_w(mul_w(sign, cur), mul_w(factor, self.axis.at[r])));
                r = r + 1;
            }
            j = j + 1;
        }
    }

    /// Apply the reflection to the columns of `rhs`: each column becomes
    /// `column + factor * axis` with `factor = (axis . column - bias) * -2`.
    pub fn reflect(&self, rhs: &mut Matrix)
        requires
            old(rhs).wf(),
            self.axis.len_spec() == old(rhs).nrows as int,
        ensures
            final(rhs).wf(),
            final(rhs).nrows == old(rhs).nrows,
            final(rhs).ncols == old(rhs).ncols,
            forall|r: int, j: int|
                0 <= r < old(rhs).nrows as int && 0 <= j < old(rhs).ncols as int
                    ==> #[trigger] final(rhs).ent(r, j) == wadd(
                        wmul(1, old(rhs).ent(r, j)),
                        wmul(
                            reflect_factor(self.axis.at@, self.bias as int, *old(rhs), j, 1),
                            self.axis.at@[r] as int)),
    {
        self.reflect_with_sign(rhs, 1);
    }

    /// Apply the reflection to the rows of `lhs`, scaled by `sign`, using
    /// `work` as scratch: `work` receives the row projections
    /// `lhs * axis - bias`, and each cell becomes
    /// `sign * lhs[i][j] + (-2 * sign) * work[i] * axis[j]`.
    #[verifier::rlimit(60)]
    pub fn reflect_rows_with_sign(&self, lhs: &mut Matrix, work: &mut DVec, sign: i64)
        requires
            old(lhs).wf(),
            self.axis.len_spec() == old(lhs).ncols as int,
            old(work).len_spec() == old(lhs).nrows as int,
        ensures
            final(lhs).wf(),
            final(lhs).nrows == old(lhs).nrows,
            final(lhs).ncols == old(lhs).ncols,
            final(work).len_spec() == old(work).len_spec(),
            forall|i: int| 0 <= i < old(lhs).nrows as int
                ==> #[trigger] final(work).ent(i) == wsub(
                    row_axis_dot(*old(lhs), i, self.axis.at@, old(lhs).ncols as int),
                    self.bias as int),
            forall|i: int, j: int|
                0 <= i < old(lhs).nrows as int && 0 <= j < old(lhs).ncols as int
                    ==> #[trigger] final(lhs).ent(i, j) == wadd(
                        wmul(sign as int, old(lhs).ent(i, j)),
                        wmul(
                            wmul(wmul(sign as int, -2), wsub(
                                row_axis_dot(
                                    *old(lhs), i, self.axis.at@, old(lhs).ncols as int),
                                self.bias as int)),
                            self.axis.at@[j] as int)),
    {
        let ghost m0 = *lhs;
        let nr = lhs.nrows;
        let nc = lhs.ncols;
        let mut i: usize = 0;
        while i < nr
            invariant
                lhs.wf(),
                m0 == *old(lhs),
                i <= nr,
                nr == lhs.nrows,
                nc == lhs.ncols,
                *lhs == m0,
                self.axis.len_spec() == nc as int,
                work.len_spec() == nr as int,
                forall|i2: int| 0 <= i2 < i as int
                    ==> #[trigger] work.ent(i2) == wsub(
                        row_axis_dot(m0, i2, self.axis.at@, nc as int), self.bias as int),
            decreases nr - i,
        {
            let mut acc: i64 = 0;
            let mut t: usize = 0;
            while t < nc
                invariant
                    lhs.wf(),
                    *lhs == m0,
                    nr == lhs.nrows,
                    nc == lhs.ncols,
                    self.axis.len_spec() == nc as int,
                    i < nr,
                    t <= nc,
                    acc as int == row_axis_dot(m0, i as int, self.axis.at@, t as int),
                decreases nc - t,
            {
                acc = add_w(acc, mul_w(lhs.get(i, t), self.axis.at[t]));
                t = t + 1;
            }
            let ghost w0 = *work;
            work.set(i, sub_w(acc, self.bias));
            proof {
                assert(work.ent(i as int) == wsub(
                    row_axis_dot(m0, i as int, self.axis.at@, nc as int),
                    self.bias as int));
                assert forall|i2: int| 0 <= i2 < i as int
                    implies #[trigger] work.ent(i2) == wsub(
                        row_axis_dot(m0, i2, self.axis.at@, nc as int),
                        self.bias as int) by {
                    assert(work.at@[i2] == w0.at@[i2]);
                    assert(w0.ent(i2) == wsub(
                        row_axis_dot(m0, i2, self.axis.at@, nc as int), self.bias as int));
                }
            }
            i = i + 1;
        }
        let m_two = mul_w(sign, -2);
        let mut i: usize = 0;
        while i < nr
            invariant
                lhs.wf(),
                m0 == *old(lhs),
                m0.wf(),
                i <= nr,
                nr == lhs.nrows,
                nc == lhs.ncols,
                m0.nrows == nr,
                m0.ncols == nc,
                self.axis.len_spec() == nc as int,
                work.len_spec() == nr as int,
                m_two as int == wmul(sign as int, -2),
                forall|i2: int| 0 <= i2 < nr as int
                    ==> #[trigger] work.ent(i2) == wsub(
                        row_axis_dot(m0, i2, self.axis.at@, nc as int), self.bias as int),
                forall|i2: int, j: int|
                    0 <= i2 < i as int && 0 <= j < nc as int
                        ==> #[trigger] lhs.ent(i2, j) == wadd(
                            wmul(sign as int, m0.ent(i2, j)),
                            wmul(
                                wmul(wmul(sign as int, -2), wsub(
                                    row_axis_dot(m0, i2, self.axis.at@, nc as int),
                                    self.bias as int)),
                                self.axis.at@[j] as int)),
                forall|i2: int, j: int|
                    i as int <= i2 && i2 < nr as int && 0 <= j < nc as int
                        ==> #[trigger] lhs.ent(i2, j) == m0.ent(i2, j),
            decreases nr - i,
        {
            let wi = work.get(i);
            let f = mul_w(m_two, wi);
            let mut j: usize = 0;
            while j < nc
                invariant
                    lhs.wf(),
                    m0.wf(),
                    nr == lhs.nrows,
                    nc == lhs.ncols,
                    m0.nrows == nr,
                    m0.ncols == nc,
                    self.axis.len_spec() == nc as int,
                    work.len_spec() == nr as int,
                    i < nr,
                    j <= nc,
                    f as int == wmul(wmul(sign as int, -2), wsub(
                        row_axis_dot(m0, i as int, self.axis.at@, nc as int),
                        self.bias as int)),
                    forall|i2: int, j2: int|
                        0 <= i2 < i as int && 0 <= j2 < nc as int
                            ==> #[trigger] lhs.ent(i2, j2) == wadd(
                                wmul(sign as int, m0.ent(i2, j2)),
                                wmul(
                                    wmul(wmul(sign as int, -2), wsub(
                                        row_axis_dot(m0, i2, self.axis.at@, nc as int),
                                        self.bias as int)),
                                    self.axis.at@[j2] as int)),
                    forall|j2: int| 0 <= j2 < j as int
                        ==> #[trigger] lhs.ent(i as int, j2) == wadd(
                            wmul(sign as int, m0.ent(i as int, j2)),
                            wmul(
                                wmul(wmul(sign as int, -2), wsub(
                                    row_axis_dot(m0, i as int, self.axis.at@, nc as int),
                                    self.bias as int)),
                                self.axis.at@[j2] as int)),
                    forall|j2: int| j as int <= j2 && j2 < nc as int
                        ==> #[trigger] lhs.ent(i as int, j2) == m0.ent(i as int, j2),
                    forall|i2: int, j2: int|
                        (i as int) < i2 && i2 < nr as int && 0 <= j2 < nc as int
                            ==> #[trigger] lhs.ent(i2, j2) == m0.ent(i2, j2),
                decreases nc - j,
            {
                let cur = lhs.get(i, j);
                lhs.set(i, j, add_w(mul_w(sign, cur), mul_w(f, self.axis.at[j])));
                j = j + 1;
            }
            i = i + 1;
        }
    }

    /// Apply the reflection to the rows of `lhs`, using `work` as
    /// scratch.
    pub fn reflect_rows(&self, lhs: &mut Matrix, work: &mut DVec)
        requires
            old(lhs).wf(),
            self.axis.len_spec() == old(lhs).ncols as int,
            old(work).len_spec() == old(lhs).nrows as int,
        ensures
            final(lhs).wf(),
            final(lhs).nrows == old(lhs).nrows,
            final(lhs).ncols == old(lhs).ncols,
            final(work).len_spec() == old(work).len_spec(),
            forall|i: int, j: int|
                0 <= i < old(lhs).nrows as int && 0 <= j < old(lhs).ncols as int
                    ==> #[trigger] final(lhs).ent(i, j) == wadd(
                        wmul(1, old(lhs).ent(i, j)),
                        wmul(
                            wmul(wmul(1, -2), wsub(
                                row_axis_dot(
                                    *old(lhs), i, self.axis.at@, old(lhs).ncols as int),
                                self.bias as int)),
                            self.axis.at@[j] as int)),
    {
        self.reflect_rows_with_sign(lhs, work, 1);
    }
}

} // verus!
