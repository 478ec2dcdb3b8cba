//! Dynamically sized dense vectors.

use vstd::prelude::*;
use crate::scalar::{wadd, wmul, add_w, mul_w};
use crate::sums::wsum;

verus! {

/// A dense vector with a dimension unknown at compile time.
pub struct DVec {
    /// Components of the vector; one entry per dimension.
    pub at: Vec<i64>,
}

/// The wrapped dot product of two component sequences over `[0, n)`.
pub open spec fn dot_spec(a: Seq<i64>, b: Seq<i64>, n: int) -> int {
    wsum(0, n, |i: int| wmul(a[i] as int, b[i] as int))
}

impl DVec {
    /// The dimension of the vector.
    pub open spec fn len_spec(&self) -> int {
        self.at@.len() as int
    }

    /// The component at index `i`.
    pub open spec fn ent(&self, i: int) -> int {
        self.at@[i] as int
    }

    /// A vector of the given dimension filled with a constant.
    pub fn from_elem(dim: usize, elem: i64) -> (r: DVec)
        ensures
            r.len_spec() == dim as int,
            forall|i: int| 0 <= i < dim as int ==> #[trigger] r.ent(i) == elem as int,
    {
        let mut at: Vec<i64> = Vec::new();
        let mut t: usize = 0;
        while t < dim
            invariant
                t <= dim,
                at@.len() == t as int,
                forall|i: int| 0 <= i < t as int ==> #[trigger] at@[i] == elem,
            decreases dim - t,
        {
            at.push(elem);
            t = t + 1;
        }
        DVec { at }
    }

    /// A vector filled with zeros.
    pub fn new_zeros(dim: usize) -> (r: DVec)
        ensures
            r.len_spec() == dim as int,
            forall|i: int| 0 <= i < dim as int ==> #[trigger] r.ent(i) == 0,
    {
        Self::from_elem(dim, 0)
    }

    /// A vector filled with ones.
    pub fn new_ones(dim: usize) -> (r: DVec)
        ensures
            r.len_spec() == dim as int,
            forall|i: int| 0 <= i < dim as int ==> #[trigger] r.ent(i) == 1,
    {
        Self::from_elem(dim, 1)
    }

    /// The dimension of the vector.
    pub fn len(&self) -> (r: usize)
        ensures
            r as int == self.len_spec(),
    {
        self.at.len()
    }

    /// Read the component at index `i`.
    pub fn get(&self, i: usize) -> (r: i64)
        requires
            i < self.len_spec(),
        ensures
            r as int == self.ent(i as int),
    {
        self.at[i]
    }

    /// Overwrite the component at index `i`.
    pub fn set(&mut self, i: usize, v: i64)
        requires
            i < old(self).len_spec(),
        ensures
            final(self).at@ == old(self).at@.update(i as int, v),
    {
        self.at.set(i, v);
    }

    /// Whether every component is zero.
    pub fn is_zero(&self) -> (r: bool)
        ensures
            r <==> forall|i: int| 0 <= i < self.len_spec() ==> #[trigger] self.ent(i) == 0,
    {
        let n = self.at.len();
        let mut t: usize = 0;
        while t < n
            invariant
                t <= n,
                n == self.at@.len(),
                forall|i: int| 0 <= i < t as int ==> #[trigger] self.ent(i) == 0,
            decreases n - t,
        {
            if self.at[t] != 0 {
                proof {
                    assert(self.ent(t as int) != 0);
                }
                return false;
            }
            t = t + 1;
        }
        true
    }

    /// The wrapped dot product with another vector of the same dimension.
    pub fn dot(&self, other: &DVec) -> (r: i64)
        requires
            self.len_spec() == other.len_spec(),
        ensures
            r as int == dot_spec(self.at@, other.at@, self.len_spec()),
    {
        let n = self.at.len();
        let mut acc: i64 = 0;
        let mut t: usize = 0;
        while t < n
            invariant
                t <= n,
                n == self.at@.len(),
                n == other.at@.len(),
                acc as int == dot_spec(self.at@, other.at@, t as int),
            decreases n - t,
        {
            acc = add_w(acc, mul_w(self.at[t], other.at[t]));
            t = t + 1;
        }
        acc
    }

    /// The canonical basis of the space of the given dimension: the list
    /// of unit vectors.
    pub fn canonical_basis_with_dim(dim: usize) -> (r: Vec<DVec>)
        ensures
            r@.len() == dim as int,
            forall|i: int| 0 <= i < dim as int ==> (#[trigger] r@[i]).len_spec() == dim as int,
            forall|i: int, j: int|
                0 <= i < dim as int && 0 <= j < dim as int
                    ==> (#[trigger] r@[i].ent(j)) == (if i == j { 1int } else { 0int }),
    {
        let mut r: Vec<DVec> = Vec::new();
        let mut i: usize = 0;
        while i < dim
            invariant
                i <= dim,
                r@.len() == i as int,
                forall|i2: int| 0 <= i2 < i as int
                    ==> (#[trigger] r@[i2]).len_spec() == dim as int,
                forall|i2: int, j: int|
                    0 <= i2 < i as int && 0 <= j < dim as int
                        ==> (#[trigger] r@[i2].ent(j)) == (if i2 == j { 1int } else { 0int }),
            decreases dim - i,
        {
            let mut e = DVec::new_zeros(dim);
            let ghost e0 = e;
            e.set(i, 1);
            proof {
                assert forall|j: int| 0 <= j < dim as int
                    implies e.ent(j) == (if i as int == j { 1int } else { 0int }) by {
                    if j != i as int {
                        assert(e.at@[j] == e0.at@[j]);
                        assert(e0.ent(j) == 0);
                    }
                }
            }
            r.push(e);
            i = i + 1;
        }
        r
    }
    /// A vector whose component `i` is the result of `f(i)`.
    pub fn from_fn<F: Fn(usize) -> i64>(dim: usize, f: F) -> (r: DVec)
        requires
            forall|i: usize| i < dim ==> #[trigger] f.requires((i,)),
        ensures
            r.len_spec() == dim as int,
            forall|i: int| 0 <= i < dim as int
                ==> f.ensures((i as usize,), #[trigger] r.at@[i]),
    {
        let mut at: Vec<i64> = Vec::new();
        let mut t: usize = 0;
        while t < dim
            invariant
                t <= dim,
                at@.len() == t as int,
                forall|i: usize| i < dim ==> #[trigger] f.requires((i,)),
                forall|i: int| 0 <= i < t as int
                    ==> f.ensures((i as usize,), #[trigger] at@[i]),
            decreases dim - t,
        {
            let v = f(t);
            at.push(v);
            t = t + 1;
        }
        DVec { at }
    }

}

} // verus!
