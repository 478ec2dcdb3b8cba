//! Componentwise scaling of points.

use vstd::prelude::*;
use crate::scalar::{wmul, wdiv, mul_w, div_w};
use crate::dvec::DVec;

verus! {

/// A componentwise scaling transformation.
pub struct Scale {
    /// The scale factor of each coordinate.
    pub vector: DVec,
}

impl Scale {
    /// The scaling with the given factors.
    pub fn new(vector: DVec) -> (r: Scale)
        ensures
            r.vector == vector,
    {
        Scale { vector }
    }

    /// Scale the given point: each coordinate is multiplied by its
    /// factor.
    pub fn transform_point(&self, pt: &DVec) -> (r: DVec)
        requires
            self.vector.len_spec() == pt.len_spec(),
        ensures
            r.len_spec() == pt.len_spec(),
            forall|i: int| 0 <= i < pt.len_spec()
                ==> #[trigger] r.ent(i) == wmul(self.vector.ent(i), pt.ent(i)),
    {
        let n = pt.at.len();
        let mut at: Vec<i64> = Vec::new();
        let mut t: usize = 0;
        while t < n
            invariant
                t <= n,
                n == pt.at@.len(),
                n as int == self.vector.len_spec(),
                at@.len() == t as int,
                forall|i: int| 0 <= i < t as int
                    ==> (#[trigger] at@[i] as int) == wmul(self.vector.ent(i), pt.ent(i)),
            decreases n - t,
        {
            at.push(mul_w(self.vector.at[t], pt.at[t]));
            t = t + 1;
        }
        DVec { at }
    }

    /// Scale the given point by the inverse of this scaling: each
    /// coordinate is divided (truncating) by its factor, which must be
    /// nonzero.
    pub fn inverse_transform_point(&self, pt: &DVec) -> (r: DVec)
        requires
            self.vector.len_spec() == pt.len_spec(),
            forall|i: int| 0 <= i < self.vector.len_spec()
                ==> #[trigger] self.vector.ent(i) != 0,
        ensures
            r.len_spec() == pt.len_spec(),
            forall|i: int| 0 <= i < pt.len_spec()
                ==> #[trigger] r.ent(i) == wdiv(pt.ent(i), self.vector.ent(i)),
    {
        let n = pt.at.len();
        let mut at: Vec<i64> = Vec::new();
        let mut t: usize = 0;
        while t < n
            invariant
                t <= n,
                n == pt.at@.len(),
                n as int == self.vector.len_spec(),
                forall|i: int| 0 <= i < self.vector.len_spec()
                    ==> #[trigger] self.vector.ent(i) != 0,
                at@.len() == t as int,
                forall|i: int| 0 <= i < t as int
                    ==> (#[trigger] at@[i] as int) == wdiv(pt.ent(i), self.vector.ent(i)),
            decreases n - t,
        {
            proof {
                assert(self.vector.ent(t as int) != 0);
            }
            at.push(div_w(pt.at[t], self.vector.at[t]));
            t = t + 1;
        }
        DVec { at }
    }
}

} // verus!
