//! The coordinate (COO) sparse matrix format.
//!
//! A COO matrix stores entries as triplets `(i, j, v)` in insertion order.
//! Indices must be in bounds, and duplicate `(i, j)` pairs are explicitly
//! allowed: the matrix represented by the triplet set has, at each cell,
//! the wrapped sum of every triplet value stored for that cell. `coo_sum`
//! states that reading, and `to_dense` materializes it.

use vstd::prelude::*;
use crate::SparseFormatError;
use crate::scalar::{wadd, add_w};
use crate::dense::{Matrix, lemma_index_bound};

verus! {

/// The wrapped sum of the first `n` triplet values whose coordinates are
/// exactly `(i, j)`.
pub open spec fn coo_sum(
    rows: Seq<usize>,
    cols: Seq<usize>,
    vals: Seq<i64>,
    i: int,
    j: int,
    n: int,
) -> int
    decreases n,
{
    if n <= 0 {
        0
    } else {
        let s = coo_sum(rows, cols, vals, i, j, n - 1);
        if rows[n - 1] == i && cols[n - 1] == j {
            wadd(s, vals[n - 1] as int)
        } else {
            s
        }
    }
}

/// A cell no stored triplet names holds the additive identity.
pub proof fn lemma_coo_sum_empty(
    rows: Seq<usize>,
    cols: Seq<usize>,
    vals: Seq<i64>,
    i: int,
    j: int,
    n: int,
)
    requires
        forall|p: int| 0 <= p < n ==> !(#[trigger] rows[p] == i && cols[p] == j),
    ensures
        coo_sum(rows, cols, vals, i, j, n) == 0,
    decreases n,
{
    if n > 0 {
        lemma_coo_sum_empty(rows, cols, vals, i, j, n - 1);
    }
}

/// A sparse matrix in triplet (coordinate) form.
pub struct CooMatrix {
    pub nrows: usize,
    pub ncols: usize,
    pub row_indices: Vec<usize>,
    pub col_indices: Vec<usize>,
    pub values: Vec<i64>,
}

impl CooMatrix {
    /// The three arrays run in parallel and every index is in bounds.
    pub open spec fn wf(&self) -> bool {
        &&& self.row_indices@.len() == self.values@.len()
        &&& self.col_indices@.len() == self.values@.len()
        &&& forall|p: int| 0 <= p < self.values@.len()
            ==> (#[trigger] self.row_indices@[p] as int) < self.nrows as int
        &&& forall|p: int| 0 <= p < self.values@.len()
            ==> (#[trigger] self.col_indices@[p] as int) < self.ncols as int
    }

    /// The value of the represented matrix at cell `(i, j)`: the wrapped
    /// sum of every stored triplet for that cell.
    pub open spec fn ent(&self, i: int, j: int) -> int {
        coo_sum(
            self.row_indices@,
            self.col_indices@,
            self.values@,
            i,
            j,
            self.values@.len() as int,
        )
    }

    /// An empty (all-zero) COO matrix of the given dimensions.
    pub fn new(nrows: usize, ncols: usize) -> (r: CooMatrix)
        ensures
            r.wf(),
            r.nrows == nrows,
            r.ncols == ncols,
            r.values@.len() == 0,
    {
        CooMatrix {
            nrows,
            ncols,
            row_indices: Vec::new(),
            col_indices: Vec::new(),
            values: Vec::new(),
        }
    }

    /// Build a COO matrix from triplet arrays, validating that the arrays
    /// have one common length and that every index is in bounds.
    ///
    /// The error distinguishes a length mismatch (`InvalidStructure`) from
    /// an out-of-bounds row or column index (`IndexOutOfBounds`).
    pub fn try_from_triplets(
        nrows: usize,
        ncols: usize,
        row_indices: Vec<usize>,
        col_indices: Vec<usize>,
        values: Vec<i64>,
    ) -> (r: Result<CooMatrix, SparseFormatError>)
        ensures
            match r {
                Ok(m) => {
                    &&& m.wf()
                    &&& m.nrows == nrows
                    &&& m.ncols == ncols
                    &&& m.row_indices@ == row_indices@
                    &&& m.col_indices@ == col_indices@
                    &&& m.values@ == values@
                },
                Err(SparseFormatError::InvalidStructure(m)) => {
                    &&& (row_indices@.len() != col_indices@.len()
                        || col_indices@.len() != values@.len())
                    &&& (row_indices@.len() != col_indices@.len()
                        ==> m@ == "Number of row and col indices must be the same."@)
                    &&& (row_indices@.len() == col_indices@.len()
                        ==> m@ == "Number of col indices and values must be the same."@)
                },
                Err(SparseFormatError::IndexOutOfBounds(m)) => {
                    &&& row_indices@.len() == col_indices@.len()
                    &&& col_indices@.len() == values@.len()
                    &&& ((exists|p: int|
                        0 <= p < values@.len()
                            && (#[trigger] row_indices@[p] as int) >= nrows as int)
                        || (exists|p: int|
                        0 <= p < values@.len()
                            && (#[trigger] col_indices@[p] as int) >= ncols as int))
                    &&& ((exists|p: int|
                        0 <= p < values@.len()
                            && (#[trigger] row_indices@[p] as int) >= nrows as int)
                        ==> m@ == "Row index out of bounds."@)
                    &&& (!(exists|p: int|
                        0 <= p < values@.len()
                            && (#[trigger] row_indices@[p] as int) >= nrows as int)
                        ==> m@ == "Col index out of bounds."@)
                },
            },
            r is Ok <==> {
                &&& row_indices@.len() == col_indices@.len()
                &&& col_indices@.len() == values@.len()
                &&& (forall|p: int| 0 <= p < values@.len()
                    ==> (#[trigger] row_indices@[p] as int) < nrows as int)
                &&& (forall|p: int| 0 <= p < values@.len()
                    ==> (#[trigger] col_indices@[p] as int) < ncols as int)
            },
    {
        if row_indices.len() != col_indices.len() {
            return Err(SparseFormatError::InvalidStructure(
                "Number of row and col indices must be the same.",
            ));
        }
        if col_indices.len() != values.len() {
            return Err(SparseFormatError::InvalidStructure(
                "Number of col indices and values must be the same.",
            ));
        }
        let n = values.len();
        let mut p: usize = 0;
        while p < n
            invariant
                p <= n,
                n == values@.len(),
                n == row_indices@.len(),
                n == col_indices@.len(),
                forall|q: int| 0 <= q < p
                    ==> (#[trigger] row_indices@[q] as int) < nrows as int,
            decreases n - p,
        {
            if row_indices[p] >= nrows {
                proof {
                    assert((row_indices@[p as int] as int) >= nrows as int);
                }
                return Err(SparseFormatError::IndexOutOfBounds("Row index out of bounds."));
            }
            p = p + 1;
        }
        let mut p: usize = 0;
        while p < n
            invariant
                p <= n,
                n == values@.len(),
                n == row_indices@.len(),
                n == col_indices@.len(),
                forall|q: int| 0 <= q < n
                    ==> (#[trigger] row_indices@[q] as int) < nrows as int,
                forall|q: int| 0 <= q < p
                    ==> (#[trigger] col_indices@[q] as int) < ncols as int,
            decreases n - p,
        {
            if col_indices[p] >= ncols {
                proof {
                    assert((col_indices@[p as int] as int) >= ncols as int);
                }
                return Err(SparseFormatError::IndexOutOfBounds("Col index out of bounds."));
            }
            p = p + 1;
        }
        Ok(CooMatrix { nrows, ncols, row_indices, col_indices, values })
    }

    /// Append one triplet. The indices must be in bounds: callers are
    /// expected to have validated them against the known dimensions.
    pub fn push(&mut self, i: usize, j: usize, v: i64)
        requires
            old(self).wf(),
            i < old(self).nrows,
            j < old(self).ncols,
        ensures
            final(self).wf(),
            final(self).nrows == old(self).nrows,
            final(self).ncols == old(self).ncols,
            final(self).row_indices@ == old(self).row_indices@.push(i),
            final(self).col_indices@ == old(self).col_indices@.push(j),
            final(self).values@ == old(self).values@.push(v),
    {
        self.row_indices.push(i);
        self.col_indices.push(j);
        self.values.push(v);
    }

    /// The number of rows.
    pub fn nrows(&self) -> (r: usize)
        ensures
            r == self.nrows,
    {
        self.nrows
    }

    /// The number of columns.
    pub fn ncols(&self) -> (r: usize)
        ensures
            r == self.ncols,
    {
        self.ncols
    }

    /// The row indices of the stored triplets, in storage order.
    pub fn row_indices(&self) -> (r: &Vec<usize>)
        ensures
            r@ == self.row_indices@,
    {
        &self.row_indices
    }

    /// The column indices of the stored triplets, in storage order.
    pub fn col_indices(&self) -> (r: &Vec<usize>)
        ensures
            r@ == self.col_indices@,
    {
        &self.col_indices
    }

    /// The values of the stored triplets, in storage order.
    pub fn values(&self) -> (r: &Vec<i64>)
        ensures
            r@ == self.values@,
    {
        &self.values
    }

    /// The stored triplets `(i, j, v)` in storage order (insertion order;
    /// no other ordering is guaranteed).
    pub fn triplet_iter(&self) -> (r: Vec<(usize, usize, i64)>)
        requires
            self.wf(),
        ensures
            r@.len() == self.values@.len(),
            forall|p: int| 0 <= p < r@.len()
                ==> #[trigger] r@[p]
                    == (self.row_indices@[p], self.col_indices@[p], self.values@[p]),
    {
        let n = self.values.len();
        let mut r: Vec<(usize, usize, i64)> = Vec::new();
        let mut p: usize = 0;
        while p < n
            invariant
                p <= n,
                self.wf(),
                n == self.values@.len(),
                r@.len() == p as int,
                forall|q: int| 0 <= q < p
                    ==> #[trigger] r@[q]
                        == (self.row_indices@[q], self.col_indices@[q], self.values@[q]),
            decreases n - p,
        {
            r.push((self.row_indices[p], self.col_indices[p], self.values[p]));
            p = p + 1;
        }
        r
    }

    /// Disassemble the matrix into its triplet arrays
    /// `(row_indices, col_indices, values)`.
    pub fn disassemble(self) -> (r: (Vec<usize>, Vec<usize>, Vec<i64>))
        ensures
            r.0@ == self.row_indices@,
            r.1@ == self.col_indices@,
            r.2@ == self.values@,
    {
        (self.row_indices, self.col_indices, self.values)
    }

    /// The dense matrix this triplet set represents: each cell holds the
    /// wrapped sum of all triplets stored for it, and cells with no
    /// triplet hold zero.
    pub fn to_dense(&self) -> (r: Matrix)
        requires
            self.wf(),
            self.nrows as int * self.ncols as int <= usize::MAX as int,
        ensures
            r.wf(),
            r.nrows == self.nrows,
            r.ncols == self.ncols,
            forall|i: int, j: int|
                0 <= i < self.nrows as int && 0 <= j < self.ncols as int
                    ==> r.ent(i, j) == self.ent(i, j),
    {
        let mut r = Matrix::zeros(self.nrows, self.ncols);
        let n = self.values.len();
        let mut p: usize = 0;
        while p < n
            invariant
                p <= n,
                self.wf(),
                n == self.values@.len(),
                r.wf(),
                r.nrows == self.nrows,
                r.ncols == self.ncols,
                forall|i: int, j: int|
                    0 <= i < self.nrows as int && 0 <= j < self.ncols as int
                        ==> r.ent(i, j) == coo_sum(
                            self.row_indices@, self.col_indices@, self.values@, i, j, p as int),
            decreases n - p,
        {
            let i = self.row_indices[p];
            let j = self.col_indices[p];
            let v = self.values[p];
            let cur = r.get(i, j);
            let ghost r_old = r;
            r.set(i, j, add_w(cur, v));
            p = p + 1;
            proof {
                assert forall|i2: int, j2: int|
                    0 <= i2 < self.nrows as int && 0 <= j2 < self.ncols as int
                        implies r.ent(i2, j2) == coo_sum(
                            self.row_indices@, self.col_indices@, self.values@, i2, j2,
                            p as int) by {
                    if i2 == i as int && j2 == j as int {
                        assert(r.ent(i2, j2) == wadd(r_old.ent(i2, j2), v as int));
                    } else {
                        assert(r.ent(i2, j2) == r_old.ent(i2, j2));
                    }
                }
            }
        }
        r
    }
}

} // verus!
