//! Compressed sparse column (CSC) matrices: compressed storage whose
//! major dimension runs over columns.

use vstd::prelude::*;
use crate::SparseFormatError;
use crate::cs::{CsMatrix, parts_structure_ok, parts_bounds_ok};

verus! {

/// A sparse matrix in CSC format: one sorted slice of `(row, value)`
/// pairs per column.
pub struct CscMatrix {
    pub cs: CsMatrix,
}

impl CscMatrix {
    /// The structural invariant of the underlying compressed storage.
    pub open spec fn wf(&self) -> bool {
        self.cs.wf()
    }

    /// The number of rows.
    pub open spec fn nrows_spec(&self) -> int {
        self.cs.minor_dim as int
    }

    /// The number of columns.
    pub open spec fn ncols_spec(&self) -> int {
        self.cs.major_dim as int
    }

    /// The entry at row `i`, column `j` (zero when not stored).
    pub open spec fn at(&self, i: int, j: int) -> int {
        self.cs.at(j, i)
    }

    /// The cell at row `i`, column `j` is explicitly stored.
    pub open spec fn stored(&self, i: int, j: int) -> bool {
        self.cs.slice_has(j, i)
    }

    /// The number of rows.
    pub fn nrows(&self) -> (r: usize)
        ensures
            r as int == self.nrows_spec(),
    {
        self.cs.minor_dim
    }

    /// The number of columns.
    pub fn ncols(&self) -> (r: usize)
        ensures
            r as int == self.ncols_spec(),
    {
        self.cs.major_dim
    }

    /// The number of explicitly stored entries.
    pub fn nnz(&self) -> (r: usize)
        ensures
            r as int == self.cs.nnz(),
    {
        self.cs.minor_indices.len()
    }

    /// Build a CSC matrix from raw compressed-column data, validating the
    /// full structural invariant; see `CsMatrix::try_from_parts`.
    pub fn try_from_csc_data(
        nrows: usize,
        ncols: usize,
        col_offsets: Vec<usize>,
        row_indices: Vec<usize>,
        values: Vec<i64>,
    ) -> (r: Result<CscMatrix, SparseFormatError>)
        ensures
            r is Ok <==> (parts_structure_ok(ncols as int, col_offsets@, row_indices@, values@)
                && parts_bounds_ok(nrows as int, row_indices@)),
            match r {
                Ok(m) => {
                    &&& m.wf()
                    &&& m.nrows_spec() == nrows as int
                    &&& m.ncols_spec() == ncols as int
                    &&& m.cs.offsets@ == col_offsets@
                    &&& m.cs.minor_indices@ == row_indices@
                    &&& m.cs.values@ == values@
                },
                Err(SparseFormatError::InvalidStructure(_)) => !parts_structure_ok(
                    ncols as int, col_offsets@, row_indices@, values@),
                Err(SparseFormatError::IndexOutOfBounds(_)) => parts_structure_ok(
                    ncols as int, col_offsets@, row_indices@, values@)
                    && !parts_bounds_ok(nrows as int, row_indices@),
            },
    {
        match CsMatrix::try_from_parts(ncols, nrows, col_offsets, row_indices, values) {
            Ok(cs) => Ok(CscMatrix { cs }),
            Err(e) => Err(e),
        }
    }

    /// The transpose: entry `(i, j)` becomes entry `(j, i)`.
    pub fn transpose(&self) -> (r: CscMatrix)
        requires
            self.wf(),
        ensures
            r.wf(),
            r.nrows_spec() == self.ncols_spec(),
            r.ncols_spec() == self.nrows_spec(),
            forall|i: int, j: int|
                0 <= i < self.nrows_spec() && 0 <= j < self.ncols_spec()
                    ==> #[trigger] r.at(j, i) == self.at(i, j),
            forall|i: int, j: int|
                0 <= i < self.nrows_spec() && 0 <= j < self.ncols_spec()
                    ==> (#[trigger] r.stored(j, i)) == self.stored(i, j),
    {
        CscMatrix { cs: self.cs.transpose() }
    }
}

} // verus!
