use sparse_linalg::coo::CooMatrix;
use sparse_linalg::csc::CscMatrix;
use sparse_linalg::csr::CsrMatrix;
use sparse_linalg::SparseFormatError;

#[test]
fn coo_new_is_empty() {
    let coo = CooMatrix::new(4, 4);
    assert_eq!(coo.nrows(), 4);
    assert_eq!(coo.ncols(), 4);
    assert_eq!(coo.values().len(), 0);
}

#[test]
fn coo_try_from_triplets_round_trip() {
    let coo = CooMatrix::try_from_triplets(2, 3, vec![0, 1], vec![1, 2], vec![1, 2]).unwrap();
    let (rows, cols, vals) = coo.disassemble();
    assert_eq!(rows, vec![0, 1]);
    assert_eq!(cols, vec![1, 2]);
    assert_eq!(vals, vec![1, 2]);
}

#[test]
fn coo_to_dense_places_each_triplet() {
    let coo = CooMatrix::try_from_triplets(2, 3, vec![0, 1], vec![1, 2], vec![1, 2]).unwrap();
    let d = coo.to_dense();
    assert_eq!(d.nrows(), 2);
    assert_eq!(d.ncols(), 3);
    for i in 0..2 {
        for j in 0..3 {
            let expected = if (i, j) == (0, 1) {
                1
            } else if (i, j) == (1, 2) {
                2
            } else {
                0
            };
            assert_eq!(d.get(i, j), expected);
        }
    }
}

#[test]
fn coo_to_dense_sums_duplicates() {
    let coo =
        CooMatrix::try_from_triplets(2, 2, vec![0, 0, 1], vec![0, 0, 1], vec![3, 4, 7]).unwrap();
    let d = coo.to_dense();
    assert_eq!(d.get(0, 0), 7);
    assert_eq!(d.get(1, 1), 7);
    assert_eq!(d.get(0, 1), 0);
    assert_eq!(d.get(1, 0), 0);
}

#[test]
fn coo_length_mismatch_is_invalid_structure() {
    let r = CooMatrix::try_from_triplets(2, 2, vec![0], vec![0, 1], vec![1, 2]);
    assert!(matches!(r, Err(SparseFormatError::InvalidStructure(_))));
    let r = CooMatrix::try_from_triplets(2, 2, vec![0, 1], vec![0, 1], vec![1]);
    assert!(matches!(r, Err(SparseFormatError::InvalidStructure(_))));
}

#[test]
fn coo_out_of_bounds_index_is_reported() {
    let r = CooMatrix::try_from_triplets(2, 2, vec![2], vec![0], vec![1]);
    assert!(matches!(r, Err(SparseFormatError::IndexOutOfBounds(_))));
    let r = CooMatrix::try_from_triplets(2, 2, vec![0], vec![5], vec![1]);
    assert!(matches!(r, Err(SparseFormatError::IndexOutOfBounds(_))));
}

#[test]
fn coo_push_appends_triplets() {
    let mut coo = CooMatrix::new(3, 3);
    coo.push(2, 0, 1);
    coo.push(2, 0, 5);
    let d = coo.to_dense();
    assert_eq!(d.get(2, 0), 6);
}

#[test]
fn coo_triplet_iter_is_storage_order() {
    let coo = CooMatrix::try_from_triplets(2, 3, vec![1, 0], vec![2, 1], vec![9, 8]).unwrap();
    let ts = coo.triplet_iter();
    assert_eq!(ts, vec![(1, 2, 9), (0, 1, 8)]);
}

#[test]
fn csc_construction_validates_structure() {
    // 2x2 identity in CSC form
    let m = CscMatrix::try_from_csc_data(2, 2, vec![0, 1, 2], vec![0, 1], vec![1, 1]).unwrap();
    assert_eq!(m.nrows(), 2);
    assert_eq!(m.ncols(), 2);
    assert_eq!(m.nnz(), 2);
    // bad offsets length
    let r = CscMatrix::try_from_csc_data(2, 2, vec![0, 2], vec![0, 1], vec![1, 1]);
    assert!(matches!(r, Err(SparseFormatError::InvalidStructure(_))));
    // non-monotone offsets
    let r = CscMatrix::try_from_csc_data(2, 2, vec![0, 2, 1], vec![0, 1], vec![1, 1]);
    assert!(matches!(r, Err(SparseFormatError::InvalidStructure(_))));
    // unsorted rows within a column
    let r = CscMatrix::try_from_csc_data(2, 1, vec![0, 2], vec![1, 0], vec![1, 1]);
    assert!(matches!(r, Err(SparseFormatError::InvalidStructure(_))));
    // row index out of bounds
    let r = CscMatrix::try_from_csc_data(2, 2, vec![0, 1, 2], vec![0, 7], vec![1, 1]);
    assert!(matches!(r, Err(SparseFormatError::IndexOutOfBounds(_))));
}

#[test]
fn csr_transpose_swaps_entries() {
    // [[1, 2, 0], [0, 0, 3]] in CSR form
    let m = CsrMatrix::try_from_csr_data(2, 3, vec![0, 2, 3], vec![0, 1, 2], vec![1, 2, 3])
        .unwrap();
    let t = m.transpose();
    assert_eq!(t.nrows(), 3);
    assert_eq!(t.ncols(), 2);
    assert_eq!(t.cs.offsets, vec![0, 1, 2, 3]);
    assert_eq!(t.cs.minor_indices, vec![0, 0, 1]);
    assert_eq!(t.cs.values, vec![1, 2, 3]);
}

#[test]
fn coo_error_messages_name_the_invariant() {
    let r = CooMatrix::try_from_triplets(2, 2, vec![0], vec![0, 1], vec![1, 2]);
    match r {
        Err(SparseFormatError::InvalidStructure(m)) => {
            assert_eq!(m, "Number of row and col indices must be the same.");
        },
        _ => panic!("expected a structure error"),
    }
    let r = CooMatrix::try_from_triplets(2, 2, vec![2], vec![0], vec![1]);
    match r {
        Err(SparseFormatError::IndexOutOfBounds(m)) => {
            assert_eq!(m, "Row index out of bounds.");
        },
        _ => panic!("expected a bounds error"),
    }
    let r = CooMatrix::try_from_triplets(2, 2, vec![0], vec![5], vec![1]);
    match r {
        Err(SparseFormatError::IndexOutOfBounds(m)) => {
            assert_eq!(m, "Col index out of bounds.");
        },
        _ => panic!("expected a bounds error"),
    }
}
