use sparse_linalg::csc::CscMatrix;
use sparse_linalg::csr::CsrMatrix;
use sparse_linalg::dense::Matrix;
use sparse_linalg::ops::Op;
use sparse_linalg::spmm_dense::{spmm_csr_dense, spmm_csc_dense};
use sparse_linalg::spadd::{spadd_csr_prealloc, spadd_csc_prealloc};
use sparse_linalg::spmm::{spmm_csr_prealloc_checked, spmm_csr_prealloc_unchecked,
    spmm_csc_prealloc};
use sparse_linalg::OperationErrorKind;

// [[1, 0, 2], [0, 3, 0]] in CSR form
fn a_csr() -> CsrMatrix {
    CsrMatrix::try_from_csr_data(2, 3, vec![0, 2, 3], vec![0, 2, 1], vec![1, 2, 3]).unwrap()
}

// [[1, 2], [0, 1], [4, 0]] dense
fn b_dense() -> Matrix {
    Matrix::from_row_major(3, 2, vec![1, 2, 0, 1, 4, 0]).unwrap()
}

fn naive_spmm(beta: i64, c: &Matrix, alpha: i64, a: &Matrix, b: &Matrix) -> Vec<i64> {
    let mut out = Vec::new();
    for i in 0..c.nrows() {
        for j in 0..c.ncols() {
            let mut acc = beta.wrapping_mul(c.get(i, j));
            for k in 0..a.ncols() {
                acc = acc.wrapping_add(
                    alpha.wrapping_mul(a.get(i, k).wrapping_mul(b.get(k, j))));
            }
            out.push(acc);
        }
    }
    out
}

#[test]
fn spmm_csr_dense_matches_naive_product() {
    let a = a_csr();
    let b = b_dense();
    let a_dense = Matrix::from_row_major(2, 3, vec![1, 0, 2, 0, 3, 0]).unwrap();
    let mut c = Matrix::from_row_major(2, 2, vec![10, 20, 30, 40]).unwrap();
    let expected = naive_spmm(2, &c, 3, &a_dense, &b);
    spmm_csr_dense(2, &mut c, 3, Op::NoOp(&a), Op::NoOp(&b));
    let mut got = Vec::new();
    for i in 0..2 {
        for j in 0..2 {
            got.push(c.get(i, j));
        }
    }
    assert_eq!(got, expected);
    // A = [[1,0,2],[0,3,0]], B = [[1,2],[0,1],[4,0]]: A*B = [[9,2],[0,3]]
    assert_eq!(c.get(0, 0), 2 * 10 + 3 * 9);
    assert_eq!(c.get(0, 1), 2 * 20 + 3 * 2);
    assert_eq!(c.get(1, 0), 2 * 30 + 3 * 0);
    assert_eq!(c.get(1, 1), 2 * 40 + 3 * 3);
}

#[test]
fn spmm_csr_dense_transposed_operands() {
    let a = a_csr();
    // op(A) = A^T is 3x2; B is 2x2 dense read transposed (B^T with B 2x2).
    let b = Matrix::from_row_major(2, 2, vec![1, 2, 3, 4]).unwrap();
    let mut c = Matrix::from_row_major(3, 2, vec![0; 6]).unwrap();
    spmm_csr_dense(0, &mut c, 1, Op::Transpose(&a), Op::Transpose(&b));
    // A^T = [[1,0],[0,3],[2,0]], B^T = [[1,3],[2,4]]; A^T * B^T =
    // [[1,3],[6,12],[2,6]]
    let expected = vec![1, 3, 6, 12, 2, 6];
    let mut got = Vec::new();
    for i in 0..3 {
        for j in 0..2 {
            got.push(c.get(i, j));
        }
    }
    assert_eq!(got, expected);
}

#[test]
fn spmm_csc_dense_matches_csr() {
    // Same logical A as a_csr, in CSC form: cols [0], [1], [2] hold
    // (0,0)=1; (1,1)=3; (0,2)=2.
    let a = CscMatrix::try_from_csc_data(2, 3, vec![0, 1, 2, 3], vec![0, 1, 0],
        vec![1, 3, 2]).unwrap();
    let b = b_dense();
    let mut c = Matrix::from_row_major(2, 2, vec![0; 4]).unwrap();
    spmm_csc_dense(0, &mut c, 1, Op::NoOp(&a), Op::NoOp(&b));
    assert_eq!(c.get(0, 0), 9);
    assert_eq!(c.get(0, 1), 2);
    assert_eq!(c.get(1, 0), 0);
    assert_eq!(c.get(1, 1), 3);
}

#[test]
fn spadd_csr_accumulates_into_pattern() {
    // C pattern covers A's entries
    let mut c = CsrMatrix::try_from_csr_data(2, 3, vec![0, 2, 3], vec![0, 2, 1],
        vec![10, 20, 30]).unwrap();
    let a = a_csr();
    let r = spadd_csr_prealloc(2, &mut c, 5, Op::NoOp(&a));
    assert!(r.is_ok());
    assert_eq!(c.cs.values, vec![2 * 10 + 5 * 1, 2 * 20 + 5 * 2, 2 * 30 + 5 * 3]);
}

#[test]
fn spadd_csr_linearity_in_alpha() {
    let a = a_csr();
    let start = vec![10, 20, 30];
    let (alpha1, alpha2, beta) = (4i64, 9i64, 3i64);
    let mut c_once = CsrMatrix::try_from_csr_data(2, 3, vec![0, 2, 3], vec![0, 2, 1],
        start.clone()).unwrap();
    spadd_csr_prealloc(beta, &mut c_once, alpha1 + alpha2, Op::NoOp(&a)).unwrap();
    let mut c_twice = CsrMatrix::try_from_csr_data(2, 3, vec![0, 2, 3], vec![0, 2, 1],
        start).unwrap();
    spadd_csr_prealloc(beta, &mut c_twice, alpha1, Op::NoOp(&a)).unwrap();
    spadd_csr_prealloc(1, &mut c_twice, alpha2, Op::NoOp(&a)).unwrap();
    assert_eq!(c_once.cs.values, c_twice.cs.values);
}

#[test]
fn spadd_missing_slot_is_invalid_pattern() {
    // C's pattern misses A's entry at (0, 2)
    let mut c = CsrMatrix::try_from_csr_data(2, 3, vec![0, 1, 2], vec![0, 1],
        vec![10, 30]).unwrap();
    let a = a_csr();
    let r = spadd_csr_prealloc(1, &mut c, 1, Op::NoOp(&a));
    assert!(r.is_err());
    assert_eq!(r.unwrap_err().kind(), OperationErrorKind::InvalidPattern);
}

#[test]
fn spadd_csc_transposed_source() {
    // C (CSC, 3x2) += A^T where A is 2x3 CSC
    let a = CscMatrix::try_from_csc_data(2, 3, vec![0, 1, 2, 3], vec![0, 1, 0],
        vec![1, 3, 2]).unwrap();
    // A^T is 3x2 with entries (0,0)=1, (1,1)=3, (2,0)=2
    let mut c = CscMatrix::try_from_csc_data(3, 2, vec![0, 2, 3], vec![0, 2, 1],
        vec![0, 0, 0]).unwrap();
    spadd_csc_prealloc(1, &mut c, 1, Op::Transpose(&a)).unwrap();
    assert_eq!(c.cs.values, vec![1, 2, 3]);
}

#[test]
fn spmm_csr_prealloc_checked_computes_product() {
    // A (2x3) * B (3x2): A = [[1,0,2],[0,3,0]], B = [[1,2],[0,1],[4,0]]
    let a = a_csr();
    let b = CsrMatrix::try_from_csr_data(3, 2, vec![0, 2, 3, 4], vec![0, 1, 1, 0],
        vec![1, 2, 1, 4]).unwrap();
    // full 2x2 pattern
    let mut c = CsrMatrix::try_from_csr_data(2, 2, vec![0, 2, 4], vec![0, 1, 0, 1],
        vec![0, 0, 0, 0]).unwrap();
    spmm_csr_prealloc_checked(0, &mut c, 1, Op::NoOp(&a), Op::NoOp(&b)).unwrap();
    assert_eq!(c.cs.values, vec![9, 2, 0, 3]);
}

#[test]
fn spmm_checked_agrees_with_dense_kernel() {
    let a = a_csr();
    let bs = CsrMatrix::try_from_csr_data(3, 2, vec![0, 2, 3, 4], vec![0, 1, 1, 0],
        vec![1, 2, 1, 4]).unwrap();
    let bd = b_dense();
    let mut cs = CsrMatrix::try_from_csr_data(2, 2, vec![0, 2, 4], vec![0, 1, 0, 1],
        vec![7, 8, 9, 11]).unwrap();
    let mut cd = Matrix::from_row_major(2, 2, vec![7, 8, 9, 11]).unwrap();
    spmm_csr_prealloc_checked(5, &mut cs, 3, Op::NoOp(&a), Op::NoOp(&bs)).unwrap();
    spmm_csr_dense(5, &mut cd, 3, Op::NoOp(&a), Op::NoOp(&bd));
    for i in 0..2 {
        for j in 0..2 {
            let pos = 2 * i + j;
            assert_eq!(cs.cs.values[pos], cd.get(i, j));
        }
    }
}

#[test]
fn spmm_checked_rejects_insufficient_pattern() {
    let a = a_csr();
    let b = CsrMatrix::try_from_csr_data(3, 2, vec![0, 2, 3, 4], vec![0, 1, 1, 0],
        vec![1, 2, 1, 4]).unwrap();
    // pattern with row 0 missing column 1, which the product needs
    let mut c = CsrMatrix::try_from_csr_data(2, 2, vec![0, 1, 3], vec![0, 0, 1],
        vec![0, 0, 0]).unwrap();
    let before = c.cs.values.clone();
    let r = spmm_csr_prealloc_checked(0, &mut c, 1, Op::NoOp(&a), Op::NoOp(&b));
    assert!(r.is_err());
    assert_eq!(r.unwrap_err().kind(), OperationErrorKind::InvalidPattern);
    assert_eq!(c.cs.values, before);
}

#[test]
fn spmm_unchecked_matches_checked_on_covering_pattern() {
    let a = a_csr();
    let b = CsrMatrix::try_from_csr_data(3, 2, vec![0, 2, 3, 4], vec![0, 1, 1, 0],
        vec![1, 2, 1, 4]).unwrap();
    let mut c1 = CsrMatrix::try_from_csr_data(2, 2, vec![0, 2, 4], vec![0, 1, 0, 1],
        vec![1, 1, 1, 1]).unwrap();
    let mut c2 = CsrMatrix::try_from_csr_data(2, 2, vec![0, 2, 4], vec![0, 1, 0, 1],
        vec![1, 1, 1, 1]).unwrap();
    spmm_csr_prealloc_checked(7, &mut c1, 2, Op::NoOp(&a), Op::NoOp(&b)).unwrap();
    spmm_csr_prealloc_unchecked(7, &mut c2, 2, Op::NoOp(&a), Op::NoOp(&b)).unwrap();
    assert_eq!(c1.cs.values, c2.cs.values);
}

#[test]
fn spmm_csc_prealloc_computes_product() {
    // A (2x2) = [[1,2],[0,1]] in CSC; B (2x2) = [[5,0],[0,7]] in CSC
    let a = CscMatrix::try_from_csc_data(2, 2, vec![0, 1, 3], vec![0, 0, 1],
        vec![1, 2, 1]).unwrap();
    let b = CscMatrix::try_from_csc_data(2, 2, vec![0, 1, 2], vec![0, 1],
        vec![5, 7]).unwrap();
    // full 2x2 pattern in CSC
    let mut c = CscMatrix::try_from_csc_data(2, 2, vec![0, 2, 4], vec![0, 1, 0, 1],
        vec![0, 0, 0, 0]).unwrap();
    spmm_csc_prealloc(0, &mut c, 1, Op::NoOp(&a), Op::NoOp(&b)).unwrap();
    // A*B = [[5,14],[0,7]] in column-major values: col0 = [5,0], col1 = [14,7]
    assert_eq!(c.cs.values, vec![5, 0, 14, 7]);
}

#[test]
fn spmm_transposed_sparse_operands() {
    // C = A^T * A with A = [[1,0,2],[0,3,0]] (CSR): A^T*A is 3x3:
    // [[1,0,2],[0,9,0],[2,0,4]]
    let a = a_csr();
    let mut c = CsrMatrix::try_from_csr_data(3, 3,
        vec![0, 3, 6, 9], vec![0, 1, 2, 0, 1, 2, 0, 1, 2], vec![0; 9]).unwrap();
    spmm_csr_prealloc_checked(0, &mut c, 1, Op::Transpose(&a), Op::NoOp(&a)).unwrap();
    assert_eq!(c.cs.values, vec![1, 0, 2, 0, 9, 0, 2, 0, 4]);
}
