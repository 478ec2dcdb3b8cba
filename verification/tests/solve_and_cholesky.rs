use sparse_linalg::csc::CscMatrix;
use sparse_linalg::dense::Matrix;
use sparse_linalg::ops::Op;
use sparse_linalg::solve::{spsolve_csc_lower_triangular, SolveErrorKind};
use sparse_linalg::cholesky::CsCholesky;
use sparse_linalg::spmm_dense::spmm_csc_dense;

fn identity_csc(n: usize) -> CscMatrix {
    let mut offsets = Vec::new();
    let mut rows = Vec::new();
    let mut vals = Vec::new();
    for i in 0..n {
        offsets.push(i);
        rows.push(i);
        vals.push(1);
    }
    offsets.push(n);
    CscMatrix::try_from_csc_data(n, n, offsets, rows, vals).unwrap()
}

#[test]
fn solve_identity_returns_rhs() {
    let l = identity_csc(3);
    let mut b = Matrix::from_row_major(3, 2, vec![1, 2, 3, 4, 5, 6]).unwrap();
    spsolve_csc_lower_triangular(Op::NoOp(&l), &mut b).unwrap();
    assert_eq!(b.get(0, 0), 1);
    assert_eq!(b.get(0, 1), 2);
    assert_eq!(b.get(1, 0), 3);
    assert_eq!(b.get(1, 1), 4);
    assert_eq!(b.get(2, 0), 5);
    assert_eq!(b.get(2, 1), 6);
}

#[test]
fn solve_lower_triangular_exact() {
    // L = [[2,0],[3,4]] in CSC: col0 rows 0,1 values 2,3; col1 row 1 value 4
    let l = CscMatrix::try_from_csc_data(2, 2, vec![0, 2, 3], vec![0, 1, 1],
        vec![2, 3, 4]).unwrap();
    // B = L * X for X = [[5],[6]]: B = [[10],[39]]
    let mut b = Matrix::from_row_major(2, 1, vec![10, 39]).unwrap();
    spsolve_csc_lower_triangular(Op::NoOp(&l), &mut b).unwrap();
    assert_eq!(b.get(0, 0), 5);
    assert_eq!(b.get(1, 0), 6);
}

#[test]
fn solve_transpose_lower_triangular_exact() {
    // L as above; solve L^T X = B with X = [[7],[2]]:
    // L^T = [[2,3],[0,4]], B = [[2*7+3*2],[4*2]] = [[20],[8]]
    let l = CscMatrix::try_from_csc_data(2, 2, vec![0, 2, 3], vec![0, 1, 1],
        vec![2, 3, 4]).unwrap();
    let mut b = Matrix::from_row_major(2, 1, vec![20, 8]).unwrap();
    spsolve_csc_lower_triangular(Op::Transpose(&l), &mut b).unwrap();
    assert_eq!(b.get(0, 0), 7);
    assert_eq!(b.get(1, 0), 2);
}

#[test]
fn solve_zero_diagonal_is_singular() {
    // explicit zero on the diagonal of column 1
    let l = CscMatrix::try_from_csc_data(2, 2, vec![0, 1, 2], vec![0, 1],
        vec![1, 0]).unwrap();
    let mut b = Matrix::from_row_major(2, 1, vec![1, 1]).unwrap();
    let r = spsolve_csc_lower_triangular(Op::NoOp(&l), &mut b);
    assert!(r.is_err());
    assert_eq!(r.unwrap_err().kind(), SolveErrorKind::Singular);
}

#[test]
fn solve_missing_diagonal_is_singular() {
    // column 0 stores only row 1: no diagonal entry at all
    let l = CscMatrix::try_from_csc_data(2, 2, vec![0, 1, 2], vec![1, 1],
        vec![5, 5]).unwrap();
    let mut b = Matrix::from_row_major(2, 1, vec![1, 1]).unwrap();
    let r = spsolve_csc_lower_triangular(Op::NoOp(&l), &mut b);
    assert!(r.is_err());
    assert_eq!(r.unwrap_err().kind(), SolveErrorKind::Singular);
}

#[test]
fn cholesky_identity_factors_to_identity() {
    let a = identity_csc(3);
    let engine = CsCholesky::new(&a);
    let l = engine.l().expect("identity is positive definite");
    assert_eq!(l.nrows(), 3);
    assert_eq!(l.ncols(), 3);
    assert_eq!(l.nnz(), 3);
    for k in 0..3 {
        assert_eq!(l.cs.minor_indices[k], k);
        assert_eq!(l.cs.values[k], 1);
    }
}

#[test]
fn cholesky_exact_two_by_two() {
    // A = L0 * L0^T with L0 = [[2,0],[3,1]]: A = [[4,6],[6,10]].
    // Upper triangle of A in CSC: col0 row0=4; col1 rows 0,1 = 6,10.
    let a = CscMatrix::try_from_csc_data(2, 2, vec![0, 1, 3], vec![0, 0, 1],
        vec![4, 6, 10]).unwrap();
    let engine = CsCholesky::new(&a);
    let l = engine.l().expect("matrix is positive definite");
    // L = [[2,0],[3,1]] in CSC: col0 rows 0,1 values 2,3; col1 row1 value 1
    assert_eq!(l.cs.offsets, vec![0, 2, 3]);
    assert_eq!(l.cs.minor_indices, vec![0, 1, 1]);
    assert_eq!(l.cs.values, vec![2, 3, 1]);
}

#[test]
fn cholesky_rejects_nonpositive_pivot() {
    // A with a negative diagonal cannot be factored
    let a = CscMatrix::try_from_csc_data(2, 2, vec![0, 1, 2], vec![0, 1],
        vec![-4, 9]).unwrap();
    let mut engine = CsCholesky::new_symbolic(&a);
    let ok = engine.decompose(&[-4, 9]);
    assert!(!ok);
    assert!(engine.l().is_none());
    assert!(engine.unwrap_l().is_none());
}

#[test]
fn cholesky_symbolic_reusable_across_values() {
    // same pattern, two value sets: 2x2 diagonal matrices
    let a = CscMatrix::try_from_csc_data(2, 2, vec![0, 1, 2], vec![0, 1],
        vec![4, 9]).unwrap();
    let mut engine = CsCholesky::new_symbolic(&a);
    assert!(engine.l().is_none());
    assert!(engine.decompose(&[4, 9]));
    assert_eq!(engine.l().unwrap().cs.values, vec![2, 3]);
    assert!(engine.decompose(&[16, 25]));
    assert_eq!(engine.l().unwrap().cs.values, vec![4, 5]);
    assert!(!engine.decompose(&[16, -1]));
    assert!(engine.l().is_none());
}

#[test]
fn solve_round_trip_multiplies_back() {
    // L = [[1,0,0],[2,1,0],[4,3,1]]: unit diagonal, so every division is
    // exact and multiplying the solution back recovers the right-hand side.
    let l = CscMatrix::try_from_csc_data(
        3, 3, vec![0, 3, 5, 6], vec![0, 1, 2, 1, 2, 2], vec![1, 2, 4, 1, 3, 1],
    ).unwrap();
    let b0 = vec![7, -2, 9, 1, 0, 5];
    let mut x = Matrix::from_row_major(3, 2, b0.clone()).unwrap();
    spsolve_csc_lower_triangular(Op::NoOp(&l), &mut x).unwrap();
    // multiply back: B2 = L * X
    let mut b2 = Matrix::from_row_major(3, 2, vec![0; 6]).unwrap();
    spmm_csc_dense(0, &mut b2, 1, Op::NoOp(&l), Op::NoOp(&x));
    for i in 0..3 {
        for j in 0..2 {
            assert_eq!(b2.get(i, j), b0[2 * i + j]);
        }
    }
    // and the transpose variant: L^T * X2 == B
    let mut x2 = Matrix::from_row_major(3, 2, b0.clone()).unwrap();
    spsolve_csc_lower_triangular(Op::Transpose(&l), &mut x2).unwrap();
    let mut b3 = Matrix::from_row_major(3, 2, vec![0; 6]).unwrap();
    spmm_csc_dense(0, &mut b3, 1, Op::Transpose(&l), Op::NoOp(&x2));
    for i in 0..3 {
        for j in 0..2 {
            assert_eq!(b3.get(i, j), b0[2 * i + j]);
        }
    }
}

#[test]
fn cholesky_factor_reconstructs_the_matrix() {
    // A = [[4,6],[6,10]] (upper triangle stored); its factor is
    // L = [[2,0],[3,1]], and L * L^T must reproduce A in full.
    let a = CscMatrix::try_from_csc_data(2, 2, vec![0, 1, 3], vec![0, 0, 1],
        vec![4, 6, 10]).unwrap();
    let engine = CsCholesky::new(&a);
    let l = engine.l().expect("matrix is positive definite");
    let l_dense = Matrix::from_row_major(2, 2, vec![2, 0, 3, 1]).unwrap();
    let mut prod = Matrix::from_row_major(2, 2, vec![0; 4]).unwrap();
    spmm_csc_dense(0, &mut prod, 1, Op::NoOp(l), Op::Transpose(&l_dense));
    assert_eq!(prod.get(0, 0), 4);
    assert_eq!(prod.get(0, 1), 6);
    assert_eq!(prod.get(1, 0), 6);
    assert_eq!(prod.get(1, 1), 10);
}

#[test]
fn solve_error_carries_the_message() {
    let l = CscMatrix::try_from_csc_data(1, 1, vec![0, 1], vec![0], vec![0]).unwrap();
    let mut b = Matrix::from_row_major(1, 1, vec![1]).unwrap();
    let e = spsolve_csc_lower_triangular(Op::NoOp(&l), &mut b).unwrap_err();
    assert_eq!(e.message(), "Matrix contains at least one diagonal entry that is zero.");
}

#[test]
fn decompose_is_deterministic_across_runs() {
    let a = CscMatrix::try_from_csc_data(2, 2, vec![0, 1, 3], vec![0, 0, 1],
        vec![4, 6, 10]).unwrap();
    let mut engine = CsCholesky::new_symbolic(&a);
    assert!(engine.decompose(&[4, 6, 10]));
    let first = engine.l().unwrap().cs.values.clone();
    assert!(engine.decompose(&[4, 6, 10]));
    assert_eq!(engine.l().unwrap().cs.values, first);
}
