use sparse_linalg::dense::{Matrix, EuclideanNorm, UniformNorm, LpNorm};
use sparse_linalg::dvec::DVec;
use sparse_linalg::reflection::Reflection;
use sparse_linalg::scale::Scale;
use sparse_linalg::scalar::{add_w, sub_w, mul_w, div_w, abs_w, isqrt};

#[test]
fn wrapping_scalar_operations() {
    assert_eq!(add_w(i64::MAX, 1), i64::MIN);
    assert_eq!(sub_w(i64::MIN, 1), i64::MAX);
    assert_eq!(mul_w(1 << 62, 4), 0);
    assert_eq!(div_w(-7, 2), -3);
    assert_eq!(div_w(i64::MIN, -1), i64::MIN);
    assert_eq!(abs_w(-5), 5);
    assert_eq!(abs_w(i64::MIN), i64::MIN);
    assert_eq!(isqrt(0), 0);
    assert_eq!(isqrt(15), 3);
    assert_eq!(isqrt(16), 4);
    assert_eq!(isqrt(i64::MAX), 3037000499);
}

#[test]
fn matrix_norms_are_exact() {
    let m = Matrix::from_row_major(2, 2, vec![3, 4, 0, -2]).unwrap();
    assert_eq!(m.norm_squared(), 9 + 16 + 4);
    assert_eq!(m.magnitude_squared(), 29);
    // floor of sqrt(29) is 5
    assert_eq!(m.norm(), 5);
    assert_eq!(m.magnitude(), 5);
    assert_eq!(m.apply_norm(&UniformNorm), 4);
    let v = Matrix::from_row_major(2, 1, vec![3, 4]).unwrap();
    assert_eq!(v.apply_norm(&EuclideanNorm), 5);
}

#[test]
fn matrix_metric_distance_is_exact() {
    let m1 = Matrix::from_row_major(1, 2, vec![1, 2]).unwrap();
    let m2 = Matrix::from_row_major(1, 2, vec![4, 6]).unwrap();
    // difference (-3, -4): Euclidean distance 5, uniform distance 4
    assert_eq!(m1.metric_distance(&m2), 5);
    assert_eq!(m1.apply_metric_distance(&m2, &EuclideanNorm), 5);
    assert_eq!(m1.apply_metric_distance(&m2, &UniformNorm), 4);
}

#[test]
fn dvec_constructors_and_dot() {
    let z = DVec::new_zeros(3);
    assert!(z.is_zero());
    let o = DVec::new_ones(3);
    assert!(!o.is_zero());
    assert_eq!(o.len(), 3);
    let a = DVec::from_elem(3, 2);
    assert_eq!(a.dot(&o), 6);
    let basis = DVec::canonical_basis_with_dim(3);
    assert_eq!(basis.len(), 3);
    for (i, e) in basis.iter().enumerate() {
        for j in 0..3 {
            assert_eq!(e.get(j), if i == j { 1 } else { 0 });
        }
    }
}

#[test]
fn reflect_flips_along_axis() {
    // reflecting about the plane orthogonal to (1, 0) negates the first
    // coordinate of each column
    let axis = {
        let mut v = DVec::new_zeros(2);
        v.set(0, 1);
        v
    };
    let refl = Reflection::new(axis, 0);
    assert_eq!(refl.axis().get(0), 1);
    let mut m = Matrix::from_row_major(2, 2, vec![3, -1, 7, 2]).unwrap();
    refl.reflect(&mut m);
    assert_eq!(m.get(0, 0), -3);
    assert_eq!(m.get(0, 1), 1);
    assert_eq!(m.get(1, 0), 7);
    assert_eq!(m.get(1, 1), 2);
}

#[test]
fn reflect_with_sign_scales_columns() {
    let axis = {
        let mut v = DVec::new_zeros(2);
        v.set(0, 1);
        v
    };
    let refl = Reflection::new(axis, 0);
    let mut m = Matrix::from_row_major(2, 1, vec![3, 7]).unwrap();
    // sign = -1: column becomes -column + factor * axis with
    // factor = (3 - 0) * 2 = 6, so first entry -3 + 6 = 3, second -7
    refl.reflect_with_sign(&mut m, -1);
    assert_eq!(m.get(0, 0), 3);
    assert_eq!(m.get(1, 0), -7);
}

#[test]
fn reflect_rows_flips_along_axis() {
    // reflecting the rows about the plane orthogonal to (0, 1) negates the
    // second column
    let axis = {
        let mut v = DVec::new_zeros(2);
        v.set(1, 1);
        v
    };
    let refl = Reflection::new(axis, 0);
    let mut m = Matrix::from_row_major(2, 2, vec![3, -1, 7, 2]).unwrap();
    let mut work = DVec::new_zeros(2);
    refl.reflect_rows(&mut m, &mut work);
    assert_eq!(m.get(0, 0), 3);
    assert_eq!(m.get(0, 1), 1);
    assert_eq!(m.get(1, 0), 7);
    assert_eq!(m.get(1, 1), -2);
}

#[test]
fn reflection_containing_point_takes_projection_bias() {
    let mut axis = DVec::new_zeros(2);
    axis.set(0, 2);
    let mut pt = DVec::new_zeros(2);
    pt.set(0, 5);
    pt.set(1, 9);
    let refl = Reflection::new_containing_point(axis, &pt);
    assert_eq!(refl.bias, 10);
}

#[test]
fn scale_transforms_points_componentwise() {
    let mut v = DVec::new_zeros(3);
    v.set(0, 1);
    v.set(1, 2);
    v.set(2, 3);
    let s = Scale::new(v);
    let mut pt = DVec::new_zeros(3);
    pt.set(0, 4);
    pt.set(1, 5);
    pt.set(2, 6);
    let tp = s.transform_point(&pt);
    assert_eq!(tp.get(0), 4);
    assert_eq!(tp.get(1), 10);
    assert_eq!(tp.get(2), 18);
    let back = s.inverse_transform_point(&tp);
    assert_eq!(back.get(0), 4);
    assert_eq!(back.get(1), 5);
    assert_eq!(back.get(2), 6);
}

#[test]
fn lp_norm_is_exact() {
    // entries (3, -4): 1-norm 7, 2-norm 5, 3-norm floor((27+64)^(1/3)) = 4
    let m = Matrix::from_row_major(1, 2, vec![3, -4]).unwrap();
    assert_eq!(m.lp_norm(1), 7);
    assert_eq!(m.lp_norm(2), 5);
    assert_eq!(m.lp_norm(3), 4);
    assert_eq!(m.apply_norm(&LpNorm(1)), 7);
    assert_eq!(m.apply_metric_distance(
        &Matrix::from_row_major(1, 2, vec![0, 0]).unwrap(), &LpNorm(2)), 5);
    // exponents below one give the zero norm in the integer model
    assert_eq!(m.lp_norm(0), 0);
    assert_eq!(m.lp_norm(-3), 0);
}

#[test]
fn scaling_and_normalizing() {
    let mut m = Matrix::from_row_major(1, 2, vec![3, 4]).unwrap();
    m.scale_mut(2);
    assert_eq!(m.get(0, 0), 6);
    assert_eq!(m.get(0, 1), 8);
    m.unscale_mut(2);
    assert_eq!(m.get(0, 0), 3);
    assert_eq!(m.get(0, 1), 4);
    // norm 5: normalize divides truncating
    let n = m.normalize();
    assert_eq!(n.get(0, 0), 0);
    assert_eq!(n.get(0, 1), 0);
    let mut m2 = Matrix::from_row_major(1, 2, vec![30, 40]).unwrap();
    let old = m2.normalize_mut();
    assert_eq!(old, 50);
    assert_eq!(m2.get(0, 0), 0);
    assert_eq!(m2.get(0, 1), 0);
}

#[test]
fn set_magnitude_scales_by_quotient() {
    // norm 5; set magnitude 10: factor 10/5 = 2
    let mut m = Matrix::from_row_major(1, 2, vec![3, 4]).unwrap();
    m.set_magnitude(10);
    assert_eq!(m.get(0, 0), 6);
    assert_eq!(m.get(0, 1), 8);
    // below the threshold nothing changes
    let mut m2 = Matrix::from_row_major(1, 2, vec![3, 4]).unwrap();
    m2.try_set_magnitude(10, 6);
    assert_eq!(m2.get(0, 0), 3);
    assert_eq!(m2.get(0, 1), 4);
    m2.try_set_magnitude(10, 5);
    assert_eq!(m2.get(0, 0), 6);
    assert_eq!(m2.get(0, 1), 8);
}

#[test]
fn try_normalize_respects_threshold() {
    let m = Matrix::from_row_major(1, 2, vec![30, 40]).unwrap();
    assert!(m.try_normalize(50).is_none());
    let n = m.try_normalize(49).unwrap();
    assert_eq!(n.get(0, 0), 0);
    assert_eq!(n.get(0, 1), 0);
    let mut m2 = Matrix::from_row_major(1, 1, vec![7]).unwrap();
    assert!(m2.try_normalize_mut(7).is_none());
    assert_eq!(m2.get(0, 0), 7);
    assert_eq!(m2.try_normalize_mut(6), Some(7));
    assert_eq!(m2.get(0, 0), 1);
    // the zero vector is never normalized
    let z = Matrix::from_row_major(1, 1, vec![0]).unwrap();
    assert!(z.try_normalize(-1).is_none());
}

#[test]
fn dvec_from_fn_fills_by_index() {
    let v = DVec::from_fn(4, |i| 3 * (i as i64));
    assert_eq!(v.len(), 4);
    for i in 0..4 {
        assert_eq!(v.get(i), 3 * (i as i64));
    }
}
