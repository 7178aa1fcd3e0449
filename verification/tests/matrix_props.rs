use mnist::matrix::MatError;
use mnist::Matrix;

fn m(rows: usize, cols: usize, v: Vec<i64>) -> Matrix {
    Matrix::with_vec((rows, cols), v).unwrap()
}

#[test]
fn with_vec_checks_the_buffer_size() {
    assert!(Matrix::with_vec((2, 2), vec![1, 2, 3, 4]).is_ok());
    assert_eq!(
        Matrix::with_vec((2, 2), vec![1, 2, 3]).unwrap_err(),
        MatError::ShapeMismatch
    );
}

#[test]
fn new_const_fills_every_element() {
    let a = Matrix::new_const((2, 3), 7);
    assert_eq!(a.dim(), (2, 3));
    assert_eq!(a.data(), &vec![7, 7, 7, 7, 7, 7]);
}

#[test]
fn new_rand_respects_the_range() {
    let a = Matrix::new_rand((3, 3), 5, 6);
    assert_eq!(a.data(), &vec![5; 9]);
    let b = Matrix::new_rand((4, 4), -3, 3);
    for t in 0..b.len() {
        let e = b.get(t).unwrap();
        assert!(-3 <= e && e < 3);
    }
}

#[test]
fn get_checks_the_index() {
    let a = m(2, 2, vec![1, 2, 3, 4]);
    assert_eq!(a.get(3).unwrap(), 4);
    assert_eq!(a.get(4).unwrap_err(), MatError::IndexOutOfBounds);
}

#[test]
fn add_and_sub_are_element_wise() {
    let a = m(2, 2, vec![1, 2, 3, 4]);
    let b = m(2, 2, vec![10, 20, 30, 40]);
    assert_eq!(a.add(&b).unwrap().data(), &vec![11, 22, 33, 44]);
    assert_eq!(b.sub(&a).unwrap().data(), &vec![9, 18, 27, 36]);
}

#[test]
fn add_is_commutative() {
    let a = m(2, 3, vec![1, -2, 3, -4, 5, -6]);
    let b = m(2, 3, vec![7, 8, 9, 10, 11, 12]);
    assert_eq!(a.add(&b).unwrap().data(), b.add(&a).unwrap().data());
}

#[test]
fn add_shape_mismatch() {
    let a = m(2, 2, vec![1, 2, 3, 4]);
    let b = m(3, 2, vec![1, 2, 3, 4, 5, 6]);
    assert_eq!(a.add(&b).unwrap_err(), MatError::ShapeMismatch);
}

#[test]
fn add_by_accumulates_in_place() {
    let mut a = m(2, 2, vec![1, 2, 3, 4]);
    let b = m(2, 2, vec![5, 5, 5, 5]);
    a.add_by(&b).unwrap();
    assert_eq!(a.data(), &vec![6, 7, 8, 9]);
    let c = m(1, 2, vec![1, 2]);
    assert_eq!(a.add_by(&c).unwrap_err(), MatError::ShapeMismatch);
    assert_eq!(a.data(), &vec![6, 7, 8, 9]);
}

#[test]
fn h_prod_is_element_wise() {
    let a = m(2, 2, vec![1, 2, 3, 4]);
    let b = m(2, 2, vec![5, 6, 7, 8]);
    assert_eq!(a.h_prod(&b).unwrap().data(), &vec![5, 12, 21, 32]);
    let c = m(2, 1, vec![1, 2]);
    assert_eq!(a.h_prod(&c).unwrap_err(), MatError::ShapeMismatch);
}

#[test]
fn scale_multiplies_every_element() {
    let a = m(2, 2, vec![1, -2, 3, -4]);
    assert_eq!(a.scale(3).data(), &vec![3, -6, 9, -12]);
}

#[test]
fn mul_computes_the_product() {
    let a = m(2, 2, vec![1, 2, 3, 4]);
    let b = m(2, 2, vec![5, 6, 7, 8]);
    assert_eq!(a.mul(&b).unwrap().data(), &vec![19, 22, 43, 50]);
    let c = m(2, 3, vec![1, 2, 3, 4, 5, 6]);
    let d = m(3, 1, vec![1, 1, 1]);
    assert_eq!(c.mul(&d).unwrap().data(), &vec![6, 15]);
}

#[test]
fn mul_shape_mismatch() {
    let a = m(2, 3, vec![1, 2, 3, 4, 5, 6]);
    let b = m(4, 2, vec![1, 2, 3, 4, 5, 6, 7, 8]);
    assert_eq!(a.mul(&b).unwrap_err(), MatError::ShapeMismatch);
}

#[test]
fn mul_is_associative() {
    let a = m(2, 3, vec![1, -2, 3, 4, 0, -1]);
    let b = m(3, 2, vec![2, 1, 0, -3, 5, 4]);
    let c = m(2, 2, vec![-1, 2, 3, 0]);
    let lhs = a.mul(&b).unwrap().mul(&c).unwrap();
    let rhs = a.mul(&b.mul(&c).unwrap()).unwrap();
    assert_eq!(lhs.dim(), rhs.dim());
    assert_eq!(lhs.data(), rhs.data());
}

#[test]
fn transpose_swaps_rows_and_columns() {
    let a = m(2, 3, vec![1, 2, 3, 4, 5, 6]);
    let t = a.t();
    assert_eq!(t.dim(), (3, 2));
    assert_eq!(t.data(), &vec![1, 4, 2, 5, 3, 6]);
}

#[test]
fn transpose_is_an_involution() {
    let a = m(3, 4, vec![1, 2, 3, 4, 5, 6, 7, 8, 9, 10, 11, 12]);
    let tt = a.t().t();
    assert_eq!(tt.dim(), a.dim());
    assert_eq!(tt.data(), a.data());
}

#[test]
fn mul_tr_matches_multiplying_by_the_transpose() {
    let a = m(2, 3, vec![1, -2, 3, 4, 0, -1]);
    let b = m(4, 3, vec![2, 1, 0, -3, 5, 4, 1, 1, 1, 0, -2, 6]);
    let fused = a.mul_tr(&b).unwrap();
    let plain = a.mul(&b.t()).unwrap();
    assert_eq!(fused.dim(), (2, 4));
    assert_eq!(fused.dim(), plain.dim());
    assert_eq!(fused.data(), plain.data());
}

#[test]
fn mul_tr_shape_mismatch() {
    let a = m(2, 3, vec![1, 2, 3, 4, 5, 6]);
    let b = m(2, 2, vec![1, 2, 3, 4]);
    assert_eq!(a.mul_tr(&b).unwrap_err(), MatError::ShapeMismatch);
}

#[test]
fn mul_tl_matches_multiplying_the_transpose() {
    let a = m(3, 2, vec![1, -2, 3, 4, 0, -1]);
    let b = m(3, 4, vec![2, 1, 0, -3, 5, 4, 1, 1, 1, 0, -2, 6]);
    let fused = a.mul_tl(&b).unwrap();
    let plain = a.t().mul(&b).unwrap();
    assert_eq!(fused.dim(), (2, 4));
    assert_eq!(fused.dim(), plain.dim());
    assert_eq!(fused.data(), plain.data());
}

#[test]
fn mul_tl_shape_mismatch() {
    let a = m(3, 2, vec![1, 2, 3, 4, 5, 6]);
    let b = m(2, 2, vec![1, 2, 3, 4]);
    assert_eq!(a.mul_tl(&b).unwrap_err(), MatError::ShapeMismatch);
}

#[test]
fn arithmetic_wraps_modulo_two_to_the_64() {
    let a = m(1, 1, vec![i64::MAX]);
    let b = m(1, 1, vec![1]);
    assert_eq!(a.add(&b).unwrap().data(), &vec![i64::MIN]);
}

#[test]
fn clone_is_a_deep_copy() {
    let mut a = m(2, 2, vec![1, 2, 3, 4]);
    let c = a.clone();
    a.add_by(&m(2, 2, vec![1, 1, 1, 1])).unwrap();
    assert_eq!(c.data(), &vec![1, 2, 3, 4]);
    assert_eq!(a.data(), &vec![2, 3, 4, 5]);
}
