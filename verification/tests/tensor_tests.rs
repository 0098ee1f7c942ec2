use delta::{Tensor, TensorError};

#[test]
fn tensor_test_zeros() {
    let t = Tensor::zeros(&[2, 3], 0.0f32);
    assert_eq!(t.shape(), &[2, 3]);
    assert_eq!(t.ndim(), 2);
    assert_eq!(t.nelems(), 6);
    assert_eq!(t.get(&[0, 0]).unwrap(), 0.0);
    assert_eq!(t.get(&[1, 2]).unwrap(), 0.0);
}

#[test]
fn tensor_test_from_vec() {
    let t = Tensor::from_vec(vec![1.0f32, 2.0, 3.0, 4.0, 5.0, 6.0], &[2, 3]).unwrap();
    // Row 0: [1, 2, 3]
    // Row 1: [4, 5, 6]
    assert_eq!(t.get(&[0, 0]).unwrap(), 1.0);
    assert_eq!(t.get(&[0, 2]).unwrap(), 3.0);
    assert_eq!(t.get(&[1, 0]).unwrap(), 4.0);
    assert_eq!(t.get(&[1, 2]).unwrap(), 6.0);
}

#[test]
fn test_set() {
    let mut t = Tensor::zeros(&[2, 2], 0.0f32);
    t.set(&[0, 1], 42.0).unwrap();
    assert_eq!(t.get(&[0, 1]).unwrap(), 42.0);
    assert_eq!(t.get(&[0, 0]).unwrap(), 0.0);
}

#[test]
fn test_linear_index() {
    let t = Tensor::zeros(&[2, 3], 0.0f32);
    // strides = [3, 1]
    assert_eq!(t.linear_index(&[0, 0]).unwrap(), 0);
    assert_eq!(t.linear_index(&[0, 1]).unwrap(), 1);
    assert_eq!(t.linear_index(&[1, 0]).unwrap(), 3);
    assert_eq!(t.linear_index(&[1, 2]).unwrap(), 5);
}

#[test]
fn test_from_vec_shape_mismatch() {
    // 3 elements cannot fill shape [2, 3]: both counts are reported.
    let r = Tensor::from_vec(vec![1.0f32, 2.0, 3.0], &[2, 3]);
    match r {
        Err(TensorError::LengthMismatch { expected, actual }) => {
            assert_eq!(expected, 6);
            assert_eq!(actual, 3);
        }
        _ => panic!("expected a length mismatch"),
    }
}

#[test]
fn test_add() {
    let a = Tensor::from_vec(vec![1.0f32, 2.0, 3.0], &[3]).unwrap();
    let b = Tensor::from_vec(vec![4.0f32, 5.0, 6.0], &[3]).unwrap();
    let c = a.add(&b, |x, y| x + y).unwrap();
    assert_eq!(c.get(&[0]).unwrap(), 5.0);
    assert_eq!(c.get(&[1]).unwrap(), 7.0);
    assert_eq!(c.get(&[2]).unwrap(), 9.0);
}

#[test]
fn test_sub() {
    let a = Tensor::from_vec(vec![5.0f32, 7.0, 9.0], &[3]).unwrap();
    let b = Tensor::from_vec(vec![1.0f32, 2.0, 3.0], &[3]).unwrap();
    let c = a.sub(&b, |x, y| x - y).unwrap();
    assert_eq!(c.get(&[0]).unwrap(), 4.0);
    assert_eq!(c.get(&[1]).unwrap(), 5.0);
    assert_eq!(c.get(&[2]).unwrap(), 6.0);
}

#[test]
fn test_mul() {
    let a = Tensor::from_vec(vec![2.0f32, 3.0, 4.0], &[3]).unwrap();
    let b = Tensor::from_vec(vec![5.0f32, 6.0, 7.0], &[3]).unwrap();
    let c = a.mul(&b, |x, y| x * y).unwrap();
    assert_eq!(c.get(&[0]).unwrap(), 10.0);
    assert_eq!(c.get(&[1]).unwrap(), 18.0);
    assert_eq!(c.get(&[2]).unwrap(), 28.0);
}

#[test]
fn test_div() {
    let a = Tensor::from_vec(vec![10.0f32, 20.0, 30.0], &[3]).unwrap();
    let b = Tensor::from_vec(vec![2.0f32, 4.0, 5.0], &[3]).unwrap();
    let c = a.div(&b, |x, y| x / y).unwrap();
    assert_eq!(c.get(&[0]).unwrap(), 5.0);
    assert_eq!(c.get(&[1]).unwrap(), 5.0);
    assert_eq!(c.get(&[2]).unwrap(), 6.0);
}

#[test]
fn test_scalar_add() {
    let a = Tensor::from_vec(vec![1.0f32, 2.0, 3.0], &[3]).unwrap();
    let b = a.scalar_add(10.0, |x, s| x + s);
    assert_eq!(b.get(&[0]).unwrap(), 11.0);
    assert_eq!(b.get(&[1]).unwrap(), 12.0);
    assert_eq!(b.get(&[2]).unwrap(), 13.0);
}

#[test]
fn test_scalar_mul() {
    let a = Tensor::from_vec(vec![1.0f32, 2.0, 3.0], &[3]).unwrap();
    let b = a.scalar_mul(3.0, |x, s| x * s);
    assert_eq!(b.get(&[0]).unwrap(), 3.0);
    assert_eq!(b.get(&[1]).unwrap(), 6.0);
    assert_eq!(b.get(&[2]).unwrap(), 9.0);
}

#[test]
fn test_neg() {
    let a = Tensor::from_vec(vec![1.0f32, -2.0, 3.0], &[3]).unwrap();
    let b = a.neg(|x| -x);
    assert_eq!(b.get(&[0]).unwrap(), -1.0);
    assert_eq!(b.get(&[1]).unwrap(), 2.0);
    assert_eq!(b.get(&[2]).unwrap(), -3.0);
}

#[test]
fn test_add_shape_mismatch() {
    // Element-wise operations are only defined for equal shapes.
    let a = Tensor::from_vec(vec![1.0f32, 2.0], &[2]).unwrap();
    let b = Tensor::from_vec(vec![1.0f32, 2.0, 3.0], &[3]).unwrap();
    match a.add(&b, |x, y| x + y) {
        Err(TensorError::ShapeMismatch { left, right }) => {
            assert_eq!(left, vec![2]);
            assert_eq!(right, vec![3]);
        }
        _ => panic!("expected a shape mismatch"),
    }
}

#[test]
fn test_matmul() {
    // A is 2x3 row-major [1..6], B is 3x2 row-major [7..12]; the product
    // is [[58, 64], [139, 154]].
    let a = Tensor::from_vec(vec![1.0f32, 2.0, 3.0, 4.0, 5.0, 6.0], &[2, 3]).unwrap();
    let b = Tensor::from_vec(vec![7.0f32, 8.0, 9.0, 10.0, 11.0, 12.0], &[3, 2]).unwrap();
    let c = a.matmul(&b, 0.0, |x, y| x + y, |x, y| x * y).unwrap();
    assert_eq!(c.shape(), &[2, 2]);
    assert_eq!(c.get(&[0, 0]).unwrap(), 58.0);
    assert_eq!(c.get(&[0, 1]).unwrap(), 64.0);
    assert_eq!(c.get(&[1, 0]).unwrap(), 139.0);
    assert_eq!(c.get(&[1, 1]).unwrap(), 154.0);
}

#[test]
fn test_matmul_rank_error() {
    let a = Tensor::from_vec(vec![1.0f32, 2.0, 3.0], &[3]).unwrap();
    let b = Tensor::zeros(&[3, 2], 0.0f32);
    match a.matmul(&b, 0.0, |x, y| x + y, |x, y| x * y) {
        Err(TensorError::RankError { expected, actual }) => {
            assert_eq!(expected, 2);
            assert_eq!(actual, 1);
        }
        _ => panic!("expected a rank error"),
    }
    match b.matmul(&a, 0.0, |x, y| x + y, |x, y| x * y) {
        Err(TensorError::RankError { expected, actual }) => {
            assert_eq!(expected, 2);
            assert_eq!(actual, 1);
        }
        _ => panic!("expected a rank error"),
    }
}

#[test]
fn test_matmul_dimension_mismatch() {
    let a = Tensor::zeros(&[2, 3], 0.0f32);
    let b = Tensor::zeros(&[2, 2], 0.0f32);
    match a.matmul(&b, 0.0, |x, y| x + y, |x, y| x * y) {
        Err(TensorError::DimensionMismatch { m, k_left, k_right, n }) => {
            assert_eq!((m, k_left, k_right, n), (2, 3, 2, 2));
        }
        _ => panic!("expected a dimension mismatch"),
    }
}

#[test]
fn test_get_index_arity_error() {
    let t = Tensor::zeros(&[2, 3], 0.0f32);
    match t.get(&[1]) {
        Err(TensorError::IndexArityError { expected, actual }) => {
            assert_eq!(expected, 2);
            assert_eq!(actual, 1);
        }
        _ => panic!("expected an arity error"),
    }
}

#[test]
fn test_get_index_out_of_bounds() {
    let t = Tensor::zeros(&[2, 3], 0.0f32);
    match t.get(&[1, 3]) {
        Err(TensorError::IndexOutOfBounds { dim, index, size }) => {
            assert_eq!((dim, index, size), (1, 3, 3));
        }
        _ => panic!("expected an out-of-bounds error"),
    }
}

#[test]
fn test_set_failure_leaves_tensor_unchanged() {
    let mut t = Tensor::from_vec(vec![1.0f32, 2.0], &[2]).unwrap();
    assert!(t.set(&[5], 9.0).is_err());
    assert_eq!(t.get(&[0]).unwrap(), 1.0);
    assert_eq!(t.get(&[1]).unwrap(), 2.0);
}

#[test]
fn test_scalar_tensor() {
    // The empty shape holds exactly one element.
    let t = Tensor::from_vec(vec![5.0f32], &[]).unwrap();
    assert_eq!(t.ndim(), 0);
    assert_eq!(t.nelems(), 1);
    assert_eq!(t.get(&[]).unwrap(), 5.0);
}
