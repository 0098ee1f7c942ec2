use delta::Tensor;

#[test]
fn test_round_trip_lexicographic() {
    // Reading back every multi-index in lexicographic order reproduces
    // the flat buffer exactly, in order.
    let data: Vec<f32> = (0..24).map(|v| v as f32).collect();
    let t = Tensor::from_vec(data.clone(), &[2, 3, 4]).unwrap();
    let mut read_back = Vec::new();
    for i in 0..2 {
        for j in 0..3 {
            for k in 0..4 {
                read_back.push(t.get(&[i, j, k]).unwrap());
            }
        }
    }
    assert_eq!(read_back, data);
}

#[test]
fn test_add_zeros_identity() {
    let t = Tensor::from_vec(vec![1.5f32, -2.0, 3.25], &[3]).unwrap();
    let z = Tensor::zeros(&[3], 0.0f32);
    let r = t.add(&z, |x, y| x + y).unwrap();
    for i in 0..3 {
        assert_eq!(r.get(&[i]).unwrap(), t.get(&[i]).unwrap());
    }
}

#[test]
fn test_scalar_mul_one_identity() {
    let t = Tensor::from_vec(vec![1.5f32, -2.0, 3.25], &[3]).unwrap();
    let r = t.scalar_mul(1.0, |x, s| x * s);
    for i in 0..3 {
        assert_eq!(r.get(&[i]).unwrap(), t.get(&[i]).unwrap());
    }
}

#[test]
fn test_double_negation_identity() {
    let t = Tensor::from_vec(vec![1.5f32, -2.0, 3.25], &[3]).unwrap();
    let r = t.neg(|x| -x).neg(|x| -x);
    for i in 0..3 {
        assert_eq!(r.get(&[i]).unwrap(), t.get(&[i]).unwrap());
    }
}

#[test]
fn test_set_is_local() {
    // Mutating one index changes no other index.
    let mut t = Tensor::from_vec((0..6).map(|v| v as f32).collect(), &[2, 3]).unwrap();
    t.set(&[1, 1], 99.0).unwrap();
    for i in 0..2 {
        for j in 0..3 {
            let expected = if (i, j) == (1, 1) { 99.0 } else { (i * 3 + j) as f32 };
            assert_eq!(t.get(&[i, j]).unwrap(), expected);
        }
    }
}

#[test]
fn test_ops_produce_new_tensors() {
    // Arithmetic never mutates its operands.
    let a = Tensor::from_vec(vec![1.0f32, 2.0], &[2]).unwrap();
    let b = Tensor::from_vec(vec![3.0f32, 4.0], &[2]).unwrap();
    let _ = a.add(&b, |x, y| x + y).unwrap();
    let _ = a.scalar_add(5.0, |x, s| x + s);
    let _ = a.neg(|x| -x);
    assert_eq!(a.get(&[0]).unwrap(), 1.0);
    assert_eq!(a.get(&[1]).unwrap(), 2.0);
    assert_eq!(b.get(&[0]).unwrap(), 3.0);
    assert_eq!(b.get(&[1]).unwrap(), 4.0);
}

#[test]
fn test_div_passes_through_float_semantics() {
    // No divide-by-zero guard: the result follows the supplied operation.
    let a = Tensor::from_vec(vec![1.0f32, 0.0], &[2]).unwrap();
    let b = Tensor::from_vec(vec![0.0f32, 0.0], &[2]).unwrap();
    let c = a.div(&b, |x, y| x / y).unwrap();
    assert!(c.get(&[0]).unwrap().is_infinite());
    assert!(c.get(&[1]).unwrap().is_nan());
}
