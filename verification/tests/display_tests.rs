use delta::Tensor;

fn fmt_elems(data: &[f32]) -> Vec<String> {
    let mut out = Vec::new();
    for v in data {
        out.push(format!("{:.4}", v));
    }
    out
}

#[test]
fn test_display() {
    let data = vec![1.0f32, 2.0, 3.0, 4.0, 5.0, 6.0];
    let strs = fmt_elems(&data);
    let t = Tensor::from_vec(data, &[2, 3]).unwrap();
    let s = t.to_display_string(&strs);
    assert!(s.contains("Tensor"));
    assert!(s.contains("shape=[2, 3]"));
}

#[test]
fn test_display_matrix_exact() {
    let data = vec![1.0f32, 2.0, 3.0, 4.0, 5.0, 6.0];
    let strs = fmt_elems(&data);
    let t = Tensor::from_vec(data, &[2, 3]).unwrap();
    let s = t.to_display_string(&strs);
    assert_eq!(
        s,
        "Tensor([[1.0000, 2.0000, 3.0000], \n [4.0000, 5.0000, 6.0000]], shape=[2, 3])"
    );
}

#[test]
fn test_display_truncation() {
    // A dimension of 10 exceeds the threshold of 6: only the first three
    // and last three elements render, around an ellipsis marker.
    let data: Vec<f32> = (1..=10).map(|v| v as f32).collect();
    let strs = fmt_elems(&data);
    let t = Tensor::from_vec(data, &[10]).unwrap();
    let s = t.to_display_string(&strs);
    assert_eq!(
        s,
        "Tensor([1.0000, 2.0000, 3.0000, ..., 8.0000, 9.0000, 10.0000], shape=[10])"
    );
}

#[test]
fn test_display_scalar() {
    let data = vec![5.0f32];
    let strs = fmt_elems(&data);
    let t = Tensor::from_vec(data, &[]).unwrap();
    let s = t.to_display_string(&strs);
    assert_eq!(s, "Tensor(5.0000, shape=[])");
}

#[test]
fn test_display_empty_vector() {
    let t = Tensor::<f32>::from_vec(Vec::new(), &[0]).unwrap();
    let s = t.to_display_string(&Vec::new());
    assert_eq!(s, "Tensor([], shape=[0])");
}
