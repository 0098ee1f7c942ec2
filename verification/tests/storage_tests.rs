use delta::Storage;

#[test]
fn storage_test_zeros() {
    let storage = Storage::zeros(5, 0.0f32);
    assert_eq!(storage.len(), 5);
    assert_eq!(storage.as_slice(), &[0.0, 0.0, 0.0, 0.0, 0.0]);
}

#[test]
fn storage_test_from_vec() {
    let storage = Storage::from_vec(vec![1.0f32, 2.0, 3.0]);
    assert_eq!(storage.as_slice(), &[1.0, 2.0, 3.0]);
}

#[test]
fn test_as_mut_slice() {
    // In-place writes go through `set`.
    let mut storage = Storage::zeros(3, 0.0f32);
    storage.set(0, 42.0);
    assert_eq!(storage.as_slice()[0], 42.0);
}

#[test]
fn test_is_empty() {
    assert!(Storage::zeros(0, 0.0f32).is_empty());
    assert!(!Storage::zeros(1, 0.0f32).is_empty());
}

#[test]
fn storage_test_get() {
    let storage = Storage::from_vec(vec![1.5f32, 2.5]);
    assert_eq!(storage.get(0), 1.5);
    assert_eq!(storage.get(1), 2.5);
}
