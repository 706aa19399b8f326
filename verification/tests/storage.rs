use memdb::storage::Storage;

#[test]
fn synthetic_payload_has_the_asked_length() {
    assert_eq!(Storage::new(0).len(), 0);
    assert_eq!(Storage::new(1).len(), 1);
    assert_eq!(Storage::new(2048).len(), 2048);
}

#[test]
fn synthetic_payload_bytes() {
    let storage = Storage::new(8);
    assert_eq!(storage.as_slice(), &[95u8, 50, 233, 52, 3, 134, 45, 168][..]);
}

#[test]
fn shorter_synthetic_payload_is_a_prefix() {
    let long = Storage::new(64);
    let short = Storage::new(10);
    assert_eq!(short.as_slice(), &long.as_slice()[..10]);
}

#[test]
fn from_vec_keeps_the_bytes() {
    let storage = Storage::from_vec(vec![1, 2, 3]);
    assert_eq!(storage.len(), 3);
    assert_eq!(storage.as_slice(), &[1u8, 2, 3][..]);
}

#[test]
fn set_replaces_the_bytes() {
    let mut target = Storage::from_vec(vec![9, 9, 9, 9, 9]);
    let source = Storage::from_vec(vec![4, 5]);
    target.set(&source);
    assert_eq!(target.as_slice(), &[4u8, 5][..]);
    assert_eq!(source.as_slice(), &[4u8, 5][..]);
    let empty = Storage::new(0);
    target.set(&empty);
    assert_eq!(target.len(), 0);
}

#[test]
fn clone_is_an_independent_copy() {
    let original = Storage::from_vec(vec![7, 8]);
    let mut copy = original.clone();
    assert_eq!(copy.as_slice(), original.as_slice());
    copy.set(&Storage::from_vec(vec![1]));
    assert_eq!(original.as_slice(), &[7u8, 8][..]);
}
