use memdb::arc_store::{ArcDB, ArcItem};
use memdb::eviction_list::DBLItem;
use memdb::handle::{GenerationCounter, Handle};
use memdb::storage::Storage;
use std::sync::Arc;

fn bytes_of(found: Option<Arc<Storage>>) -> Option<Vec<u8>> {
    found.map(|storage| storage.as_slice().to_vec())
}

#[test]
fn shared_round_trip_returns_the_written_bytes() {
    let mut counter = GenerationCounter::new();
    let mut db = ArcDB::new(4);
    let payload = Storage::from_vec(vec![10, 20, 30]);
    let handle = db.write(&payload, &mut counter);
    assert_eq!(bytes_of(db.get(handle)), Some(vec![10, 20, 30]));
    let synthetic = Storage::new(64);
    let handle = db.write(&synthetic, &mut counter);
    assert_eq!(bytes_of(db.get(handle)), Some(synthetic.as_slice().to_vec()));
}

#[test]
fn shared_capacity_two_evicts_the_first_written() {
    let mut counter = GenerationCounter::new();
    let mut db = ArcDB::new(2);
    let h0 = db.write(&Storage::from_vec(vec![b'A']), &mut counter);
    let h1 = db.write(&Storage::from_vec(vec![b'B']), &mut counter);
    let h2 = db.write(&Storage::from_vec(vec![b'C']), &mut counter);
    assert_eq!((h0.index(), h1.index(), h2.index()), (0, 1, 0));
    assert_eq!(bytes_of(db.get(h0)), None);
    assert_eq!(bytes_of(db.get(h1)), Some(vec![b'B']));
    assert_eq!(bytes_of(db.get(h2)), Some(vec![b'C']));
}

#[test]
fn reader_keeps_a_payload_past_its_eviction() {
    let mut counter = GenerationCounter::new();
    let mut db = ArcDB::new(1);
    let first = db.write(&Storage::from_vec(vec![1, 2]), &mut counter);
    let kept = db.get(first).unwrap();
    let second = db.write(&Storage::from_vec(vec![3, 4]), &mut counter);
    assert_eq!(kept.as_slice(), &[1u8, 2][..]);
    assert_eq!(bytes_of(db.get(first)), None);
    assert_eq!(bytes_of(db.get(second)), Some(vec![3, 4]));
}

#[test]
fn get_shares_the_payload_instead_of_copying() {
    let mut counter = GenerationCounter::new();
    let mut db = ArcDB::new(1);
    let handle = db.write(&Storage::new(16), &mut counter);
    let one = db.get(handle).unwrap();
    let two = db.get(handle).unwrap();
    assert!(Arc::ptr_eq(&one, &two));
}

#[test]
fn shared_handles_out_of_range_or_stale_are_absent() {
    let mut counter = GenerationCounter::new();
    let mut db = ArcDB::new(2);
    assert_eq!(bytes_of(db.get(Handle::invalid())), None);
    let written = db.write(&Storage::new(3), &mut counter);
    let forged = Handle::new(0, &mut counter);
    let beyond = Handle::new(2, &mut counter);
    assert_eq!(bytes_of(db.get(forged)), None);
    assert_eq!(bytes_of(db.get(beyond)), None);
    assert!(db.get(written).is_some());
}

#[test]
fn shared_memory_usage_counts_each_payload_once() {
    let mut counter = GenerationCounter::new();
    let mut db = ArcDB::new(5);
    let handle = db.write(&Storage::new(100), &mut counter);
    let _ = db.write(&Storage::new(50), &mut counter);
    let before = db.memory_usage();
    let expected =
        150 + 5 * std::mem::size_of::<DBLItem>() + 2 * std::mem::size_of::<ArcItem>();
    assert_eq!(before, expected);
    let _one = db.get(handle);
    let _two = db.get(handle);
    assert_eq!(db.memory_usage(), expected);
}
