use memdb::eviction_list::DBLItem;
use memdb::handle::{GenerationCounter, Handle};
use memdb::storage::Storage;
use memdb::accounting::{saturating_product, saturating_sum};
use memdb::store::{Item, DB};

fn bytes_of(found: Option<&Storage>) -> Option<Vec<u8>> {
    found.map(|storage| storage.as_slice().to_vec())
}

#[test]
fn round_trip_returns_the_written_bytes() {
    let mut counter = GenerationCounter::new();
    let mut db = DB::new(4);
    for length in [0usize, 1, 17, 300] {
        let payload = Storage::new(length);
        let handle = db.write(&payload, &mut counter);
        assert_eq!(bytes_of(db.get(handle)), Some(payload.as_slice().to_vec()));
    }
    let payload = Storage::from_vec(vec![0xde, 0xad, 0xbe, 0xef]);
    let handle = db.write(&payload, &mut counter);
    assert_eq!(bytes_of(db.get(handle)), Some(vec![0xde, 0xad, 0xbe, 0xef]));
}

#[test]
fn store_keeps_its_own_copy() {
    let mut counter = GenerationCounter::new();
    let mut db = DB::new(2);
    let mut payload = Storage::from_vec(vec![1, 2, 3]);
    let handle = db.write(&payload, &mut counter);
    payload.set(&Storage::from_vec(vec![9]));
    assert_eq!(bytes_of(db.get(handle)), Some(vec![1, 2, 3]));
}

#[test]
fn capacity_two_evicts_the_first_written() {
    let mut counter = GenerationCounter::new();
    let mut db = DB::new(2);
    let a = Storage::from_vec(vec![b'A']);
    let b = Storage::from_vec(vec![b'B']);
    let c = Storage::from_vec(vec![b'C']);
    let h0 = db.write(&a, &mut counter);
    assert_eq!(h0.index(), 0);
    let h1 = db.write(&b, &mut counter);
    assert_eq!(h1.index(), 1);
    let h2 = db.write(&c, &mut counter);
    assert_eq!(h2.index(), 0);
    assert_eq!(bytes_of(db.get(h0)), None);
    assert_eq!(bytes_of(db.get(h1)), Some(vec![b'B']));
    assert_eq!(bytes_of(db.get(h2)), Some(vec![b'C']));
}

#[test]
fn slots_are_reclaimed_in_insertion_order() {
    let mut counter = GenerationCounter::new();
    let mut db = DB::new(3);
    let mut handles = Vec::new();
    for value in 0..9u8 {
        let handle = db.write(&Storage::from_vec(vec![value]), &mut counter);
        assert_eq!(handle.index(), (value % 3) as usize);
        handles.push(handle);
    }
    for (value, handle) in handles.iter().enumerate() {
        let expected = if value >= 6 { Some(vec![value as u8]) } else { None };
        assert_eq!(bytes_of(db.get(*handle)), expected);
    }
}

#[test]
fn reading_does_not_protect_a_slot() {
    let mut counter = GenerationCounter::new();
    let mut db = DB::new(2);
    let h0 = db.write(&Storage::from_vec(vec![0]), &mut counter);
    let h1 = db.write(&Storage::from_vec(vec![1]), &mut counter);
    for _ in 0..5 {
        assert_eq!(bytes_of(db.get(h0)), Some(vec![0]));
    }
    let h2 = db.write(&Storage::from_vec(vec![2]), &mut counter);
    assert_eq!(h2.index(), h0.index());
    assert_eq!(bytes_of(db.get(h0)), None);
    assert_eq!(bytes_of(db.get(h1)), Some(vec![1]));
}

#[test]
fn written_handles_are_never_equal() {
    let mut counter = GenerationCounter::new();
    let mut db = DB::new(2);
    let payload = Storage::new(4);
    let mut handles: Vec<Handle<Storage>> = Vec::new();
    for _ in 0..50 {
        handles.push(db.write(&payload, &mut counter));
    }
    for i in 0..handles.len() {
        for j in 0..handles.len() {
            if i != j {
                assert_ne!(handles[i], handles[j]);
                assert_ne!(handles[i].unique_hash(), handles[j].unique_hash());
            }
        }
    }
    assert_eq!(handles[0].index(), handles[2].index());
}

#[test]
fn two_stores_on_one_counter_issue_distinct_handles() {
    let mut counter = GenerationCounter::new();
    let mut first = DB::new(1);
    let mut second = DB::new(1);
    let payload = Storage::new(1);
    let a = first.write(&payload, &mut counter);
    let b = second.write(&payload, &mut counter);
    assert_eq!(a.index(), b.index());
    assert_ne!(a, b);
    assert_eq!(bytes_of(first.get(b)), None);
    assert_eq!(bytes_of(second.get(a)), None);
}

#[test]
fn superseded_handle_never_reads_the_new_payload() {
    let mut counter = GenerationCounter::new();
    let mut db = DB::new(1);
    let old = db.write(&Storage::from_vec(vec![1, 1, 1]), &mut counter);
    let new = db.write(&Storage::from_vec(vec![2, 2, 2]), &mut counter);
    assert_eq!(old.index(), new.index());
    assert_eq!(bytes_of(db.get(old)), None);
    assert_eq!(bytes_of(db.get(new)), Some(vec![2, 2, 2]));
}

#[test]
fn handle_out_of_range_is_absent() {
    let mut counter = GenerationCounter::new();
    let mut db = DB::new(4);
    let stray = Handle::new(0, &mut counter);
    assert_eq!(bytes_of(db.get(stray)), None);
    let _ = db.write(&Storage::new(3), &mut counter);
    let beyond_used = Handle::new(1, &mut counter);
    let beyond_capacity = Handle::new(4, &mut counter);
    assert_eq!(bytes_of(db.get(beyond_used)), None);
    assert_eq!(bytes_of(db.get(beyond_capacity)), None);
    assert_eq!(bytes_of(db.get(Handle::invalid())), None);
}

#[test]
fn handle_with_another_generation_is_absent() {
    let mut counter = GenerationCounter::new();
    let mut db = DB::new(4);
    let written = db.write(&Storage::new(3), &mut counter);
    let forged = Handle::new(written.index() as u32, &mut counter);
    assert_eq!(bytes_of(db.get(forged)), None);
    assert_eq!(bytes_of(db.get(written)), Some(Storage::new(3).as_slice().to_vec()));
}

#[test]
fn memory_usage_of_an_empty_store() {
    let db = DB::new(10);
    assert_eq!(db.memory_usage(), 10 * std::mem::size_of::<DBLItem>());
}

#[test]
fn memory_usage_counts_payloads_links_and_slots() {
    let mut counter = GenerationCounter::new();
    let mut db = DB::new(10);
    let _ = db.write(&Storage::new(100), &mut counter);
    let _ = db.write(&Storage::new(28), &mut counter);
    let _ = db.write(&Storage::new(0), &mut counter);
    let expected =
        128 + 10 * std::mem::size_of::<DBLItem>() + 3 * std::mem::size_of::<Item>();
    assert_eq!(db.memory_usage(), expected);
}

#[test]
fn memory_usage_after_eviction_counts_live_payloads_only() {
    let mut counter = GenerationCounter::new();
    let mut db = DB::new(2);
    let _ = db.write(&Storage::new(1000), &mut counter);
    let _ = db.write(&Storage::new(10), &mut counter);
    let _ = db.write(&Storage::new(5), &mut counter);
    let expected = 15 + 2 * std::mem::size_of::<DBLItem>() + 2 * std::mem::size_of::<Item>();
    assert_eq!(db.memory_usage(), expected);
}

#[test]
fn saturating_product_values() {
    assert_eq!(saturating_product(0, 7), 0);
    assert_eq!(saturating_product(6, 7), 42);
    assert_eq!(saturating_product(usize::MAX, 1), usize::MAX);
    assert_eq!(saturating_product(usize::MAX, 2), usize::MAX);
    assert_eq!(saturating_product(usize::MAX / 2 + 1, 2), usize::MAX);
}

#[test]
fn saturating_sum_values() {
    assert_eq!(saturating_sum(2, 3), 5);
    assert_eq!(saturating_sum(usize::MAX, 0), usize::MAX);
    assert_eq!(saturating_sum(usize::MAX, 1), usize::MAX);
    assert_eq!(saturating_sum(usize::MAX - 1, 1), usize::MAX);
}

#[test]
fn payload_survives_capacity_minus_one_further_writes() {
    for capacity in 1..6usize {
        for used in 0..capacity + 2 {
            let mut counter = GenerationCounter::new();
            let mut db = DB::new(capacity);
            for _ in 0..used {
                let _ = db.write(&Storage::new(1), &mut counter);
            }
            let kept = db.write(&Storage::from_vec(vec![42, 43]), &mut counter);
            for _ in 0..capacity - 1 {
                assert_eq!(bytes_of(db.get(kept)), Some(vec![42, 43]));
                let other = db.write(&Storage::new(2), &mut counter);
                assert_ne!(other.index(), kept.index());
            }
            assert_eq!(bytes_of(db.get(kept)), Some(vec![42, 43]));
            let reclaiming = db.write(&Storage::new(3), &mut counter);
            assert_eq!(reclaiming.index(), kept.index());
            assert_eq!(bytes_of(db.get(kept)), None);
        }
    }
}
