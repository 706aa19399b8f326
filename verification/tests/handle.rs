use memdb::handle::{GenerationCounter, Handle};
use memdb::storage::Storage;

#[test]
fn counter_starts_at_zero_and_counts_up() {
    let mut counter = GenerationCounter::new();
    assert_eq!(counter.issue(), 0);
    assert_eq!(counter.issue(), 1);
    assert_eq!(counter.issue(), 2);
}

#[test]
fn handle_carries_index_and_next_generation() {
    let mut counter = GenerationCounter::new();
    let first = Handle::<Storage>::new(7, &mut counter);
    let second = Handle::<Storage>::new(7, &mut counter);
    assert_eq!(first.index(), 7);
    assert_eq!(first.unique_id(), 0);
    assert_eq!(second.index(), 7);
    assert_eq!(second.unique_id(), 1);
}

#[test]
fn handles_for_the_same_slot_differ() {
    let mut counter = GenerationCounter::new();
    let first = Handle::<Storage>::new(3, &mut counter);
    let second = Handle::<Storage>::new(3, &mut counter);
    assert_ne!(first, second);
    assert_ne!(first.unique_hash(), second.unique_hash());
}

#[test]
fn copying_a_handle_leaves_the_counter_alone() {
    let mut counter = GenerationCounter::new();
    let handle = Handle::<Storage>::new(1, &mut counter);
    let copy = handle;
    let clone = handle.clone();
    assert_eq!(copy, handle);
    assert_eq!(clone, handle);
    assert_eq!(counter.issue(), 1);
}

#[test]
fn unique_hash_packs_generation_above_index() {
    let mut counter = GenerationCounter::new();
    let _ = Handle::<Storage>::new(0, &mut counter);
    let _ = Handle::<Storage>::new(0, &mut counter);
    let handle = Handle::<Storage>::new(5, &mut counter);
    assert_eq!(handle.unique_id(), 2);
    assert_eq!(handle.unique_hash(), (2u64 << 32) | 5);
    assert_eq!(handle.unique_hash(), 8589934597);
}

#[test]
fn unique_hash_of_largest_fields() {
    let handle = Handle::<Storage>::invalid();
    assert_eq!(handle.index(), u32::MAX as usize);
    assert_eq!(handle.unique_id(), u32::MAX);
    assert_eq!(handle.unique_hash(), u64::MAX);
}

#[test]
fn many_issued_generations_are_distinct() {
    let mut counter = GenerationCounter::new();
    let mut seen: Vec<u32> = Vec::new();
    for _ in 0..1000 {
        seen.push(Handle::<Storage>::new(0, &mut counter).unique_id());
    }
    let mut sorted = seen.clone();
    sorted.sort();
    sorted.dedup();
    assert_eq!(sorted.len(), 1000);
    for (position, generation) in seen.iter().enumerate() {
        assert_eq!(*generation as usize, position);
    }
}

#[test]
fn counter_wraps_after_the_largest_generation() {
    let mut counter = GenerationCounter::starting_at(u32::MAX as u64 - 1);
    assert_eq!(counter.issue(), u32::MAX - 1);
    assert_eq!(counter.issue(), u32::MAX);
    assert_eq!(counter.issue(), 0);
    assert_eq!(counter.issue(), 1);
}

#[test]
fn counter_taken_up_again_continues_where_it_was() {
    let mut counter = GenerationCounter::starting_at(41);
    assert_eq!(Handle::<Storage>::new(3, &mut counter).unique_id(), 41);
    assert_eq!(Handle::<Storage>::new(3, &mut counter).unique_id(), 42);
    let mut wrapped = GenerationCounter::starting_at((1u64 << 32) + 5);
    assert_eq!(wrapped.issue(), 5);
}

#[test]
fn generations_repeat_only_a_full_round_apart() {
    let mut early = GenerationCounter::starting_at(7);
    let mut late = GenerationCounter::starting_at(7 + (1u64 << 32));
    let first = Handle::<Storage>::new(2, &mut early);
    let second = Handle::<Storage>::new(2, &mut late);
    assert_eq!(first, second);
    let mut almost = GenerationCounter::starting_at(6 + (1u64 << 32));
    assert_ne!(first, Handle::<Storage>::new(2, &mut almost));
}

#[test]
fn handles_to_different_types_are_different_types() {
    let mut counter = GenerationCounter::new();
    let to_payload: Handle<Storage> = Handle::new(1, &mut counter);
    let to_number: Handle<u64> = Handle::new(1, &mut counter);
    assert_eq!(to_payload.index(), to_number.index());
    assert_eq!(to_payload.unique_id() + 1, to_number.unique_id());
    let copy = to_number;
    assert_eq!(copy, to_number);
}
