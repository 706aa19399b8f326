use memdb::eviction_list::DBL;
use memdb::handle::{GenerationCounter, Handle};
use memdb::map_store::{claim_slot, entries_bytes, entry_for, lend, pick_slot};
use memdb::scenario::WriteError;
use memdb::storage::Storage;
use std::sync::Arc;

#[test]
fn map_below_capacity_gets_a_fresh_slot() {
    let mut list = DBL::new(4);
    list.push(0);
    assert_eq!(pick_slot(&mut list, 0, 4), Ok(None));
    assert_eq!(pick_slot(&mut list, 3, 4), Ok(None));
    assert!(list.holds(0));
}

#[test]
fn full_map_gives_up_the_oldest_slot() {
    let mut list = DBL::new(4);
    list.push(2);
    list.push(0);
    assert_eq!(pick_slot(&mut list, 4, 4), Ok(Some(2)));
    assert!(!list.holds(2));
    assert_eq!(pick_slot(&mut list, 9, 4), Ok(Some(0)));
    assert_eq!(list.pop(), None);
}

#[test]
fn full_map_with_an_empty_list_has_no_slot() {
    let mut list = DBL::new(4);
    assert_eq!(pick_slot(&mut list, 4, 4), Err(WriteError::ListEmpty));
    assert_eq!(pick_slot(&mut list, 0, 0), Err(WriteError::ListEmpty));
}

#[test]
fn claiming_a_slot_issues_a_handle_and_lists_the_slot() {
    let mut list = DBL::new(4);
    let mut counter = GenerationCounter::new();
    let first = claim_slot(&mut list, &mut counter, 3).unwrap();
    let second = claim_slot(&mut list, &mut counter, 1).unwrap();
    assert_eq!((first.index(), first.unique_id()), (3, 0));
    assert_eq!((second.index(), second.unique_id()), (1, 1));
    assert_eq!(list.pop(), Some(3));
    assert_eq!(list.pop(), Some(1));
    assert_eq!(list.pop(), None);
}

#[test]
fn claiming_a_listed_slot_fails_and_changes_nothing() {
    let mut list = DBL::new(4);
    let mut counter = GenerationCounter::new();
    let _ = claim_slot(&mut list, &mut counter, 2).unwrap();
    assert_eq!(claim_slot(&mut list, &mut counter, 2), Err(WriteError::SlotHeld));
    assert_eq!(counter.issue(), 1);
    assert_eq!(list.pop(), Some(2));
    assert_eq!(list.pop(), None);
}

#[test]
fn claiming_a_slot_beyond_the_list_issues_a_handle_only() {
    let mut list = DBL::new(2);
    let mut counter = GenerationCounter::new();
    let handle = claim_slot(&mut list, &mut counter, 7).unwrap();
    assert_eq!((handle.index(), handle.unique_id()), (7, 0));
    assert_eq!(list.pop(), None);
}

#[test]
fn entry_counts_only_with_the_handles_generation() {
    let mut counter = GenerationCounter::new();
    let old = Handle::new(5, &mut counter);
    let new = Handle::new(5, &mut counter);
    let payload = Arc::new(Storage::from_vec(vec![1, 2, 3]));
    let entry = Some((payload.clone(), new.unique_id()));
    assert!(entry_for(old, entry.clone()).is_none());
    let found = entry_for(new, entry).unwrap();
    assert!(Arc::ptr_eq(&found, &payload));
    assert!(entry_for(new, None).is_none());
}

#[test]
fn entries_bytes_adds_lengths_and_overhead() {
    let entries = vec![
        Arc::new(Storage::new(10)),
        Arc::new(Storage::new(0)),
        Arc::new(Storage::new(5)),
    ];
    assert_eq!(entries_bytes(&entries, 16), 15 + 3 * 16);
    assert_eq!(entries_bytes(&entries, 0), 15);
    assert_eq!(entries_bytes(&Vec::new(), 16), 0);
    assert_eq!(entries_bytes(&entries, usize::MAX), usize::MAX);
}

#[test]
fn lend_hands_out_the_payload_read_last() {
    let nothing: Option<Arc<Storage>> = None;
    assert!(lend(&nothing).is_none());
    let last = Some(Arc::new(Storage::from_vec(vec![9, 8])));
    assert_eq!(lend(&last).unwrap().as_slice(), &[9u8, 8][..]);
}
