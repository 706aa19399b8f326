use memdb::dashmap_moka::DashMapMoka;
use memdb::double_moka::DoubleMoka;
use memdb::eviction_list::DBLItem;
use memdb::flurry_moka::FlurryMoka;
use memdb::handle::{GenerationCounter, Handle};
use memdb::map_store::map_entry_bytes;
use memdb::scenario::{Args, Scenario, ScenarioType};
use memdb::storage::Storage;
use std::sync::Arc;

fn args(capacity: usize, cache_capacity: usize) -> Args {
    Args {
        min: 192,
        max: 2048,
        threads: 2,
        events: 100_000,
        scenario: ScenarioType::default(),
        capacity,
        cache_capacity,
        read_write_ratio: 2,
    }
}

fn bytes_of(found: Option<&Storage>) -> Option<Vec<u8>> {
    found.map(|storage| storage.as_slice().to_vec())
}

fn cache_entry_bytes() -> usize {
    std::mem::size_of::<u64>() + std::mem::size_of::<Arc<Storage>>()
}

fn map_strategy_evicts_in_insertion_order<T: Scenario>() {
    let args = args(2, 100);
    let global = T::create_global(&args, GenerationCounter::new());
    let mut worker = T::new(&args);
    let h0 = worker.write(&global, &Storage::from_vec(vec![b'A'])).unwrap();
    let h1 = worker.write(&global, &Storage::from_vec(vec![b'B'])).unwrap();
    let h2 = worker.write(&global, &Storage::from_vec(vec![b'C'])).unwrap();
    assert_eq!((h0.index(), h1.index(), h2.index()), (0, 1, 0));
    assert_ne!(h0, h2);
    assert_eq!(bytes_of(worker.read(&global, h0)), None);
    assert_eq!(bytes_of(worker.read(&global, h1)), Some(vec![b'B']));
    assert_eq!(bytes_of(worker.read(&global, h2)), Some(vec![b'C']));
    assert_eq!(bytes_of(worker.read(&global, Handle::invalid())), None);
}

fn map_strategy_cache_outlives_the_map_entry<T: Scenario>() {
    let args = args(1, 100);
    let global = T::create_global(&args, GenerationCounter::new());
    let mut reader = T::new(&args);
    let mut other = T::new(&args);
    let first = reader.write(&global, &Storage::from_vec(vec![7, 7])).unwrap();
    assert_eq!(bytes_of(reader.read(&global, first)), Some(vec![7, 7]));
    let second = reader.write(&global, &Storage::from_vec(vec![8, 8, 8])).unwrap();
    assert_eq!(first.index(), second.index());
    assert_eq!(bytes_of(reader.read(&global, first)), Some(vec![7, 7]));
    assert_eq!(bytes_of(other.read(&global, first)), None);
    assert_eq!(bytes_of(other.read(&global, second)), Some(vec![8, 8, 8]));
}

fn map_strategy_accounts_for_its_memory<T: Scenario>() {
    let args = args(8, 100);
    let global = T::create_global(&args, GenerationCounter::new());
    let mut worker = T::new(&args);
    let link = std::mem::size_of::<DBLItem>();
    assert_eq!(worker.memory_usage(), 0);
    assert_eq!(T::global_memory_usage(&global), 8 * link);
    let first = worker.write(&global, &Storage::new(100)).unwrap();
    let _second = worker.write(&global, &Storage::new(20)).unwrap();
    assert_eq!(worker.memory_usage(), 0);
    assert_eq!(T::global_memory_usage(&global), 120 + 2 * map_entry_bytes() + 8 * link);
    let _ = worker.read(&global, first);
    assert_eq!(worker.memory_usage(), 100 + cache_entry_bytes());
}

#[test]
fn map_entry_bytes_counts_index_reference_and_generation() {
    assert_eq!(map_entry_bytes(), 4 + std::mem::size_of::<Arc<Storage>>() + 4);
}

#[test]
fn dashmap_moka_evicts_in_insertion_order() {
    map_strategy_evicts_in_insertion_order::<DashMapMoka>();
}

#[test]
fn flurry_moka_evicts_in_insertion_order() {
    map_strategy_evicts_in_insertion_order::<FlurryMoka>();
}

#[test]
fn dashmap_moka_cache_outlives_the_map_entry() {
    map_strategy_cache_outlives_the_map_entry::<DashMapMoka>();
}

#[test]
fn flurry_moka_cache_outlives_the_map_entry() {
    map_strategy_cache_outlives_the_map_entry::<FlurryMoka>();
}

#[test]
fn dashmap_moka_accounts_for_its_memory() {
    map_strategy_accounts_for_its_memory::<DashMapMoka>();
}

#[test]
fn flurry_moka_accounts_for_its_memory() {
    map_strategy_accounts_for_its_memory::<FlurryMoka>();
}

#[test]
fn double_moka_round_trip() {
    let args = args(100, 100);
    let global = DoubleMoka::create_global(&args, GenerationCounter::new());
    let mut writer = DoubleMoka::new(&args);
    let mut reader = DoubleMoka::new(&args);
    let a = writer.write(&global, &Storage::from_vec(vec![1, 2, 3])).unwrap();
    let b = writer.write(&global, &Storage::from_vec(vec![4])).unwrap();
    assert_eq!((a.index(), b.index()), (0, 0));
    assert_ne!(a, b);
    assert_ne!(a.unique_hash(), b.unique_hash());
    assert_eq!(bytes_of(reader.read(&global, a)), Some(vec![1, 2, 3]));
    assert_eq!(bytes_of(reader.read(&global, b)), Some(vec![4]));
    assert_eq!(bytes_of(reader.read(&global, a)), Some(vec![1, 2, 3]));
    assert_eq!(bytes_of(reader.read(&global, Handle::invalid())), None);
}

#[test]
fn double_moka_accounts_for_its_memory() {
    let args = args(100, 100);
    let global = DoubleMoka::create_global(&args, GenerationCounter::new());
    let mut worker = DoubleMoka::new(&args);
    assert_eq!(worker.memory_usage(), 0);
    assert_eq!(DoubleMoka::global_memory_usage(&global), 0);
    let a = worker.write(&global, &Storage::new(50)).unwrap();
    let _b = worker.write(&global, &Storage::new(25)).unwrap();
    assert_eq!(worker.memory_usage(), 0);
    assert_eq!(DoubleMoka::global_memory_usage(&global), 75 + 2 * cache_entry_bytes());
    let _ = worker.read(&global, a);
    assert_eq!(worker.memory_usage(), 50 + cache_entry_bytes());
}

fn worker_cache_keeps_no_more_than_it_was_made_for<T: Scenario>() {
    let args = args(8, 1);
    let global = T::create_global(&args, GenerationCounter::new());
    let mut worker = T::new(&args);
    let mut handles = Vec::new();
    for length in [10usize, 20, 30] {
        handles.push(worker.write(&global, &Storage::new(length)).unwrap());
    }
    for handle in handles {
        assert!(worker.read(&global, handle).is_some());
    }
    let usage = worker.memory_usage();
    let one_entry = [10usize, 20, 30].map(|length| length + cache_entry_bytes());
    assert!(usage == 0 || one_entry.contains(&usage), "more than one entry is cached: {usage}");
}

#[test]
fn dashmap_moka_worker_cache_keeps_to_its_capacity() {
    worker_cache_keeps_no_more_than_it_was_made_for::<DashMapMoka>();
}

#[test]
fn flurry_moka_worker_cache_keeps_to_its_capacity() {
    worker_cache_keeps_no_more_than_it_was_made_for::<FlurryMoka>();
}

#[test]
fn double_moka_caches_keep_to_their_capacity() {
    worker_cache_keeps_no_more_than_it_was_made_for::<DoubleMoka>();
    let args = args(1, 100);
    let global = DoubleMoka::create_global(&args, GenerationCounter::new());
    let mut worker = DoubleMoka::new(&args);
    for length in [10usize, 20, 30] {
        let _ = worker.write(&global, &Storage::new(length)).unwrap();
    }
    let usage = DoubleMoka::global_memory_usage(&global);
    let one_entry = [10usize, 20, 30].map(|length| length + cache_entry_bytes());
    assert!(usage == 0 || one_entry.contains(&usage), "more than one entry is kept: {usage}");
}
