use memdb::handle::{GenerationCounter, Handle};
use memdb::mutex_arc_vector::MutexArcVector;
use memdb::mutex_vector::MutexVector;
use memdb::rwlock_arc_vector::RwLockArcVector;
use memdb::rwlock_vector::RwLockVector;
use memdb::scenario::{Args, Scenario, ScenarioType};
use memdb::storage::Storage;

fn args(capacity: usize, cache_capacity: usize) -> Args {
    Args {
        min: 192,
        max: 2048,
        threads: 2,
        events: 100_000,
        scenario: ScenarioType::default(),
        capacity,
        cache_capacity,
        read_write_ratio: 2,
    }
}

fn bytes_of(found: Option<&Storage>) -> Option<Vec<u8>> {
    found.map(|storage| storage.as_slice().to_vec())
}

fn cached_strategy_round_trip<T: Scenario>() {
    let args = args(2, 2);
    let global = T::create_global(&args, GenerationCounter::new());
    let mut worker = T::new(&args);
    let a = worker.write(&global, &Storage::from_vec(vec![b'A'])).unwrap();
    let b = worker.write(&global, &Storage::from_vec(vec![b'B'])).unwrap();
    assert_eq!(bytes_of(worker.read(&global, a)), Some(vec![b'A']));
    let c = worker.write(&global, &Storage::from_vec(vec![b'C'])).unwrap();
    assert_eq!(a.index(), c.index());
    assert_ne!(a, c);
    assert_eq!(bytes_of(worker.read(&global, a)), Some(vec![b'A']));
    assert_eq!(bytes_of(worker.read(&global, c)), Some(vec![b'C']));
    let d = worker.write(&global, &Storage::from_vec(vec![b'D'])).unwrap();
    assert_eq!(b.index(), d.index());
    assert_eq!(bytes_of(worker.read(&global, b)), None);
    assert_eq!(bytes_of(worker.read(&global, d)), Some(vec![b'D']));
    assert_eq!(bytes_of(worker.read(&global, a)), None);
}

fn two_workers_share_the_store_not_the_cache<T: Scenario>() {
    let args = args(1, 4);
    let global = T::create_global(&args, GenerationCounter::new());
    let mut writer = T::new(&args);
    let mut reader = T::new(&args);
    let first = writer.write(&global, &Storage::from_vec(vec![1, 2, 3])).unwrap();
    assert_eq!(bytes_of(reader.read(&global, first)), Some(vec![1, 2, 3]));
    let second = reader.write(&global, &Storage::from_vec(vec![4, 5])).unwrap();
    assert_eq!(bytes_of(reader.read(&global, first)), Some(vec![1, 2, 3]));
    assert_eq!(bytes_of(writer.read(&global, first)), None);
    assert_eq!(bytes_of(writer.read(&global, second)), Some(vec![4, 5]));
}

#[test]
fn mutex_vector_reads_through_its_cache() {
    cached_strategy_round_trip::<MutexVector>();
}

#[test]
fn rwlock_vector_reads_through_its_cache() {
    cached_strategy_round_trip::<RwLockVector>();
}

#[test]
fn mutex_vector_workers_share_the_store() {
    two_workers_share_the_store_not_the_cache::<MutexVector>();
}

#[test]
fn rwlock_vector_workers_share_the_store() {
    two_workers_share_the_store_not_the_cache::<RwLockVector>();
}

#[test]
fn default_scenario_is_mutex_vector() {
    assert_eq!(ScenarioType::default(), ScenarioType::MutexVector);
}

#[test]
fn cached_strategy_memory_usage() {
    let args = args(10, 4);
    let global = MutexVector::create_global(&args, GenerationCounter::new());
    let mut worker = MutexVector::new(&args);
    let link = std::mem::size_of::<memdb::eviction_list::DBLItem>();
    let slot = std::mem::size_of::<memdb::store::Item>();
    assert_eq!(worker.memory_usage(), 4 * link);
    assert_eq!(MutexVector::global_memory_usage(&global), 10 * link);
    let handle = worker.write(&global, &Storage::new(100)).unwrap();
    assert_eq!(worker.memory_usage(), 4 * link);
    assert_eq!(MutexVector::global_memory_usage(&global), 100 + 10 * link + slot);
    let _ = worker.read(&global, handle);
    assert_eq!(worker.memory_usage(), 100 + 4 * link + slot + 12);
    let global = RwLockVector::create_global(&args, GenerationCounter::new());
    let mut worker = RwLockVector::new(&args);
    let handle = worker.write(&global, &Storage::new(7)).unwrap();
    let _ = worker.read(&global, handle);
    assert_eq!(worker.memory_usage(), 7 + 4 * link + slot + 12);
    assert_eq!(RwLockVector::global_memory_usage(&global), 7 + 10 * link + slot);
}

fn shared_payload_strategy<T: Scenario>(slot: usize) {
    let args = args(2, 1);
    let global = T::create_global(&args, GenerationCounter::new());
    let mut worker = T::new(&args);
    let link = std::mem::size_of::<memdb::eviction_list::DBLItem>();
    assert_eq!(worker.memory_usage(), 0);
    assert_eq!(T::global_memory_usage(&global), 2 * link);
    let first = worker.write(&global, &Storage::new(30)).unwrap();
    assert_eq!(bytes_of(worker.read(&global, first)), Some(Storage::new(30).as_slice().to_vec()));
    let second = worker.write(&global, &Storage::new(12)).unwrap();
    let third = worker.write(&global, &Storage::new(5)).unwrap();
    assert_eq!((first.index(), second.index(), third.index()), (0, 1, 0));
    assert_ne!(first, third);
    assert_eq!(bytes_of(worker.read(&global, first)), None);
    assert_eq!(bytes_of(worker.read(&global, second)), Some(Storage::new(12).as_slice().to_vec()));
    assert_eq!(bytes_of(worker.read(&global, third)), Some(Storage::new(5).as_slice().to_vec()));
    assert_eq!(bytes_of(worker.read(&global, Handle::invalid())), None);
    assert_eq!(worker.memory_usage(), 0);
    assert_eq!(T::global_memory_usage(&global), 17 + 2 * link + 2 * slot);
}

fn shared_payload_outlives_its_slot<T: Scenario>() {
    let args = args(1, 1);
    let global = T::create_global(&args, GenerationCounter::new());
    let mut reader = T::new(&args);
    let mut writer = T::new(&args);
    let first = writer.write(&global, &Storage::from_vec(vec![1, 2, 3])).unwrap();
    let lent = reader.read(&global, first).map(|storage| storage.as_slice().to_vec());
    assert_eq!(lent, Some(vec![1, 2, 3]));
    let second = writer.write(&global, &Storage::from_vec(vec![9])).unwrap();
    assert_eq!(first.index(), second.index());
    assert_eq!(bytes_of(reader.read(&global, first)), None);
    assert_eq!(bytes_of(reader.read(&global, second)), Some(vec![9]));
    assert_eq!(bytes_of(writer.read(&global, second)), Some(vec![9]));
}

#[test]
fn mutex_arc_vector_reads_what_was_written() {
    shared_payload_outlives_its_slot::<MutexArcVector>();
}

#[test]
fn rwlock_arc_vector_reads_what_was_written() {
    shared_payload_outlives_its_slot::<RwLockArcVector>();
}

#[test]
fn stores_with_counters_that_start_apart_issue_distinct_handles() {
    let args = args(2, 2);
    let one = MutexVector::create_global(&args, GenerationCounter::new());
    let other = MutexVector::create_global(&args, GenerationCounter::starting_at(1 << 31));
    let mut worker = MutexVector::new(&args);
    let a = worker.write(&one, &Storage::new(1)).unwrap();
    let b = worker.write(&other, &Storage::new(1)).unwrap();
    assert_eq!(a.index(), b.index());
    assert_ne!(a, b);
    assert_eq!((a.unique_id(), b.unique_id()), (0, 1 << 31));
}

#[test]
fn mutex_arc_vector_writes_and_accounts() {
    shared_payload_strategy::<MutexArcVector>(std::mem::size_of::<memdb::arc_store::ArcItem>());
}

#[test]
fn rwlock_arc_vector_writes_and_accounts() {
    shared_payload_strategy::<RwLockArcVector>(std::mem::size_of::<memdb::arc_store::ArcItem>());
}

#[test]
fn interleaved_workers_issue_distinct_generations() {
    let args = args(16, 4);
    let global = MutexVector::create_global(&args, GenerationCounter::new());
    let mut workers: Vec<MutexVector> = (0..4).map(|_| MutexVector::new(&args)).collect();
    let payload = Storage::new(8);
    let mut generations: Vec<u32> = Vec::new();
    for round in 0..1000usize {
        for offset in 0..4usize {
            let worker = &mut workers[(round + offset) % 4];
            generations.push(worker.write(&global, &payload).unwrap().unique_id());
        }
    }
    generations.sort();
    generations.dedup();
    assert_eq!(generations.len(), 4 * 1000);
}
