//! The strategy with a reader/writer lock: reads of the shared store go on
//! side by side, a write has the store to itself. Each worker keeps a cache
//! in front of the store.

use vstd::prelude::*;
use crate::accounting::saturated;
use crate::cache::{
    lemma_insert_then_lookup,
    lemma_insert_wf,
    CacheDB,
    CacheView,
    MAP_ENTRY_BYTES,
};
use crate::eviction_list::DBLItem;
use crate::handle::{generation_at, GenerationCounter, Handle};
use crate::scenario::{Args, Scenario, WriteError};
use crate::shared_store::{new_locked_store, LockedStore};
use crate::storage::Storage;
use crate::store::{lemma_stamped_by_is_before, lemma_write_wf, Item, StoreView};

verus! {

/// A worker of the reader/writer-lock strategy. Its view is its cache.
pub struct RwLockVector {
    cache: CacheDB,
}

impl View for RwLockVector {
    type V = CacheView;

    closed spec fn view(&self) -> CacheView {
        self.cache@
    }
}

impl Scenario for RwLockVector {
    type Global = LockedStore;

    closed spec fn wf(&self) -> bool {
        self.cache.wf()
    }

    fn create_global(args: &Args, counter: GenerationCounter) -> (global: LockedStore)
        ensures
            global.pred().capacity == args.capacity,
    {
        new_locked_store(args.capacity, counter)
    }

    fn new(args: &Args) -> (worker: Self)
        ensures
            worker@ == CacheView::empty(args.cache_capacity as nat),
    {
        RwLockVector { cache: CacheDB::new(args.cache_capacity) }
    }

    /// Writes to the shared store, under the exclusive lock. The write is
    /// always done; the handle names a slot of the store, and the worker's
    /// cache is not touched.
    fn write(&mut self, global: &LockedStore, storage: &Storage) -> (written: Result<
        Handle<Storage>,
        WriteError,
    >)
        ensures
            written matches Ok(handle) && handle@.index < global.pred().capacity,
            final(self)@ == old(self)@,
    {
        let (mut shared, guard) = global.acquire_write();
        proof {
            shared.db.lemma_wf_view();
            lemma_write_wf(shared.db@, storage@, generation_at(shared.counter@));
            lemma_stamped_by_is_before(shared.db@, shared.counter@);
        }
        let handle = shared.db.write(storage, &mut shared.counter);
        guard.release_write(shared);
        Ok(handle)
    }

    /// Reads through the worker's cache. A cached handle is answered from
    /// the cache, without the lock. Otherwise the store is read under the
    /// shared lock: what it holds for the handle at that moment is cached
    /// and returned, and a handle that it does not know finds nothing.
    fn read(&mut self, global: &LockedStore, handle: Handle<Storage>) -> (found: Option<&Storage>)
        ensures
            final(self)@.wf(),
            old(self)@.index_of(handle@) is Some ==> {
                &&& final(self)@ == old(self)@
                &&& match found {
                    Some(storage) => old(self)@.lookup(handle@) == Some(storage@),
                    None => old(self)@.lookup(handle@) is None,
                }
            },
            old(self)@.index_of(handle@) is None ==> exists|store: StoreView|
                {
                    &&& store.wf()
                    &&& store.capacity == global.pred().capacity
                    &&& (#[trigger] old(self)@.read_through(store, handle@)).1 == final(self)@
                    &&& match found {
                        Some(storage) => old(self)@.read_through(store, handle@).0 == Some(
                            storage@,
                        ),
                        None => old(self)@.read_through(store, handle@).0 is None,
                    }
                },
    {
        proof {
            self.cache.lemma_wf_view();
        }
        let ghost before = self.cache@;
        let ghost mut store: StoreView;
        let mut index = self.cache.index(handle);
        if index.is_none() {
            let guard = global.acquire_read();
            let shared = guard.borrow();
            proof {
                shared.db.lemma_wf_view();
                store = shared.db@;
            }
            if let Some(storage) = shared.db.get(handle) {
                index = Some(self.cache.write(handle, storage));
                proof {
                    lemma_insert_wf(before, handle@, storage@);
                    lemma_insert_then_lookup(before, handle@, storage@);
                }
            }
            guard.release_read();
        }
        let found = match index {
            Some(index) => self.cache.get(index),
            None => None,
        };
        proof {
            self.cache.lemma_wf_view();
            if old(self)@.index_of(handle@) is None {
                let outcome = old(self)@.read_through(store, handle@);
                assert(outcome.1 == self@);
                assert(match found {
                    Some(storage) => outcome.0 == Some(storage@),
                    None => outcome.0 is None,
                });
            }
        }
        found
    }

    fn memory_usage(&self) -> (bytes: usize)
        ensures
            bytes == saturated(
                self@.memory_usage(
                    vstd::layout::size_of::<Item>(),
                    vstd::layout::size_of::<DBLItem>(),
                    MAP_ENTRY_BYTES as nat,
                ),
            ),
    {
        self.cache.memory_usage()
    }

    /// The bytes that the shared store holds at the moment of the call.
    fn global_memory_usage(global: &LockedStore) -> (bytes: usize)
        ensures
            exists|store: StoreView|
                {
                    &&& store.wf()
                    &&& store.capacity == global.pred().capacity
                    &&& bytes == saturated(
                        #[trigger] store.memory_usage(
                            vstd::layout::size_of::<Item>(),
                            vstd::layout::size_of::<DBLItem>(),
                        ),
                    )
                },
    {
        let guard = global.acquire_read();
        let shared = guard.borrow();
        proof {
            shared.db.lemma_wf_view();
        }
        let bytes = shared.db.memory_usage();
        guard.release_read();
        bytes
    }
}

} // verus!
