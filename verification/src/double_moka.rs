//! The strategy with two caches: one that all workers share in place of a
//! store, and one that each worker keeps in front of it. Nothing is ever
//! reclaimed by hand; the shared cache drops entries as it sees fit.

use vstd::prelude::*;
use vstd::rwlock::{RwLock, RwLockPredicate};
use std::sync::Arc;
use crate::accounting::saturated;
use crate::handle::{GenerationCounter, Handle};
use crate::map_store::{cache_bytes, cache_entry_overhead, held_bytes, lend};
use crate::moka_cache::{
    cache_get,
    cache_insert,
    cache_limit,
    cache_with_max_capacity,
    PayloadCache,
};
use crate::scenario::{Args, Scenario, WriteError};
use crate::storage::Storage;

verus! {

/// What the lock round a counter admits: every counter.
pub struct AnyCounter;

impl RwLockPredicate<GenerationCounter> for AnyCounter {
    open spec fn inv(self, counter: GenerationCounter) -> bool {
        true
    }
}

/// The shared part: one cache for all workers, and the counter for handles.
pub struct DoubleMokaGlobal {
    cache: PayloadCache,
    counter: RwLock<GenerationCounter, AnyCounter>,
}

impl DoubleMokaGlobal {
    /// The number of entries that the shared cache is made to keep.
    pub closed spec fn capacity(&self) -> u64 {
        cache_limit(self.cache)
    }
}

/// A worker of the two-cache strategy. Its view is the payload that it read
/// last, which it keeps so that it can lend it.
pub struct DoubleMoka {
    cache: PayloadCache,
    last_accessed: Option<Arc<Storage>>,
}

impl View for DoubleMoka {
    type V = Option<Seq<u8>>;

    closed spec fn view(&self) -> Option<Seq<u8>> {
        match self.last_accessed {
            Some(payload) => Some(payload@),
            None => None,
        }
    }
}

impl DoubleMoka {
    /// The number of entries that the worker's cache is made to keep.
    pub closed spec fn cache_capacity(&self) -> u64 {
        cache_limit(self.cache)
    }
}

impl Scenario for DoubleMoka {
    type Global = DoubleMokaGlobal;

    /// A shared cache made to keep `args.capacity` entries, with the
    /// counter that is to stamp the handles.
    fn create_global(args: &Args, counter: GenerationCounter) -> (global: DoubleMokaGlobal)
        ensures
            global.capacity() == args.capacity,
    {
        DoubleMokaGlobal {
            cache: cache_with_max_capacity(args.capacity as u64),
            counter: RwLock::new(counter, Ghost(AnyCounter)),
        }
    }

    /// A worker that has read nothing yet, with a cache made to keep
    /// `args.cache_capacity` entries.
    fn new(args: &Args) -> (worker: Self)
        ensures
            worker@ is None,
            worker.cache_capacity() == args.cache_capacity,
    {
        DoubleMoka { cache: cache_with_max_capacity(args.cache_capacity as u64), last_accessed: None }
    }

    /// Puts a copy of `storage` into the shared cache, under a handle for
    /// slot zero: the hash tells the entries apart. The write is always
    /// done.
    fn write(&mut self, global: &DoubleMokaGlobal, storage: &Storage) -> (written: Result<
        Handle<Storage>,
        WriteError,
    >)
        ensures
            written matches Ok(handle) && handle@.index == 0,
            final(self)@ == old(self)@,
            final(self).cache_capacity() == old(self).cache_capacity(),
    {
        let (mut counter, guard) = global.counter.acquire_write();
        let handle = Handle::new(0, &mut counter);
        guard.release_write(counter);
        cache_insert(&global.cache, handle.unique_hash(), Arc::new(storage.clone()));
        Ok(handle)
    }

    /// Asks the worker's cache, then the shared cache; what the shared
    /// cache returns is put into the worker's cache. What is found is kept
    /// as the payload read last, and lent; where nothing is found, the
    /// payload read last stays.
    fn read(&mut self, global: &DoubleMokaGlobal, handle: Handle<Storage>) -> (found: Option<&Storage>)
        ensures
            match found {
                Some(storage) => final(self)@ == Some(storage@),
                None => final(self)@ == old(self)@,
            },
            final(self).cache_capacity() == old(self).cache_capacity(),
    {
        let hash = handle.unique_hash();
        let fetched = match cache_get(&self.cache, hash) {
            Some(payload) => Some(payload),
            None => match cache_get(&global.cache, hash) {
                Some(payload) => {
                    cache_insert(&self.cache, hash, payload.clone());
                    Some(payload)
                },
                None => None,
            },
        };
        match fetched {
            Some(payload) => {
                self.last_accessed = Some(payload);
                lend(&self.last_accessed)
            },
            None => None,
        }
    }

    /// The bytes that the worker's cache holds, going by the entries that
    /// it hands out.
    fn memory_usage(&self) -> (bytes: usize)
        ensures
            exists|entries: Seq<Arc<Storage>>|
                bytes == saturated(#[trigger] held_bytes(entries, cache_entry_overhead())),
    {
        cache_bytes(&self.cache)
    }

    /// The bytes that the shared cache holds, going by the entries that it
    /// hands out.
    fn global_memory_usage(global: &DoubleMokaGlobal) -> (bytes: usize)
        ensures
            exists|entries: Seq<Arc<Storage>>|
                bytes == saturated(#[trigger] held_bytes(entries, cache_entry_overhead())),
    {
        cache_bytes(&global.cache)
    }
}

} // verus!
