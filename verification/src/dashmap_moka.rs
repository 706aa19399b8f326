//! The strategy with a sharded concurrent map: payloads live in the map by
//! slot index, an eviction list behind a lock says which slot to give up,
//! and each worker keeps a cache in front of the map.
//!
//! The map and the list are not changed in one step: a worker lets go of
//! the list while it takes an entry out of the map. Where workers race, a
//! write can find the map full and the list empty, or find its slot in the
//! list already. The write then fails and says which of the two it was.

use vstd::prelude::*;
use std::sync::atomic::AtomicU32;
use std::sync::Arc;
use crate::accounting::{saturated, saturating_product, saturating_sum};
use crate::dash_map::{
    slot_map_get,
    slot_map_insert,
    slot_map_len,
    slot_map_payloads,
    slot_map_remove,
    slot_map_with_capacity,
    SlotMap,
    STARTING_CAPACITY_LIMIT,
};
use crate::eviction_list::DBLItem;
use crate::handle::{GenerationCounter, Handle};
use crate::map_store::{
    cache_bytes,
    cache_entry_overhead,
    claim_slot,
    entries_bytes,
    entry_for,
    held_bytes,
    lemma_held_bytes_saturated,
    lend,
    map_entry_bytes,
    map_entry_overhead,
    new_locked_list,
    pick_slot,
    LockedList,
};
use crate::moka_cache::{
    cache_get,
    cache_insert,
    cache_limit,
    cache_with_max_capacity,
    PayloadCache,
};
use crate::next_index::fresh_index;
use crate::scenario::{Args, Scenario, WriteError};
use crate::storage::Storage;

verus! {

/// The shared part: the map, the eviction list behind its lock, and the
/// source of unused slot indices.
pub struct DashMapGlobal {
    map: SlotMap,
    lru: LockedList,
    next_index: AtomicU32,
    capacity: usize,
}

impl DashMapGlobal {
    /// The number of slots that the map is meant to hold.
    pub closed spec fn capacity(&self) -> nat {
        self.capacity as nat
    }
}

/// A worker of the sharded-map strategy. Its view is the payload that it
/// read last, which it keeps so that it can lend it.
pub struct DashMapMoka {
    cache: PayloadCache,
    last_accessed: Option<Arc<Storage>>,
}

impl View for DashMapMoka {
    type V = Option<Seq<u8>>;

    closed spec fn view(&self) -> Option<Seq<u8>> {
        match self.last_accessed {
            Some(payload) => Some(payload@),
            None => None,
        }
    }
}

impl DashMapMoka {
    /// The number of entries that the worker's cache is made to keep.
    pub closed spec fn cache_capacity(&self) -> u64 {
        cache_limit(self.cache)
    }
}

impl Scenario for DashMapMoka {
    type Global = DashMapGlobal;

    fn create_global(args: &Args, counter: GenerationCounter) -> (global: DashMapGlobal)
        ensures
            global.capacity() == args.capacity,
    {
        let starting_capacity = if args.capacity <= STARTING_CAPACITY_LIMIT {
            args.capacity
        } else {
            STARTING_CAPACITY_LIMIT
        };
        DashMapGlobal {
            map: slot_map_with_capacity(starting_capacity),
            lru: new_locked_list(args.capacity, counter),
            next_index: AtomicU32::new(0),
            capacity: args.capacity,
        }
    }

    /// A worker that has read nothing yet, with a cache made to keep
    /// `args.cache_capacity` entries.
    fn new(args: &Args) -> (worker: Self)
        ensures
            worker@ is None,
            worker.cache_capacity() == args.cache_capacity,
    {
        DashMapMoka {
            cache: cache_with_max_capacity(args.cache_capacity as u64),
            last_accessed: None,
        }
    }

    /// Finds a slot, issues the handle for it, and puts a copy of `storage`
    /// into the map under the slot index.
    ///
    /// While the map reports fewer entries than its capacity, the slot is
    /// one that was never used; after that it is the slot that the eviction
    /// list gives up, whose entry is taken out of the map first. The write
    /// fails where the list has nothing to give up, or still holds the slot
    /// that was chosen; the map is then not written to.
    fn write(&mut self, global: &DashMapGlobal, storage: &Storage) -> (written: Result<
        Handle<Storage>,
        WriteError,
    >)
        ensures
            final(self)@ == old(self)@,
            final(self).cache_capacity() == old(self).cache_capacity(),
    {
        let (mut state, guard) = global.lru.acquire_write();
        let occupied = slot_map_len(&global.map);
        let (index, claimed) = match pick_slot(&mut state.list, occupied, global.capacity) {
            Ok(Some(index)) => {
                guard.release_write(state);
                slot_map_remove(&global.map, index);
                let (mut state, guard) = global.lru.acquire_write();
                let claimed = claim_slot(&mut state.list, &mut state.counter, index);
                guard.release_write(state);
                (index, claimed)
            },
            Ok(None) => {
                let index = fresh_index(&global.next_index);
                let claimed = claim_slot(&mut state.list, &mut state.counter, index);
                guard.release_write(state);
                (index, claimed)
            },
            Err(error) => {
                guard.release_write(state);
                return Err(error);
            },
        };
        match claimed {
            Ok(handle) => {
                slot_map_insert(&global.map, index, Arc::new(storage.clone()), handle.unique_id());
                Ok(handle)
            },
            Err(error) => Err(error),
        }
    }

    /// Asks the worker's cache, then the map. An entry of the map counts
    /// only if it carries the handle's generation id; it is then put into
    /// the worker's cache. What is found is kept as the payload read last,
    /// and lent; where nothing is found, the payload read last stays.
    fn read(&mut self, global: &DashMapGlobal, handle: Handle<Storage>) -> (found: Option<&Storage>)
        ensures
            match found {
                Some(storage) => final(self)@ == Some(storage@),
                None => final(self)@ == old(self)@,
            },
            final(self).cache_capacity() == old(self).cache_capacity(),
    {
        let hash = handle.unique_hash();
        let index = handle.index() as u32;
        let fetched = match cache_get(&self.cache, hash) {
            Some(payload) => Some(payload),
            None => match entry_for(handle, slot_map_get(&global.map, index)) {
                Some(payload) => {
                    cache_insert(&self.cache, hash, payload.clone());
                    Some(payload)
                },
                None => None,
            },
        };
        match fetched {
            Some(payload) => {
                self.last_accessed = Some(payload);
                lend(&self.last_accessed)
            },
            None => None,
        }
    }

    /// The bytes that the worker's cache holds, going by the entries that
    /// it hands out.
    fn memory_usage(&self) -> (bytes: usize)
        ensures
            exists|entries: Seq<Arc<Storage>>|
                bytes == saturated(#[trigger] held_bytes(entries, cache_entry_overhead())),
    {
        cache_bytes(&self.cache)
    }

    /// The bytes that the map holds, going by the entries that it hands
    /// out, and one link entry for each slot of the eviction list.
    fn global_memory_usage(global: &DashMapGlobal) -> (bytes: usize)
        ensures
            exists|entries: Seq<Arc<Storage>>|
                bytes == saturated(
                    #[trigger] held_bytes(entries, map_entry_overhead()) + global.capacity()
                        * vstd::layout::size_of::<DBLItem>(),
                ),
    {
        let payloads = slot_map_payloads(&global.map);
        let held = entries_bytes(&payloads, map_entry_bytes());
        let links = saturating_product(global.capacity, core::mem::size_of::<DBLItem>());
        let bytes = saturating_sum(held, links);
        proof {
            lemma_held_bytes_saturated(payloads@, map_entry_overhead());
            assert(bytes == saturated(
                held_bytes(payloads@, map_entry_overhead()) + global.capacity()
                    * vstd::layout::size_of::<DBLItem>(),
            ));
        }
        bytes
    }
}

} // verus!
