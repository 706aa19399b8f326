//! The strategy with mutual exclusion and shared payloads: a read takes a
//! counted reference to the payload while it has the store to itself, and
//! lets go of the store at once. A worker keeps no cache, only the payload
//! that it read last.

use vstd::prelude::*;
use std::sync::Arc;
use crate::accounting::saturated;
use crate::arc_store::ArcItem;
use crate::eviction_list::DBLItem;
use crate::handle::{generation_at, GenerationCounter, Handle};
use crate::map_store::lend;
use crate::scenario::{Args, Scenario, WriteError};
use crate::shared_store::{new_locked_arc_store, LockedArcStore};
use crate::storage::Storage;
use crate::store::{lemma_stamped_by_is_before, lemma_write_wf, StoreView};

verus! {

/// A worker of the mutual-exclusion strategy with shared payloads. Its
/// view is the payload that it read last, which it shares with the store
/// for as long as the store holds it, and keeps so that it can lend it.
pub struct MutexArcVector {
    last_accessed: Option<Arc<Storage>>,
}

impl View for MutexArcVector {
    type V = Option<Seq<u8>>;

    closed spec fn view(&self) -> Option<Seq<u8>> {
        match self.last_accessed {
            Some(payload) => Some(payload@),
            None => None,
        }
    }
}

impl Scenario for MutexArcVector {
    type Global = LockedArcStore;

    fn create_global(args: &Args, counter: GenerationCounter) -> (global: LockedArcStore)
        ensures
            global.pred().capacity == args.capacity,
    {
        new_locked_arc_store(args.capacity, counter)
    }

    /// A worker that has read nothing yet.
    fn new(args: &Args) -> (worker: Self)
        ensures
            worker@ is None,
    {
        MutexArcVector { last_accessed: None }
    }

    /// Writes to the shared store, under the exclusive lock. The write is
    /// always done, and the handle names a slot of the store.
    fn write(&mut self, global: &LockedArcStore, storage: &Storage) -> (written: Result<
        Handle<Storage>,
        WriteError,
    >)
        ensures
            written matches Ok(handle) && handle@.index < global.pred().capacity,
            final(self)@ == old(self)@,
    {
        let (mut shared, guard) = global.acquire_write();
        proof {
            shared.db.lemma_wf_view();
            lemma_write_wf(shared.db@, storage@, generation_at(shared.counter@));
            lemma_stamped_by_is_before(shared.db@, shared.counter@);
        }
        let handle = shared.db.write(storage, &mut shared.counter);
        guard.release_write(shared);
        Ok(handle)
    }

    /// Looks the handle up in the shared store, while it has the store to itself. What
    /// the store holds for the handle at that moment is kept as the payload
    /// read last, and lent: the bytes are the store's own, not a copy, and
    /// stay with the worker after the store has reclaimed the slot. A
    /// handle that the store does not know finds nothing, and the payload
    /// read last stays.
    fn read(&mut self, global: &LockedArcStore, handle: Handle<Storage>) -> (found: Option<&Storage>)
        ensures
            exists|store: StoreView|
                {
                    &&& store.wf()
                    &&& store.capacity == global.pred().capacity
                    &&& match found {
                        Some(storage) => #[trigger] store.get(handle@) == Some(storage@)
                            && final(self)@ == Some(storage@),
                        None => store.get(handle@) is None && final(self)@ == old(self)@,
                    }
                },
    {
        let ghost mut store: StoreView;
        let (shared, guard) = global.acquire_write();
        let fetched = shared.db.get(handle);
        proof {
            shared.db.lemma_wf_view();
            store = shared.db@;
        }
        guard.release_write(shared);
        let found = match fetched {
            Some(payload) => {
                self.last_accessed = Some(payload);
                lend(&self.last_accessed)
            },
            None => None,
        };
        proof {
            assert(match found {
                Some(storage) => store.get(handle@) == Some(storage@) && self@ == Some(
                    storage@,
                ),
                None => store.get(handle@) is None && self@ == old(self)@,
            });
        }
        found
    }

    /// A worker's part is counted as nothing: the payload that it read last
    /// is shared with the store, and is counted there for as long as the
    /// store holds it, so that no byte is counted twice.
    fn memory_usage(&self) -> (bytes: usize)
        ensures
            bytes == 0,
    {
        0
    }

    /// The bytes that the shared store holds at the moment of the call.
    fn global_memory_usage(global: &LockedArcStore) -> (bytes: usize)
        ensures
            exists|store: StoreView|
                {
                    &&& store.wf()
                    &&& store.capacity == global.pred().capacity
                    &&& bytes == saturated(
                        #[trigger] store.memory_usage(
                            vstd::layout::size_of::<ArcItem>(),
                            vstd::layout::size_of::<DBLItem>(),
                        ),
                    )
                },
    {
        let (shared, guard) = global.acquire_write();
        proof {
            shared.db.lemma_wf_view();
        }
        let bytes = shared.db.memory_usage();
        guard.release_write(shared);
        bytes
    }
}

} // verus!
