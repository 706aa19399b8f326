//! What the workers share: a store and the counter that stamps its handles,
//! kept behind a lock.
//!
//! The lock lets a holder see the store only in a well-formed state, with
//! the capacity the lock was made for. What the store holds at the moment
//! of an access depends on what the other workers have done, so operations
//! that go through the lock promise what holds for every state that the
//! lock admits.

use vstd::prelude::*;
use vstd::rwlock::{RwLock, RwLockPredicate};
use crate::arc_store::ArcDB;
use crate::handle::GenerationCounter;
use crate::store::DB;

verus! {

/// A store with borrowed reads, and the counter for its handles.
pub struct SharedStore {
    pub db: DB,
    pub counter: GenerationCounter,
}

/// A store with shared payloads, and the counter for its handles.
pub struct SharedArcStore {
    pub db: ArcDB,
    pub counter: GenerationCounter,
}

/// What a lock admits: well-formed stores of one capacity, each with the
/// counter that stamped every payload in it. Every resident handle was
/// therefore issued by that counter, fewer than 2^32 issuances ago.
pub struct StoreOfCapacity {
    pub capacity: nat,
}

impl RwLockPredicate<SharedStore> for StoreOfCapacity {
    open spec fn inv(self, shared: SharedStore) -> bool {
        &&& shared.db.wf()
        &&& shared.db@.capacity == self.capacity
        &&& shared.db@.stamped_by(shared.counter@)
    }
}

impl RwLockPredicate<SharedArcStore> for StoreOfCapacity {
    open spec fn inv(self, shared: SharedArcStore) -> bool {
        &&& shared.db.wf()
        &&& shared.db@.capacity == self.capacity
        &&& shared.db@.stamped_by(shared.counter@)
    }
}

/// A locked store with borrowed reads.
pub type LockedStore = RwLock<SharedStore, StoreOfCapacity>;

/// A locked store with shared payloads.
pub type LockedArcStore = RwLock<SharedArcStore, StoreOfCapacity>;

/// An empty store of `capacity` slots, behind a lock, with the counter
/// that is to stamp its handles. Stores that are to issue handles that
/// differ from store to store are given counters that start apart.
pub fn new_locked_store(capacity: usize, counter: GenerationCounter) -> (lock: LockedStore)
    requires
        0 < capacity <= u32::MAX,
    ensures
        lock.pred().capacity == capacity,
{
    RwLock::new(
        SharedStore { db: DB::new(capacity), counter },
        Ghost(StoreOfCapacity { capacity: capacity as nat }),
    )
}

/// An empty store with shared payloads, of `capacity` slots, behind a
/// lock, with the counter that is to stamp its handles.
pub fn new_locked_arc_store(capacity: usize, counter: GenerationCounter) -> (lock:
    LockedArcStore)
    requires
        0 < capacity <= u32::MAX,
    ensures
        lock.pred().capacity == capacity,
{
    RwLock::new(
        SharedArcStore { db: ArcDB::new(capacity), counter },
        Ghost(StoreOfCapacity { capacity: capacity as nat }),
    )
}

} // verus!
