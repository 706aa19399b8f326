//! Bookkeeping for the strategies that keep their payloads in a concurrent
//! map: which slot a write takes, whether a slot can be taken, which entry
//! a handle owns, and how many bytes the entries come to.
//!
//! What a concurrent map returns depends on what the other workers have
//! done to it. The functions here take what a map returned as an argument,
//! and say exactly what follows from each value of it.

use vstd::prelude::*;
use vstd::rwlock::{RwLock, RwLockPredicate};
use std::sync::Arc;
use crate::accounting::{saturated, saturating_sum};
use crate::eviction_list::{after_pop, popped, pushed, DBL};
use crate::handle::{generation_at, GenerationCounter, Handle, HandleView};
use crate::moka_cache::{cache_run_pending_tasks, cache_values, PayloadCache};
use crate::scenario::WriteError;
use crate::storage::Storage;

verus! {

/// The eviction list of a map-backed store, and the counter for its handles.
pub struct EvictionState {
    pub list: DBL,
    pub counter: GenerationCounter,
}

/// What the lock round an eviction list admits: well-formed lists of one
/// capacity.
pub struct ListOfCapacity {
    pub capacity: nat,
}

impl RwLockPredicate<EvictionState> for ListOfCapacity {
    open spec fn inv(self, state: EvictionState) -> bool {
        &&& state.list.wf()
        &&& state.list.capacity() == self.capacity
    }
}

/// A locked eviction list.
pub type LockedList = RwLock<EvictionState, ListOfCapacity>;

/// An empty eviction list of `capacity` entries, behind a lock, with the
/// counter that is to stamp the handles.
pub fn new_locked_list(capacity: usize, counter: GenerationCounter) -> (lock: LockedList)
    ensures
        lock.pred().capacity == capacity,
{
    RwLock::new(
        EvictionState { list: DBL::new(capacity), counter },
        Ghost(ListOfCapacity { capacity: capacity as nat }),
    )
}

/// Where a write finds its slot, given the eviction list `order` and the
/// number of entries that the map reported. A map below its capacity has
/// room for a slot that was never used: `Ok(None)`. A full map must give up
/// the slot at the tail of the list: `Ok(Some(index))`. Where the map is
/// full and the list is empty, there is no slot to be had.
pub open spec fn slot_choice(order: Seq<u32>, occupied: nat, capacity: nat) -> Result<
    Option<u32>,
    WriteError,
> {
    if occupied >= capacity {
        match popped(order) {
            Some(index) => Ok(Some(index)),
            None => Err(WriteError::ListEmpty),
        }
    } else {
        Ok(None)
    }
}

/// Decides where a write finds its slot, and takes the slot to give up off
/// the eviction list.
pub fn pick_slot(list: &mut DBL, occupied: usize, capacity: usize) -> (choice: Result<
    Option<u32>,
    WriteError,
>)
    requires
        old(list).wf(),
    ensures
        final(list).wf(),
        final(list).capacity() == old(list).capacity(),
        choice == slot_choice(old(list)@, occupied as nat, capacity as nat),
        final(list)@ == (if occupied >= capacity {
            after_pop(old(list)@)
        } else {
            old(list)@
        }),
{
    if occupied >= capacity {
        match list.pop() {
            Some(index) => Ok(Some(index)),
            None => Err(WriteError::ListEmpty),
        }
    } else {
        Ok(None)
    }
}

/// Takes slot `index` for a write: issues the handle and puts the slot at
/// the head of the eviction list. A slot that the list still holds cannot
/// be taken; the list and the counter are then left as they were.
pub fn claim_slot(list: &mut DBL, counter: &mut GenerationCounter, index: u32) -> (claimed:
    Result<Handle<Storage>, WriteError>)
    requires
        old(list).wf(),
    ensures
        final(list).wf(),
        final(list).capacity() == old(list).capacity(),
        match claimed {
            Ok(handle) => {
                &&& !old(list)@.contains(index)
                &&& handle@ == (HandleView { index, generation: generation_at(old(counter)@) })
                &&& final(counter)@ == old(counter)@ + 1
                &&& final(list)@ == pushed(old(list)@, old(list).capacity(), index)
            },
            Err(error) => {
                &&& error == WriteError::SlotHeld
                &&& old(list)@.contains(index)
                &&& final(counter)@ == old(counter)@
                &&& final(list)@ == old(list)@
            },
        },
{
    if list.holds(index) {
        return Err(WriteError::SlotHeld);
    }
    let handle = Handle::new(index, counter);
    list.push(index);
    Ok(handle)
}

/// The payload that `handle` owns, given the entry that the map returned
/// for the handle's slot: the entry's payload if the entry carries the
/// handle's generation id, nothing if the slot has no entry or was written
/// again since the handle was issued.
pub open spec fn owned_payload(handle: HandleView, entry: Option<(Arc<Storage>, u32)>) -> Option<
    Arc<Storage>,
> {
    match entry {
        Some((payload, generation)) => if generation == handle.generation {
            Some(payload)
        } else {
            None
        },
        None => None,
    }
}

/// Picks the payload that `handle` owns out of the entry that the map
/// returned for the handle's slot.
pub fn entry_for(handle: Handle<Storage>, entry: Option<(Arc<Storage>, u32)>) -> (payload: Option<
    Arc<Storage>,
>)
    ensures
        payload == owned_payload(handle@, entry),
{
    match entry {
        Some((payload, generation)) => {
            if generation != handle.unique_id() {
                return None;
            }
            Some(payload)
        },
        None => None,
    }
}

/// The bytes that `payloads` come to: the length of each, and `per_entry`
/// bytes for each on top.
pub open spec fn held_bytes(payloads: Seq<Arc<Storage>>, per_entry: nat) -> nat
    decreases payloads.len(),
{
    if payloads.len() == 0 {
        0
    } else {
        held_bytes(payloads.drop_last(), per_entry) + payloads.last()@.len() + per_entry
    }
}

/// Adds up the bytes that `entries` come to. A total beyond `usize::MAX` is
/// reported as `usize::MAX`.
pub fn entries_bytes(entries: &Vec<Arc<Storage>>, per_entry: usize) -> (bytes: usize)
    ensures
        bytes == saturated(held_bytes(entries@, per_entry as nat)),
{
    let mut total: usize = 0;
    let mut i: usize = 0;
    while i < entries.len()
        invariant
            i <= entries@.len(),
            total == saturated(held_bytes(entries@.take(i as int), per_entry as nat)),
        decreases entries@.len() - i,
    {
        assert(entries@.take(i + 1).drop_last() =~= entries@.take(i as int));
        total = total.saturating_add(entries[i].len()).saturating_add(per_entry);
        i = i + 1;
    }
    assert(entries@.take(i as int) =~= entries@);
    total
}

/// Counting with an overhead that was cut down to `usize::MAX` comes to the
/// same as counting with the overhead itself, once the total is cut down.
pub proof fn lemma_held_bytes_saturated(payloads: Seq<Arc<Storage>>, per_entry: nat)
    ensures
        saturated(held_bytes(payloads, saturated(per_entry) as nat)) == saturated(
            held_bytes(payloads, per_entry),
        ),
{
    if per_entry > usize::MAX && payloads.len() > 0 {
        lemma_held_bytes_at_least(payloads, per_entry);
        lemma_held_bytes_at_least(payloads, usize::MAX as nat);
    }
}

proof fn lemma_held_bytes_at_least(payloads: Seq<Arc<Storage>>, per_entry: nat)
    requires
        payloads.len() > 0,
    ensures
        held_bytes(payloads, per_entry) >= per_entry,
{
}

/// The bytes that one entry of a worker's cache is counted as, on top of
/// its payload: the key and the reference to the payload.
pub open spec fn cache_entry_overhead() -> nat {
    vstd::layout::size_of::<u64>() + vstd::layout::size_of::<Arc<Storage>>()
}

/// The bytes that one entry of the shared map is counted as, on top of its
/// payload: the slot index, the reference to the payload, and the
/// generation id.
pub open spec fn map_entry_overhead() -> nat {
    vstd::layout::size_of::<u32>() + vstd::layout::size_of::<Arc<Storage>>()
        + vstd::layout::size_of::<u32>()
}

/// Computes `map_entry_overhead`.
pub fn map_entry_bytes() -> (bytes: usize)
    ensures
        bytes == saturated(map_entry_overhead()),
{
    saturating_sum(
        saturating_sum(core::mem::size_of::<u32>(), core::mem::size_of::<Arc<Storage>>()),
        core::mem::size_of::<u32>(),
    )
}

/// The bytes that a worker's cache holds, going by the entries that the
/// cache hands out after it has caught up on its housekeeping.
pub fn cache_bytes(cache: &PayloadCache) -> (bytes: usize)
    ensures
        exists|entries: Seq<Arc<Storage>>|
            bytes == saturated(#[trigger] held_bytes(entries, cache_entry_overhead())),
{
    cache_run_pending_tasks(cache);
    let values = cache_values(cache);
    let overhead = saturating_sum(
        core::mem::size_of::<u64>(),
        core::mem::size_of::<Arc<Storage>>(),
    );
    let bytes = entries_bytes(&values, overhead);
    proof {
        lemma_held_bytes_saturated(values@, cache_entry_overhead());
        assert(bytes == saturated(held_bytes(values@, cache_entry_overhead())));
    }
    bytes
}

/// Lends the payload that a worker read last.
pub fn lend(last_accessed: &Option<Arc<Storage>>) -> (lent: Option<&Storage>)
    ensures
        match lent {
            Some(storage) => last_accessed matches Some(payload) && storage@ == payload@,
            None => last_accessed is None,
        },
{
    match last_accessed {
        Some(payload) => Some(&**payload),
        None => None,
    }
}

} // verus!
