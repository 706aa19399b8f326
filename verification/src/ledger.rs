//! What reads can be held to: a ledger of the payload that was written under
//! each handle.
//!
//! A store and the caches in front of it hold copies of what was written.
//! The laws here say that the copies stay true to the ledger through writes
//! and through reads, so that whatever a read returns for a handle, from the
//! store or from a cache, is the payload that was written under that handle.

use vstd::prelude::*;
use crate::cache::{lemma_insert_wf, CacheView};
use crate::handle::{lemma_unique_hash_injective, HandleView};
use crate::store::{lemma_get_owner, lemma_write_wf, SlotView, StoreView};

verus! {

/// Every slot of `slots` holds what `ledger` records for the slot's handle.
pub open spec fn slots_agree(slots: Seq<SlotView>, ledger: Map<HandleView, Seq<u8>>) -> bool {
    forall|i: int|
        0 <= i < slots.len() ==> {
            &&& ledger.contains_key((#[trigger] slots[i]).handle)
            &&& ledger[slots[i].handle] == slots[i].payload
        }
}

/// `later` records everything that `earlier` records, unchanged.
pub open spec fn extends(later: Map<HandleView, Seq<u8>>, earlier: Map<HandleView, Seq<u8>>) -> bool {
    forall|handle: HandleView| #[trigger]
        earlier.contains_key(handle) ==> later.contains_key(handle) && later[handle]
            == earlier[handle]
}

/// What agrees with a ledger agrees with every ledger that extends it.
pub proof fn lemma_agreement_extends(
    slots: Seq<SlotView>,
    earlier: Map<HandleView, Seq<u8>>,
    later: Map<HandleView, Seq<u8>>,
)
    requires
        slots_agree(slots, earlier),
        extends(later, earlier),
    ensures
        slots_agree(slots, later),
{
    assert forall|i: int| 0 <= i < slots.len() implies {
        &&& later.contains_key((#[trigger] slots[i]).handle)
        &&& later[slots[i].handle] == slots[i].payload
    } by {
        assert(earlier.contains_key(slots[i].handle));
    }
}

/// A write under a handle that the ledger does not know yet keeps the store
/// true to the ledger, once the write is recorded; and the ledger with the
/// record extends the ledger without it.
pub proof fn lemma_write_agrees(
    store: StoreView,
    ledger: Map<HandleView, Seq<u8>>,
    payload: Seq<u8>,
    generation: u32,
)
    requires
        store.wf(),
        slots_agree(store.slots, ledger),
        !ledger.contains_key(store.next_handle(generation)),
    ensures
        slots_agree(
            store.write(payload, generation).slots,
            ledger.insert(store.next_handle(generation), payload),
        ),
        extends(ledger.insert(store.next_handle(generation), payload), ledger),
{
    lemma_write_wf(store, payload, generation);
    let handle = store.next_handle(generation);
    let after = store.write(payload, generation);
    let recorded = ledger.insert(handle, payload);
    if store.is_full() {
        assert(store.order[0] < store.slots.len());
    }
    assert forall|i: int| 0 <= i < after.slots.len() implies {
        &&& recorded.contains_key((#[trigger] after.slots[i]).handle)
        &&& recorded[after.slots[i].handle] == after.slots[i].payload
    } by {
        if i != store.next_slot() {
            assert(after.slots[i] == store.slots[i]);
            assert(ledger.contains_key(store.slots[i].handle));
        }
    }
}

/// What a store that is true to the ledger returns for a handle is what the
/// ledger records for it.
pub proof fn lemma_get_agrees(
    store: StoreView,
    ledger: Map<HandleView, Seq<u8>>,
    handle: HandleView,
)
    requires
        store.wf(),
        slots_agree(store.slots, ledger),
        store.get(handle) is Some,
    ensures
        ledger.contains_key(handle),
        store.get(handle) == Some(ledger[handle]),
{
    lemma_get_owner(store, handle);
    assert(ledger.contains_key(store.slots[handle.index as int].handle));
}

/// Caching what the ledger records for a handle keeps the cache true to the
/// ledger.
pub proof fn lemma_insert_agrees(
    cache: CacheView,
    ledger: Map<HandleView, Seq<u8>>,
    handle: HandleView,
    payload: Seq<u8>,
)
    requires
        cache.wf(),
        slots_agree(cache.slots, ledger),
        ledger.contains_key(handle),
        ledger[handle] == payload,
    ensures
        slots_agree(cache.insert(handle, payload).slots, ledger),
{
    lemma_insert_wf(cache, handle, payload);
    let after = cache.insert(handle, payload);
    if cache.is_full() {
        assert(cache.order[0] < cache.slots.len());
    }
    assert forall|i: int| 0 <= i < after.slots.len() implies {
        &&& ledger.contains_key((#[trigger] after.slots[i]).handle)
        &&& ledger[after.slots[i].handle] == after.slots[i].payload
    } by {
        if i != cache.next_slot() {
            assert(after.slots[i] == cache.slots[i]);
            assert(ledger.contains_key(cache.slots[i].handle));
        }
    }
}

/// A read through a cache never returns the wrong bytes: with the cache and
/// the store behind it both true to the ledger, whatever the read returns
/// for a handle is what the ledger records for that handle, and the cache
/// that the read leaves is true to the ledger again.
pub proof fn lemma_read_through_agrees(
    cache: CacheView,
    store: StoreView,
    ledger: Map<HandleView, Seq<u8>>,
    handle: HandleView,
)
    requires
        cache.wf(),
        store.wf(),
        slots_agree(cache.slots, ledger),
        slots_agree(store.slots, ledger),
    ensures
        cache.read_through(store, handle).0 is Some ==> ledger.contains_key(handle)
            && cache.read_through(store, handle).0 == Some(ledger[handle]),
        slots_agree(cache.read_through(store, handle).1.slots, ledger),
        cache.read_through(store, handle).1.wf(),
{
    if cache.index.contains_key(handle.unique_hash()) {
        let position = cache.index[handle.unique_hash()] as int;
        assert(ledger.contains_key(cache.slots[position].handle));
        lemma_unique_hash_injective(cache.slots[position].handle, handle);
    } else if store.get(handle) is Some {
        lemma_get_agrees(store, ledger, handle);
        lemma_insert_agrees(cache, ledger, handle, store.get(handle)->0);
        lemma_insert_wf(cache, handle, store.get(handle)->0);
    }
}

} // verus!
