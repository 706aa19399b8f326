//! The secondary cache: a small arena that a single reader keeps in front of
//! a primary store, found by a handle's hash.
//!
//! The cache holds its own copy of every payload, so an entry stays good
//! after the store has reclaimed the slot it came from. What it hands out
//! for a handle is always what was cached under that very handle, because
//! the hash it is found by holds the generation as well as the slot index.

use vstd::prelude::*;
use std::collections::HashMap;
use crate::eviction_list::{holds_position, lemma_distinct_bounded_full, DBLItem, DBL};
use crate::handle::{lemma_unique_hash_injective, Handle, HandleView};
use crate::storage::Storage;
use crate::accounting::{saturated, saturating_product};
use crate::store::{payload_bytes, Item, SlotView, StoreView, DB};

verus! {

/// The state of a cache, as plain values: its capacity, its occupied slots
/// by position, the order in which they will be reclaimed (first entry
/// first), and the lookup table from a handle's hash to a slot position.
pub struct CacheView {
    pub capacity: nat,
    pub slots: Seq<SlotView>,
    pub order: Seq<u32>,
    pub index: Map<u64, u32>,
}

impl CacheView {
    /// A cache that holds nothing.
    pub open spec fn empty(capacity: nat) -> CacheView {
        CacheView { capacity, slots: Seq::empty(), order: Seq::empty(), index: Map::empty() }
    }

    /// The states that a cache can be in: slots fill up from position zero,
    /// the reclaim order holds every occupied position exactly once, and
    /// every entry of the lookup table leads to a slot whose handle has that
    /// hash.
    pub open spec fn wf(self) -> bool {
        &&& 0 < self.capacity <= u32::MAX
        &&& self.slots.len() <= self.capacity
        &&& self.order.len() == self.slots.len()
        &&& self.order.no_duplicates()
        &&& forall|i: int|
            0 <= i < self.order.len() ==> (#[trigger] self.order[i]) < self.slots.len()
        &&& self.index.dom().finite()
        &&& forall|key: u64| #[trigger]
            self.index.contains_key(key) ==> {
                &&& self.index[key] < self.slots.len()
                &&& self.slots[self.index[key] as int].handle.unique_hash() == key
            }
    }

    /// No handle is cached twice: every occupied slot is the one that the
    /// lookup table gives for the handle it holds. Insertions of handles
    /// that are not cached, and so reads through the cache, keep it so.
    pub open spec fn indexes_every_slot(self) -> bool {
        forall|i: int|
            0 <= i < self.slots.len() ==> {
                &&& self.index.contains_key((#[trigger] self.slots[i]).handle.unique_hash())
                &&& self.index[self.slots[i].handle.unique_hash()] == i
            }
    }

    pub open spec fn is_full(self) -> bool {
        self.slots.len() >= self.capacity
    }

    /// The slot that the next insertion goes to: the first unused position,
    /// or, when all are used, the slot that was filled longest ago.
    pub open spec fn next_slot(self) -> u32 {
        if self.is_full() {
            self.order[0]
        } else {
            self.slots.len() as u32
        }
    }

    /// The slot position that the lookup table gives for `handle`.
    pub open spec fn index_of(self, handle: HandleView) -> Option<usize> {
        if self.index.contains_key(handle.unique_hash()) {
            Some(self.index[handle.unique_hash()] as usize)
        } else {
            None
        }
    }

    /// The payload in slot `position`.
    pub open spec fn payload_at(self, position: int) -> Option<Seq<u8>> {
        if 0 <= position < self.slots.len() {
            Some(self.slots[position].payload)
        } else {
            None
        }
    }

    /// What the cache holds for `handle`.
    pub open spec fn lookup(self, handle: HandleView) -> Option<Seq<u8>> {
        match self.index_of(handle) {
            Some(position) => self.payload_at(position as int),
            None => None,
        }
    }

    /// The cache after `payload` was inserted under `handle`. When the cache
    /// is full, the slot that was filled longest ago is reused, and the
    /// handle that it held is dropped from the lookup table first.
    pub open spec fn insert(self, handle: HandleView, payload: Seq<u8>) -> CacheView {
        let position = self.next_slot();
        let slot = SlotView { handle, payload };
        if self.is_full() {
            CacheView {
                capacity: self.capacity,
                slots: self.slots.update(position as int, slot),
                order: self.order.drop_first().push(position),
                index: self.index.remove(self.slots[position as int].handle.unique_hash()).insert(
                    handle.unique_hash(),
                    position,
                ),
            }
        } else {
            CacheView {
                capacity: self.capacity,
                slots: self.slots.push(slot),
                order: self.order.push(position),
                index: self.index.insert(handle.unique_hash(), position),
            }
        }
    }

    /// A read of `handle` through the cache, in front of `store`: what it
    /// returns, and the cache that it leaves.
    ///
    /// A cached handle is answered from the cache, and the store is not
    /// asked. Otherwise the store is asked: what it holds for the handle is
    /// cached and returned; if it holds nothing, nothing is returned and
    /// nothing is cached.
    pub open spec fn read_through(self, store: StoreView, handle: HandleView) -> (
        Option<Seq<u8>>,
        CacheView,
    ) {
        self.read_with(handle, store.get(handle))
    }

    /// A read of `handle` through the cache, given what the store behind it
    /// holds for the handle: what the read returns, and the cache that it
    /// leaves. What the store holds matters only where the handle is not
    /// cached.
    pub open spec fn read_with(self, handle: HandleView, from_store: Option<Seq<u8>>) -> (
        Option<Seq<u8>>,
        CacheView,
    ) {
        if self.index.contains_key(handle.unique_hash()) {
            (self.lookup(handle), self)
        } else {
            match from_store {
                Some(payload) => (Some(payload), self.insert(handle, payload)),
                None => (None, self),
            }
        }
    }

    /// Payload bytes, plus `link_bytes` for each link entry of the eviction
    /// list, `slot_bytes` for each occupied slot, and `entry_bytes` for each
    /// entry of the lookup table.
    pub open spec fn memory_usage(self, slot_bytes: nat, link_bytes: nat, entry_bytes: nat) -> nat {
        payload_bytes(self.slots) + self.capacity * link_bytes + self.slots.len() * slot_bytes
            + self.index.dom().len() * entry_bytes
    }
}

/// The bytes that one entry of the lookup table is counted as: a `u64` key
/// and a `u32` value.
pub const MAP_ENTRY_BYTES: usize = 12;

/// The secondary cache.
pub struct CacheDB {
    data: Vec<Item>,
    lru: DBL,
    map: HashMap<u64, u32>,
    capacity: usize,
}

impl View for CacheDB {
    type V = CacheView;

    closed spec fn view(&self) -> CacheView {
        CacheView {
            capacity: self.capacity as nat,
            slots: Seq::new(self.data@.len(), |i: int| self.data@[i]@),
            order: self.lru@,
            index: self.map@,
        }
    }
}

impl CacheDB {
    /// The cache is in one of the states of `CacheView::wf`, and its
    /// eviction list is well formed and as large as the arena.
    pub closed spec fn wf(&self) -> bool {
        &&& self@.wf()
        &&& self.lru.wf()
        &&& self.lru.capacity() == self.capacity
    }

    /// What `wf` says of the view.
    pub proof fn lemma_wf_view(&self)
        requires
            self.wf(),
        ensures
            self@.wf(),
    {
    }

    /// An empty cache with `capacity` slots.
    pub fn new(capacity: usize) -> (cache: Self)
        requires
            0 < capacity <= u32::MAX,
        ensures
            cache.wf(),
            cache@ == CacheView::empty(capacity as nat),
    {
        let cache = CacheDB {
            data: Vec::with_capacity(capacity),
            lru: DBL::new(capacity),
            map: HashMap::with_capacity(capacity),
            capacity,
        };
        assert(cache@.slots =~= Seq::empty());
        cache
    }

    /// The cache slot that holds `handle`, if it is cached. The lookup goes
    /// by the handle's hash alone.
    pub fn index(&self, handle: Handle<Storage>) -> (position: Option<usize>)
        ensures
            position == self@.index_of(handle@),
            self.wf() ==> (position matches Some(p) ==> p < self@.slots.len()),
    {
        let hash = handle.unique_hash();
        match self.map.get(&hash) {
            Some(index) => Some(*index as usize),
            None => None,
        }
    }

    /// The payload in cache slot `index`.
    pub fn get(&self, index: usize) -> (found: Option<&Storage>)
        ensures
            match found {
                Some(storage) => self@.payload_at(index as int) == Some(storage@),
                None => self@.payload_at(index as int) is None,
            },
    {
        if index < self.data.len() {
            Some(&self.data[index].data)
        } else {
            None
        }
    }

    /// Caches a copy of `data` under `handle` and returns the cache slot
    /// that it went to. A full cache gives up the entry that it has held
    /// longest.
    pub fn write(&mut self, handle: Handle<Storage>, data: &Storage) -> (position: usize)
        requires
            old(self).wf(),
        ensures
            final(self).wf(),
            position == old(self)@.next_slot(),
            final(self)@ == old(self)@.insert(handle@, data@),
    {
        let ghost before = self@;
        let index: u32 = if self.data.len() >= self.capacity {
            let idx = self.lru.pop().unwrap();
            assert(idx == before.order[0]);
            let evicted = self.data[idx as usize].handle.unique_hash();
            self.map.remove(&evicted);
            idx
        } else {
            let index = self.data.len() as u32;
            self.data.push(Item { handle: Handle::invalid(), data: Storage::new(0) });
            index
        };
        assert(index == before.next_slot());
        assert(!self.lru@.contains(index)) by {
            if before.is_full() {
                assert forall|i: int| 0 <= i < self.lru@.len() implies self.lru@[i] != index by {
                    assert(self.lru@[i] == before.order[i + 1]);
                }
            }
        }
        self.map.insert(handle.unique_hash(), index);
        self.data[index as usize].handle = handle;
        self.data[index as usize].data.set(data);
        self.lru.push(index);
        proof {
            let after = before.insert(handle@, data@);
            assert(self@.slots =~= after.slots);
            assert(self@.order =~= after.order);
            assert(self@.index =~= after.index);
            lemma_insert_wf(before, handle@, data@);
        }
        index as usize
    }

    /// Reads `handle` through the cache, in front of `store`.
    ///
    /// A cached handle is answered from the cache. Otherwise the store is
    /// asked; what it holds for the handle is copied into the cache and
    /// returned. A handle that the store does not know either is answered
    /// with `None`, and the cache is left as it was.
    pub fn read_through(&mut self, store: &DB, handle: Handle<Storage>) -> (found: Option<&Storage>)
        requires
            old(self).wf(),
            store.wf(),
        ensures
            final(self).wf(),
            final(self)@ == old(self)@.read_through(store@, handle@).1,
            match found {
                Some(storage) => old(self)@.read_through(store@, handle@).0 == Some(storage@),
                None => old(self)@.read_through(store@, handle@).0 is None,
            },
    {
        let ghost before = self@;
        let mut index = self.index(handle);
        if index.is_none() {
            if let Some(storage) = store.get(handle) {
                index = Some(self.write(handle, storage));
                proof {
                    lemma_insert_wf(before, handle@, storage@);
                    lemma_insert_then_lookup(before, handle@, storage@);
                }
            }
        }
        match index {
            Some(index) => self.get(index),
            None => None,
        }
    }

    /// The bytes held: every payload, one link entry for each slot of the
    /// arena, one `Item` for each occupied slot, and `MAP_ENTRY_BYTES` for
    /// each entry of the lookup table. A total beyond `usize::MAX` is
    /// reported as `usize::MAX`.
    pub fn memory_usage(&self) -> (bytes: usize)
        ensures
            bytes == saturated(
                self@.memory_usage(
                    vstd::layout::size_of::<Item>(),
                    vstd::layout::size_of::<DBLItem>(),
                    MAP_ENTRY_BYTES as nat,
                ),
            ),
    {
        let mut sz: usize = 0;
        let mut i: usize = 0;
        while i < self.data.len()
            invariant
                i <= self.data@.len(),
                sz == saturated(payload_bytes(self@.slots.take(i as int))),
            decreases self.data@.len() - i,
        {
            assert(self@.slots.take(i + 1).drop_last() =~= self@.slots.take(i as int));
            sz = sz.saturating_add(self.data[i].data.len());
            i = i + 1;
        }
        assert(self@.slots.take(i as int) =~= self@.slots);
        let links = saturating_product(self.capacity, core::mem::size_of::<DBLItem>());
        let slots = saturating_product(self.data.len(), core::mem::size_of::<Item>());
        let entries = saturating_product(self.map.len(), MAP_ENTRY_BYTES);
        sz.saturating_add(links).saturating_add(slots).saturating_add(entries)
    }
}

/// An insertion leaves the cache in a well-formed state.
pub proof fn lemma_insert_wf(cache: CacheView, handle: HandleView, payload: Seq<u8>)
    requires
        cache.wf(),
    ensures
        cache.insert(handle, payload).wf(),
        cache.next_slot() < cache.capacity,
        cache.insert(handle, payload).capacity == cache.capacity,
{
    let after = cache.insert(handle, payload);
    let position = cache.next_slot();
    if cache.is_full() {
        let rest = cache.order.drop_first();
        assert forall|i: int, j: int|
            0 <= i < after.order.len() && 0 <= j < after.order.len() && i != j implies after.order[i]
            != after.order[j] by {
            if i < rest.len() && j < rest.len() {
                assert(cache.order[i + 1] != cache.order[j + 1]);
            } else if i < rest.len() {
                assert(cache.order[i + 1] != cache.order[0]);
            } else {
                assert(cache.order[j + 1] != cache.order[0]);
            }
        }
        assert forall|i: int| 0 <= i < after.order.len() implies (#[trigger] after.order[i])
            < after.slots.len() by {
            if i < rest.len() {
                assert(after.order[i] == cache.order[i + 1]);
            }
        }
        assert(cache.order[0] < cache.slots.len());
        let evicted = cache.slots[position as int].handle.unique_hash();
        assert forall|key: u64| #[trigger] after.index.contains_key(key) implies {
            &&& after.index[key] < after.slots.len()
            &&& after.slots[after.index[key] as int].handle.unique_hash() == key
        } by {
            if key != handle.unique_hash() {
                assert(cache.index.contains_key(key));
                assert(key != evicted);
                assert(cache.index[key] != position);
            }
        }
    } else {
        assert forall|i: int, j: int|
            0 <= i < after.order.len() && 0 <= j < after.order.len() && i != j implies after.order[i]
            != after.order[j] by {
            if i < cache.order.len() && j < cache.order.len() {
                assert(cache.order[i] != cache.order[j]);
            } else if i < cache.order.len() {
                assert(cache.order[i] < cache.slots.len());
            } else {
                assert(cache.order[j] < cache.slots.len());
            }
        }
        assert forall|i: int| 0 <= i < after.order.len() implies (#[trigger] after.order[i])
            < after.slots.len() by {
            if i < cache.order.len() {
                assert(after.order[i] == cache.order[i]);
            }
        }
        assert forall|key: u64| #[trigger] after.index.contains_key(key) implies {
            &&& after.index[key] < after.slots.len()
            &&& after.slots[after.index[key] as int].handle.unique_hash() == key
        } by {
            if key != handle.unique_hash() {
                assert(cache.index.contains_key(key));
            }
        }
    }
}

/// What was just inserted under a handle is what the cache holds for it.
pub proof fn lemma_insert_then_lookup(cache: CacheView, handle: HandleView, payload: Seq<u8>)
    requires
        cache.wf(),
    ensures
        cache.insert(handle, payload).lookup(handle) == Some(payload),
        cache.insert(handle, payload).index_of(handle) == Some(cache.next_slot() as usize),
{
    lemma_insert_wf(cache, handle, payload);
    if cache.is_full() {
        assert(cache.order[0] < cache.slots.len());
    }
}

/// Inserting a handle that is not cached yet, into a cache that holds no
/// handle twice, gives a cache that holds no handle twice.
pub proof fn lemma_insert_indexes_every_slot(
    cache: CacheView,
    handle: HandleView,
    payload: Seq<u8>,
)
    requires
        cache.wf(),
        cache.indexes_every_slot(),
        cache.index_of(handle) is None,
    ensures
        cache.insert(handle, payload).indexes_every_slot(),
{
    let after = cache.insert(handle, payload);
    let position = cache.next_slot();
    if cache.is_full() {
        assert(cache.order[0] < cache.slots.len());
    }
    assert forall|i: int| 0 <= i < after.slots.len() implies {
        &&& after.index.contains_key((#[trigger] after.slots[i]).handle.unique_hash())
        &&& after.index[after.slots[i].handle.unique_hash()] == i
    } by {
        if i != position {
            assert(after.slots[i] == cache.slots[i]);
            let key = cache.slots[i].handle.unique_hash();
            assert(cache.index.contains_key(key));
            if cache.is_full() {
                let evicted = cache.slots[position as int].handle.unique_hash();
                assert(cache.index[evicted] == position);
            }
        }
    }
}

/// A read through the cache keeps a cache free of handles cached twice.
pub proof fn lemma_read_through_indexes_every_slot(
    cache: CacheView,
    store: StoreView,
    handle: HandleView,
)
    requires
        cache.wf(),
        cache.indexes_every_slot(),
    ensures
        cache.read_through(store, handle).1.wf(),
        cache.read_through(store, handle).1.indexes_every_slot(),
{
    if cache.index_of(handle) is None && store.get(handle) is Some {
        lemma_insert_wf(cache, handle, store.get(handle)->0);
        lemma_insert_indexes_every_slot(cache, handle, store.get(handle)->0);
    }
}

/// An insertion changes what the cache holds for other handles only where
/// it reuses their slot: a handle cached in another slot reads as before.
pub proof fn lemma_insert_keeps_other_entries(
    cache: CacheView,
    handle: HandleView,
    payload: Seq<u8>,
    other: HandleView,
)
    requires
        cache.wf(),
        cache.indexes_every_slot(),
        other != handle,
        cache.index_of(other) is Some,
        cache.index_of(other) != Some(cache.next_slot() as usize),
    ensures
        cache.insert(handle, payload).lookup(other) == cache.lookup(other),
{
    lemma_insert_wf(cache, handle, payload);
    lemma_unique_hash_injective(handle, other);
    if cache.is_full() {
        assert(cache.order[0] < cache.slots.len());
        let evicted = cache.slots[cache.next_slot() as int].handle.unique_hash();
        assert(cache.index[evicted] == cache.next_slot());
    }
}

/// A cached handle is answered from the cache whatever the store holds, and
/// the read leaves the cache as it is.
pub proof fn lemma_cached_read_ignores_store(
    cache: CacheView,
    store: StoreView,
    handle: HandleView,
)
    requires
        cache.wf(),
        cache.index_of(handle) is Some,
    ensures
        cache.read_through(store, handle) == (cache.lookup(handle), cache),
        cache.lookup(handle) is Some,
{
}

/// Weak consistency: a handle that was cached on a store hit keeps reading
/// as the cached payload, whatever has become of the store since then, also
/// where the store has reclaimed the handle's slot for another handle.
pub proof fn lemma_cached_survives_store_churn(
    cache: CacheView,
    store: StoreView,
    later: StoreView,
    handle: HandleView,
)
    requires
        cache.wf(),
        cache.index_of(handle) is None,
        store.get(handle) is Some,
    ensures
        cache.read_through(store, handle).0 == store.get(handle),
        cache.read_through(store, handle).1.read_through(later, handle) == (
            store.get(handle),
            cache.read_through(store, handle).1,
        ),
{
    let payload = store.get(handle)->0;
    lemma_insert_then_lookup(cache, handle, payload);
}

/// A handle that neither the cache nor the store knows reads as absent, and
/// is not cached.
pub proof fn lemma_miss_is_not_cached(cache: CacheView, store: StoreView, handle: HandleView)
    requires
        cache.index_of(handle) is None,
        store.get(handle) is None,
    ensures
        cache.read_through(store, handle) == (None::<Seq<u8>>, cache),
{
}

/// The cache after the insertions of `payloads` under `handles`, first
/// entry first.
pub open spec fn after_inserts(cache: CacheView, handles: Seq<HandleView>, payloads: Seq<Seq<u8>>)
    -> CacheView
    decreases handles.len(),
{
    if handles.len() == 0 || payloads.len() == 0 {
        cache
    } else {
        after_inserts(cache, handles.drop_last(), payloads.drop_last()).insert(
            handles.last(),
            payloads.last(),
        )
    }
}

/// `handle` is cached in slot `position`, with `payload`, and in no other
/// slot; and the slot has `left` insertions to go before it is reused.
pub open spec fn cached_alone(
    cache: CacheView,
    handle: HandleView,
    payload: Seq<u8>,
    position: u32,
    left: int,
) -> bool {
    &&& cache.wf()
    &&& cache.index_of(handle) == Some(position as usize)
    &&& cache.slots[position as int] == (SlotView { handle, payload })
    &&& forall|i: int|
        0 <= i < cache.slots.len() && i != position ==> (#[trigger] cache.slots[i]).handle
            != handle
    &&& 0 <= left
    &&& cache.capacity - cache.slots.len() + cache.order.index_of(position) == left
}

/// An insertion under another handle, into a cache where `handle` has
/// insertions to go, leaves `handle` cached as it was, with one insertion
/// less to go.
pub proof fn lemma_insert_counts_down(
    cache: CacheView,
    handle: HandleView,
    payload: Seq<u8>,
    position: u32,
    left: int,
    other: HandleView,
    other_payload: Seq<u8>,
)
    requires
        cached_alone(cache, handle, payload, position, left),
        left > 0,
        other != handle,
    ensures
        cached_alone(cache.insert(other, other_payload), handle, payload, position, left - 1),
{
    lemma_insert_wf(cache, other, other_payload);
    lemma_unique_hash_injective(handle, other);
    let after = cache.insert(other, other_payload);
    let at = cache.order.index_of(position);
    assert(0 <= at < cache.order.len() && cache.order[at] == position) by {
        lemma_distinct_bounded_full(cache.order, cache.slots.len());
        assert(holds_position(cache.order, position as int));
    }
    if cache.is_full() {
        assert(cache.order[0] < cache.slots.len());
        assert(at > 0);
        assert(cache.order[0] != position);
        let reused = cache.next_slot();
        lemma_unique_hash_injective(handle, cache.slots[reused as int].handle);
        assert(after.order[at - 1] == position);
        assert(after.order[after.order.index_of(position)] == position);
    } else {
        assert(after.order[at] == position);
        assert(after.order[after.order.index_of(position)] == position);
    }
    assert forall|i: int|
        0 <= i < after.slots.len() && i != position implies (#[trigger] after.slots[i]).handle
        != handle by {
        if i != cache.next_slot() {
            assert(after.slots[i] == cache.slots[i]);
        }
    }
}

/// What was cached on a miss stays cached through `capacity - 1` further
/// insertions under other handles: the cache gives up its entries in the
/// order in which they were inserted.
pub proof fn lemma_cached_until_reclaimed(
    cache: CacheView,
    handle: HandleView,
    payload: Seq<u8>,
    handles: Seq<HandleView>,
    payloads: Seq<Seq<u8>>,
)
    requires
        cache.wf(),
        cache.indexes_every_slot(),
        cache.index_of(handle) is None,
        handles.len() == payloads.len(),
        handles.len() < cache.capacity,
        forall|i: int| 0 <= i < handles.len() ==> (#[trigger] handles[i]) != handle,
    ensures
        cached_alone(
            after_inserts(cache.insert(handle, payload), handles, payloads),
            handle,
            payload,
            cache.next_slot(),
            cache.capacity - 1 - handles.len(),
        ),
        after_inserts(cache.insert(handle, payload), handles, payloads).lookup(handle) == Some(
            payload,
        ),
    decreases handles.len(),
{
    let inserted = cache.insert(handle, payload);
    let position = cache.next_slot();
    if handles.len() == 0 {
        lemma_insert_wf(cache, handle, payload);
        lemma_insert_then_lookup(cache, handle, payload);
        if cache.is_full() {
            assert(cache.order[0] < cache.slots.len());
        }
        let last = inserted.order.len() - 1;
        assert(inserted.order[last] == position);
        assert(inserted.order[inserted.order.index_of(position)] == position);
        assert forall|i: int| 0 <= i < inserted.slots.len() && i != position implies {
            (#[trigger] inserted.slots[i]).handle != handle
        } by {
            assert(inserted.slots[i] == cache.slots[i]);
            assert(cache.index.contains_key(cache.slots[i].handle.unique_hash()));
            lemma_unique_hash_injective(handle, cache.slots[i].handle);
        }
    } else {
        let front_handles = handles.drop_last();
        let front_payloads = payloads.drop_last();
        assert forall|i: int| 0 <= i < front_handles.len() implies (#[trigger] front_handles[i])
            != handle by {
            assert(front_handles[i] == handles[i]);
        }
        lemma_cached_until_reclaimed(cache, handle, payload, front_handles, front_payloads);
        assert(handles.last() == handles[handles.len() - 1]);
        lemma_insert_counts_down(
            after_inserts(inserted, front_handles, front_payloads),
            handle,
            payload,
            position,
            cache.capacity - handles.len(),
            handles.last(),
            payloads.last(),
        );
    }
}

} // verus!
