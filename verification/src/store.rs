//! The primary store: a fixed-capacity arena of slots. Each slot holds one
//! payload and the handle that currently owns it; once the arena is full, a
//! write reclaims the slot that was written longest ago.

use vstd::prelude::*;
use crate::accounting::{saturated, saturating_product};
use crate::eviction_list::{holds_position, lemma_distinct_bounded_full, DBLItem, DBL};
use crate::handle::{
    generation_at,
    generation_space,
    issued_before,
    lemma_generations_distinct,
    GenerationCounter,
    Handle,
    HandleView,
};
use crate::storage::Storage;

verus! {

/// One occupied slot, as plain values.
pub struct SlotView {
    pub handle: HandleView,
    pub payload: Seq<u8>,
}

/// The state of a store, as plain values: its capacity, its occupied slots by
/// position, and the order in which they will be reclaimed (first entry
/// first).
pub struct StoreView {
    pub capacity: nat,
    pub slots: Seq<SlotView>,
    pub order: Seq<u32>,
}

/// The sum of the payload lengths of `slots`.
pub open spec fn payload_bytes(slots: Seq<SlotView>) -> nat
    decreases slots.len(),
{
    if slots.len() == 0 {
        0
    } else {
        payload_bytes(slots.drop_last()) + slots.last().payload.len()
    }
}

impl StoreView {
    /// A store that nothing was written to.
    pub open spec fn empty(capacity: nat) -> StoreView {
        StoreView { capacity, slots: Seq::empty(), order: Seq::empty() }
    }

    /// The states that a store can be in: slots fill up from position zero,
    /// each slot's handle names the slot's own position, and the reclaim
    /// order holds every occupied position exactly once.
    pub open spec fn wf(self) -> bool {
        &&& 0 < self.capacity <= u32::MAX
        &&& self.slots.len() <= self.capacity
        &&& self.order.len() == self.slots.len()
        &&& self.order.no_duplicates()
        &&& forall|i: int|
            0 <= i < self.order.len() ==> (#[trigger] self.order[i]) < self.slots.len()
        &&& forall|i: int|
            0 <= i < self.slots.len() ==> (#[trigger] self.slots[i]).handle.index == i
    }

    pub open spec fn is_full(self) -> bool {
        self.slots.len() >= self.capacity
    }

    /// The slot that the next write goes to: the first unused position, or,
    /// when all are used, the slot that was written longest ago.
    pub open spec fn next_slot(self) -> u32 {
        if self.is_full() {
            self.order[0]
        } else {
            self.slots.len() as u32
        }
    }

    /// The handle that the next write returns, given the generation id that
    /// it draws.
    pub open spec fn next_handle(self, generation: u32) -> HandleView {
        HandleView { index: self.next_slot(), generation }
    }

    /// The store after a write of `payload` that drew `generation`.
    pub open spec fn write(self, payload: Seq<u8>, generation: u32) -> StoreView {
        let index = self.next_slot();
        let slot = SlotView { handle: self.next_handle(generation), payload };
        if self.is_full() {
            StoreView {
                capacity: self.capacity,
                slots: self.slots.update(index as int, slot),
                order: self.order.drop_first().push(index),
            }
        } else {
            StoreView {
                capacity: self.capacity,
                slots: self.slots.push(slot),
                order: self.order.push(index),
            }
        }
    }

    /// What a read of `handle` returns: the payload of the slot it names, if
    /// that slot is in use and still carries the handle's generation.
    pub open spec fn get(self, handle: HandleView) -> Option<Seq<u8>> {
        if handle.index < self.slots.len() && self.slots[handle.index as int].handle.generation
            == handle.generation {
            Some(self.slots[handle.index as int].payload)
        } else {
            None
        }
    }

    /// Every resident generation id is one that a counter hands out before
    /// its `issued`-th issuance: the counter is not behind the store. This
    /// is what ties a store to the counter that its writes draw from, also
    /// where other stores draw from the same counter in between.
    pub open spec fn stamped_before(self, issued: nat) -> bool {
        forall|i: int|
            0 <= i < self.slots.len() ==> issued_before(
                (#[trigger] self.slots[i]).handle.generation,
                issued,
            )
    }

    /// Every write to the store drew its generation id from one counter,
    /// which has issued `issued` ids by now and has served this store alone
    /// since the oldest resident payload was written: the slot that is `k`
    /// places from the end of the reclaim order was written `k + 1`
    /// issuances ago.
    pub open spec fn stamped_by(self, issued: nat) -> bool {
        &&& issued >= self.order.len()
        &&& forall|p: int|
            0 <= p < self.order.len() ==> self.slots[(#[trigger] self.order[p]) as int].handle.generation
                == generation_at((issued - (self.order.len() - p)) as nat)
    }

    /// Payload bytes, plus `link_bytes` for each link entry of the eviction
    /// list, plus `slot_bytes` for each occupied slot.
    pub open spec fn memory_usage(self, slot_bytes: nat, link_bytes: nat) -> nat {
        payload_bytes(self.slots) + self.capacity * link_bytes + self.slots.len() * slot_bytes
    }
}

/// One slot of the arena.
pub struct Item {
    pub handle: Handle<Storage>,
    pub data: Storage,
}

impl View for Item {
    type V = SlotView;

    open spec fn view(&self) -> SlotView {
        SlotView { handle: self.handle@, payload: self.data@ }
    }
}

/// The primary store.
pub struct DB {
    data: Vec<Item>,
    lru: DBL,
    capacity: usize,
}

impl View for DB {
    type V = StoreView;

    closed spec fn view(&self) -> StoreView {
        StoreView {
            capacity: self.capacity as nat,
            slots: Seq::new(self.data@.len(), |i: int| self.data@[i]@),
            order: self.lru@,
        }
    }
}

impl DB {
    /// The store is in one of the states of `StoreView::wf`, and its eviction
    /// list is well formed and as large as the arena.
    pub closed spec fn wf(&self) -> bool {
        &&& self@.wf()
        &&& self.lru.wf()
        &&& self.lru.capacity() == self.capacity
    }

    /// What `wf` says of the view.
    pub proof fn lemma_wf_view(&self)
        requires
            self.wf(),
        ensures
            self@.wf(),
    {
    }

    /// An empty store with `capacity` slots.
    pub fn new(capacity: usize) -> (db: Self)
        requires
            0 < capacity <= u32::MAX,
        ensures
            db.wf(),
            db@ == StoreView::empty(capacity as nat),
    {
        let db = DB { data: Vec::with_capacity(capacity), lru: DBL::new(capacity), capacity };
        assert(db@.slots =~= Seq::empty());
        db
    }

    /// Looks `handle` up. A handle whose slot was never used, or was reused
    /// since the handle was issued, finds nothing. Reading does not change
    /// the order in which slots are reclaimed.
    pub fn get(&self, handle: Handle<Storage>) -> (found: Option<&Storage>)
        ensures
            match found {
                Some(storage) => self@.get(handle@) == Some(storage@),
                None => self@.get(handle@) is None,
            },
    {
        let index = handle.index();
        if index >= self.data.len() {
            return None;
        }
        let item = &self.data[index];
        if item.handle.unique_id() != handle.unique_id() {
            return None;
        }
        Some(&item.data)
    }

    /// Stores a copy of `data` and returns the handle that now owns it.
    ///
    /// While unused slots remain the next one is taken; after that the slot
    /// written longest ago is reclaimed, and the handle that owned it goes
    /// stale. The handle carries the counter's next generation id.
    ///
    /// The counter is the one that the store's earlier writes drew from, or
    /// one that is ahead of it: a counter that is behind the store would
    /// hand out ids again that resident handles carry. Until the counter
    /// wraps, the handle differs from every resident handle, see
    /// `lemma_unwrapped_write_is_fresh`; a store that is kept with a counter
    /// of its own stays stamped by it, and its handles differ for good, see
    /// `lemma_stamped_write_is_fresh`.
    pub fn write(&mut self, data: &Storage, counter: &mut GenerationCounter) -> (handle: Handle<Storage>)
        requires
            old(self).wf(),
            old(self)@.stamped_before(old(counter)@),
        ensures
            final(self).wf(),
            handle@ == old(self)@.next_handle(generation_at(old(counter)@)),
            final(self)@ == old(self)@.write(data@, generation_at(old(counter)@)),
            final(counter)@ == old(counter)@ + 1,
            final(self)@.stamped_before(final(counter)@),
            old(self)@.stamped_by(old(counter)@) ==> final(self)@.stamped_by(final(counter)@),
    {
        let ghost before = self@;
        let index: u32 = if self.data.len() >= self.capacity {
            self.lru.pop().unwrap()
        } else {
            let index = self.data.len() as u32;
            self.data.push(Item { handle: Handle::invalid(), data: Storage::new(0) });
            index
        };
        assert(index == before.next_slot());
        assert(!self.lru@.contains(index)) by {
            if before.is_full() {
                assert forall|i: int| 0 <= i < self.lru@.len() implies self.lru@[i] != index by {
                    assert(self.lru@[i] == before.order[i + 1]);
                }
            }
        }
        let handle = Handle::new(index, counter);
        self.data[index as usize].handle = handle;
        self.data[index as usize].data.set(data);
        self.lru.push(index);
        proof {
            let after = before.write(data@, handle@.generation);
            assert(self@.slots =~= after.slots);
            assert(self@.order =~= after.order);
            lemma_write_wf(before, data@, handle@.generation);
            lemma_write_stamped_before(before, data@, old(counter)@);
            if before.stamped_by(old(counter)@) {
                lemma_write_stamped(before, data@, old(counter)@);
            }
        }
        handle
    }

    /// The bytes held: every payload, one link entry for each slot of the
    /// arena, and one `Item` for each occupied slot. A total beyond
    /// `usize::MAX` is reported as `usize::MAX`.
    pub fn memory_usage(&self) -> (bytes: usize)
        ensures
            bytes == saturated(
                self@.memory_usage(
                    vstd::layout::size_of::<Item>(),
                    vstd::layout::size_of::<DBLItem>(),
                ),
            ),
    {
        let mut sz: usize = 0;
        let mut i: usize = 0;
        while i < self.data.len()
            invariant
                i <= self.data@.len(),
                sz == saturated(payload_bytes(self@.slots.take(i as int))),
            decreases self.data@.len() - i,
        {
            assert(self@.slots.take(i + 1).drop_last() =~= self@.slots.take(i as int));
            sz = sz.saturating_add(self.data[i].data.len());
            i = i + 1;
        }
        assert(self@.slots.take(i as int) =~= self@.slots);
        let links = saturating_product(self.capacity, core::mem::size_of::<DBLItem>());
        let slots = saturating_product(self.data.len(), core::mem::size_of::<Item>());
        sz.saturating_add(links).saturating_add(slots)
    }
}

/// A write leaves the store in a well-formed state.
pub proof fn lemma_write_wf(store: StoreView, payload: Seq<u8>, generation: u32)
    requires
        store.wf(),
    ensures
        store.write(payload, generation).wf(),
        store.next_slot() < store.capacity,
        store.write(payload, generation).capacity == store.capacity,
{
    let after = store.write(payload, generation);
    let index = store.next_slot();
    if store.is_full() {
        let rest = store.order.drop_first();
        assert forall|i: int, j: int|
            0 <= i < after.order.len() && 0 <= j < after.order.len() && i != j implies after.order[i]
            != after.order[j] by {
            if i < rest.len() && j < rest.len() {
                assert(store.order[i + 1] != store.order[j + 1]);
            } else if i < rest.len() {
                assert(store.order[i + 1] != store.order[0]);
            } else {
                assert(store.order[j + 1] != store.order[0]);
            }
        }
        assert forall|i: int| 0 <= i < after.order.len() implies (#[trigger] after.order[i])
            < after.slots.len() by {
            if i < rest.len() {
                assert(after.order[i] == store.order[i + 1]);
            }
        }
    } else {
        assert forall|i: int, j: int|
            0 <= i < after.order.len() && 0 <= j < after.order.len() && i != j implies after.order[i]
            != after.order[j] by {
            if i < store.order.len() && j < store.order.len() {
                assert(store.order[i] != store.order[j]);
            } else if i < store.order.len() {
                assert(store.order[i] < store.slots.len());
            } else {
                assert(store.order[j] < store.slots.len());
            }
        }
        assert forall|i: int| 0 <= i < after.order.len() implies (#[trigger] after.order[i])
            < after.slots.len() by {
            if i < store.order.len() {
                assert(after.order[i] == store.order[i]);
            }
        }
    }
}

/// A read of the handle that a write returned finds the payload that was
/// written.
pub proof fn lemma_round_trip(store: StoreView, payload: Seq<u8>, generation: u32)
    requires
        store.wf(),
    ensures
        store.write(payload, generation).get(store.next_handle(generation)) == Some(payload),
{
    lemma_write_wf(store, payload, generation);
    if store.is_full() {
        assert(store.order[0] < store.slots.len());
    }
}

/// A read that finds something finds the slot that the handle owns: the
/// handle stored there is the handle that was asked for.
pub proof fn lemma_get_owner(store: StoreView, handle: HandleView)
    requires
        store.wf(),
        store.get(handle) is Some,
    ensures
        store.slots[handle.index as int].handle == handle,
        store.get(handle) == Some(store.slots[handle.index as int].payload),
{
    assert(store.slots[handle.index as int].handle.index == handle.index);
}

/// Two writes never return equal handles, whatever stores they go to and
/// whatever slots they use, as long as the counter has issued fewer than
/// `generation_space()` ids from the first of them to the second.
pub proof fn lemma_write_handles_distinct(
    first: StoreView,
    second: StoreView,
    issued_first: nat,
    issued_second: nat,
)
    requires
        issued_first < issued_second,
        issued_second - issued_first < generation_space(),
    ensures
        first.next_handle(generation_at(issued_first)) != second.next_handle(
            generation_at(issued_second),
        ),
{
    lemma_generations_distinct(issued_first, issued_second);
}

/// A write leaves every slot but the one it goes to as it was: handles of
/// other slots read as before.
pub proof fn lemma_write_keeps_other_slots(
    store: StoreView,
    payload: Seq<u8>,
    generation: u32,
    handle: HandleView,
)
    requires
        store.wf(),
        handle.index != store.next_slot(),
    ensures
        store.write(payload, generation).get(handle) == store.get(handle),
{
    if store.is_full() {
        assert(store.order[0] < store.slots.len());
    }
}

/// Once a write has reused a slot, the handle that owned the slot before
/// reads as absent; it never reads the new payload.
pub proof fn lemma_stale_after_reuse(
    store: StoreView,
    payload: Seq<u8>,
    stale: HandleView,
    issued_stale: nat,
    issued_now: nat,
)
    requires
        store.wf(),
        stale.index == store.next_slot(),
        stale.generation == generation_at(issued_stale),
        issued_stale < issued_now,
        issued_now - issued_stale < generation_space(),
    ensures
        store.write(payload, generation_at(issued_now)).get(stale) is None,
{
    lemma_generations_distinct(issued_stale, issued_now);
    if store.is_full() {
        assert(store.order[0] < store.slots.len());
    }
}

/// The reserved "no handle" value is never found.
pub proof fn lemma_invalid_handle_absent(store: StoreView)
    requires
        store.wf(),
    ensures
        store.get(HandleView::invalid()) is None,
{
}

/// The reclaim order of a well-formed store holds exactly the occupied
/// slots: every occupied slot is in it, once, and nothing else is.
pub proof fn lemma_order_holds_occupied_slots(store: StoreView)
    requires
        store.wf(),
    ensures
        store.order.no_duplicates(),
        forall|position: int|
            holds_position(store.order, position) <==> 0 <= position < store.slots.len(),
{
    lemma_distinct_bounded_full(store.order, store.slots.len());
    assert forall|position: int| holds_position(store.order, position) implies 0 <= position
        < store.slots.len() by {
        let i = choose|i: int| 0 <= i < store.order.len() && store.order[i] == position;
        assert(store.order[i] < store.slots.len());
    }
}

/// The store after the writes of `payloads`, first entry first; the write of
/// `payloads[i]` draws `generations[i]`.
pub open spec fn after_writes(store: StoreView, payloads: Seq<Seq<u8>>, generations: Seq<u32>)
    -> StoreView
    decreases payloads.len(),
{
    if payloads.len() == 0 || generations.len() == 0 {
        store
    } else {
        after_writes(store, payloads.drop_last(), generations.drop_last()).write(
            payloads.last(),
            generations.last(),
        )
    }
}

/// How many writes an occupied slot is still safe from: the writes that it
/// takes to fill the arena, and then one for each slot that is ahead of it
/// in the reclaim order.
pub open spec fn writes_until_reclaimed(store: StoreView, slot: u32) -> int {
    store.capacity - store.slots.len() + store.order.index_of(slot)
}

/// The slot that was written last has `capacity - 1` writes to go.
pub proof fn lemma_written_slot_lasts(store: StoreView, payload: Seq<u8>, generation: u32)
    requires
        store.wf(),
    ensures
        writes_until_reclaimed(store.write(payload, generation), store.next_slot())
            == store.capacity - 1,
{
    lemma_write_wf(store, payload, generation);
    let after = store.write(payload, generation);
    let last = after.order.len() - 1;
    assert(after.order[last] == store.next_slot());
    assert(after.order[after.order.index_of(store.next_slot())] == store.next_slot());
}

/// A write goes to the slot that has no writes to go, and to no other: it
/// leaves every other occupied slot as it is, with one write less to go.
pub proof fn lemma_write_counts_down(
    store: StoreView,
    payload: Seq<u8>,
    generation: u32,
    slot: u32,
)
    requires
        store.wf(),
        slot < store.slots.len(),
    ensures
        0 <= writes_until_reclaimed(store, slot) < store.capacity,
        writes_until_reclaimed(store, slot) == 0 <==> store.next_slot() == slot,
        store.next_slot() != slot ==> {
            &&& store.write(payload, generation).slots[slot as int] == store.slots[slot as int]
            &&& writes_until_reclaimed(store.write(payload, generation), slot)
                == writes_until_reclaimed(store, slot) - 1
        },
{
    lemma_write_wf(store, payload, generation);
    lemma_order_holds_occupied_slots(store);
    let after = store.write(payload, generation);
    assert(holds_position(store.order, slot as int));
    let at = store.order.index_of(slot);
    assert(0 <= at < store.order.len() && store.order[at] == slot);
    if store.next_slot() != slot {
        if store.is_full() {
            assert(store.order[0] != slot);
            assert(after.order[at - 1] == slot);
            assert(after.order[after.order.index_of(slot)] == slot);
        } else {
            assert(after.order[at] == slot);
            assert(after.order[after.order.index_of(slot)] == slot);
        }
    } else {
        if store.is_full() {
            assert(store.order[0] == slot);
        }
    }
}

/// What was written stays readable through `capacity - 1` further writes,
/// whatever they write to whichever slots; and the write after those goes
/// to its slot. Slots are reclaimed in the order in which they were written.
pub proof fn lemma_survives_until_reclaimed(
    store: StoreView,
    payload: Seq<u8>,
    generation: u32,
    payloads: Seq<Seq<u8>>,
    generations: Seq<u32>,
)
    requires
        store.wf(),
        payloads.len() == generations.len(),
        payloads.len() < store.capacity,
    ensures
        after_writes(store.write(payload, generation), payloads, generations).wf(),
        after_writes(store.write(payload, generation), payloads, generations).get(
            store.next_handle(generation),
        ) == Some(payload),
        writes_until_reclaimed(
            after_writes(store.write(payload, generation), payloads, generations),
            store.next_slot(),
        ) == store.capacity - 1 - payloads.len(),
        payloads.len() == store.capacity - 1 ==> after_writes(
            store.write(payload, generation),
            payloads,
            generations,
        ).next_slot() == store.next_slot(),
    decreases payloads.len(),
{
    let written = store.write(payload, generation);
    let slot = store.next_slot();
    lemma_write_wf(store, payload, generation);
    if payloads.len() == 0 {
        lemma_round_trip(store, payload, generation);
        lemma_written_slot_lasts(store, payload, generation);
    } else {
        lemma_survives_until_reclaimed(
            store,
            payload,
            generation,
            payloads.drop_last(),
            generations.drop_last(),
        );
        let earlier = after_writes(written, payloads.drop_last(), generations.drop_last());
        assert(earlier.get(store.next_handle(generation)) is Some);
        lemma_write_wf(earlier, payloads.last(), generations.last());
        lemma_write_counts_down(earlier, payloads.last(), generations.last(), slot);
    }
    let now = after_writes(written, payloads, generations);
    lemma_write_counts_down(now, payload, generation, slot);
}

/// A write that draws the counter's next id keeps a store stamped by the
/// counter.
pub proof fn lemma_write_stamped(store: StoreView, payload: Seq<u8>, issued: nat)
    requires
        store.wf(),
        store.stamped_by(issued),
    ensures
        store.write(payload, generation_at(issued)).stamped_by(issued + 1),
{
    let after = store.write(payload, generation_at(issued));
    lemma_write_wf(store, payload, generation_at(issued));
    if store.is_full() {
        assert(store.order[0] < store.slots.len());
    }
    assert forall|p: int| 0 <= p < after.order.len() implies after.slots[(
    #[trigger] after.order[p]) as int].handle.generation == generation_at(
        (issued + 1 - (after.order.len() - p)) as nat,
    ) by {
        if p < after.order.len() - 1 {
            if store.is_full() {
                assert(after.order[p] == store.order[p + 1]);
                assert(store.order[p + 1] != store.order[0]);
            } else {
                assert(after.order[p] == store.order[p]);
                assert(store.order[p] < store.slots.len());
            }
        }
    }
}

/// In a store that is stamped by its counter, every resident handle was
/// issued fewer than `generation_space()` issuances ago, and the handle of
/// the next write is equal to none of them.
pub proof fn lemma_stamped_write_is_fresh(store: StoreView, issued: nat, slot: int)
    requires
        store.wf(),
        store.stamped_by(issued),
        0 <= slot < store.slots.len(),
    ensures
        exists|earlier: nat|
            earlier < issued && issued - earlier < generation_space()
                && store.slots[slot].handle.generation == #[trigger] generation_at(earlier),
        store.slots[slot].handle != store.next_handle(generation_at(issued)),
{
    lemma_order_holds_occupied_slots(store);
    assert(holds_position(store.order, slot));
    let p = choose|p: int| 0 <= p < store.order.len() && store.order[p] == slot;
    let earlier = (issued - (store.order.len() - p)) as nat;
    assert(store.slots[store.order[p] as int].handle.generation == generation_at(earlier));
    lemma_generations_distinct(earlier, issued);
}

/// In a store that is stamped by its counter, the handle that owned a slot
/// reads as absent once a write has reused the slot: it never reads the new
/// payload.
pub proof fn lemma_stamped_write_stales_owner(store: StoreView, payload: Seq<u8>, issued: nat)
    requires
        store.wf(),
        store.stamped_by(issued),
        store.is_full(),
    ensures
        store.write(payload, generation_at(issued)).get(
            store.slots[store.next_slot() as int].handle,
        ) is None,
{
    assert(store.order[0] < store.slots.len());
    lemma_stamped_write_is_fresh(store, issued, store.next_slot() as int);
}

/// A write that draws the counter's next id leaves the counter ahead of the
/// store.
pub proof fn lemma_write_stamped_before(store: StoreView, payload: Seq<u8>, issued: nat)
    requires
        store.wf(),
        store.stamped_before(issued),
    ensures
        store.write(payload, generation_at(issued)).stamped_before(issued + 1),
{
    let after = store.write(payload, generation_at(issued));
    lemma_write_wf(store, payload, generation_at(issued));
    if store.is_full() {
        assert(store.order[0] < store.slots.len());
    }
    assert forall|i: int| 0 <= i < after.slots.len() implies issued_before(
        (#[trigger] after.slots[i]).handle.generation,
        issued + 1,
    ) by {
        if i == store.next_slot() {
            assert(after.slots[i].handle.generation == generation_at(issued));
        } else {
            assert(after.slots[i] == store.slots[i]);
            let earlier = choose|earlier: nat|
                earlier < issued && store.slots[i].handle.generation == #[trigger] generation_at(
                    earlier,
                );
            assert(after.slots[i].handle.generation == generation_at(earlier));
        }
    }
}

/// A counter that is ahead of a store is ahead of it after further
/// issuances, whoever they were for.
pub proof fn lemma_stamped_before_later(store: StoreView, issued: nat, later: nat)
    requires
        store.stamped_before(issued),
        issued <= later,
    ensures
        store.stamped_before(later),
{
    assert forall|i: int| 0 <= i < store.slots.len() implies issued_before(
        (#[trigger] store.slots[i]).handle.generation,
        later,
    ) by {
        let earlier = choose|earlier: nat|
            earlier < issued && store.slots[i].handle.generation == #[trigger] generation_at(
                earlier,
            );
        assert(store.slots[i].handle.generation == generation_at(earlier));
    }
}

/// A counter that stamped a store is ahead of it.
pub proof fn lemma_stamped_by_is_before(store: StoreView, issued: nat)
    requires
        store.wf(),
        store.stamped_by(issued),
    ensures
        store.stamped_before(issued),
{
    assert forall|i: int| 0 <= i < store.slots.len() implies issued_before(
        (#[trigger] store.slots[i]).handle.generation,
        issued,
    ) by {
        lemma_stamped_write_is_fresh(store, issued, i);
    }
}

/// Until the counter wraps, the handle of the next write is equal to no
/// resident handle, and the handle that owned the slot that the write
/// reuses reads as absent afterwards.
pub proof fn lemma_unwrapped_write_is_fresh(store: StoreView, payload: Seq<u8>, issued: nat)
    requires
        store.wf(),
        store.stamped_before(issued),
        issued < generation_space(),
    ensures
        forall|i: int|
            0 <= i < store.slots.len() ==> (#[trigger] store.slots[i]).handle != store.next_handle(
                generation_at(issued),
            ),
        store.is_full() ==> store.write(payload, generation_at(issued)).get(
            store.slots[store.next_slot() as int].handle,
        ) is None,
{
    assert forall|i: int| 0 <= i < store.slots.len() implies (#[trigger] store.slots[i]).handle
        != store.next_handle(generation_at(issued)) by {
        let earlier = choose|earlier: nat|
            earlier < issued && store.slots[i].handle.generation == #[trigger] generation_at(
                earlier,
            );
        lemma_generations_distinct(earlier, issued);
    }
    if store.is_full() {
        assert(store.order[0] < store.slots.len());
        let reused = store.next_slot() as int;
        assert(store.slots[reused].handle != store.next_handle(generation_at(issued)));
    }
}

} // verus!
