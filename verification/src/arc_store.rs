//! The primary store with shared payloads: the same arena as `DB`, but a
//! read hands out a counted reference to the payload, which the reader may
//! keep after it has let go of the store.

use vstd::prelude::*;
use std::sync::Arc;
use crate::accounting::{saturated, saturating_product};
use crate::eviction_list::{DBLItem, DBL};
use crate::handle::{generation_at, GenerationCounter, Handle};
use crate::storage::Storage;
use crate::store::{
    lemma_write_stamped,
    lemma_write_stamped_before,
    lemma_write_wf,
    payload_bytes,
    SlotView,
    StoreView,
};

verus! {

/// One slot of the arena. The payload is shared with whoever read it.
pub struct ArcItem {
    pub handle: Handle<Storage>,
    pub data: Arc<Storage>,
}

impl View for ArcItem {
    type V = SlotView;

    open spec fn view(&self) -> SlotView {
        SlotView { handle: self.handle@, payload: self.data@ }
    }
}

/// The primary store with shared payloads.
pub struct ArcDB {
    data: Vec<ArcItem>,
    lru: DBL,
    capacity: usize,
}

impl View for ArcDB {
    type V = StoreView;

    closed spec fn view(&self) -> StoreView {
        StoreView {
            capacity: self.capacity as nat,
            slots: Seq::new(self.data@.len(), |i: int| self.data@[i]@),
            order: self.lru@,
        }
    }
}

impl ArcDB {
    /// The store is in one of the states of `StoreView::wf`, and its eviction
    /// list is well formed and as large as the arena.
    pub closed spec fn wf(&self) -> bool {
        &&& self@.wf()
        &&& self.lru.wf()
        &&& self.lru.capacity() == self.capacity
    }

    /// What `wf` says of the view.
    pub proof fn lemma_wf_view(&self)
        requires
            self.wf(),
        ensures
            self@.wf(),
    {
    }

    /// An empty store with `capacity` slots.
    pub fn new(capacity: usize) -> (db: Self)
        requires
            0 < capacity <= u32::MAX,
        ensures
            db.wf(),
            db@ == StoreView::empty(capacity as nat),
    {
        let db = ArcDB { data: Vec::with_capacity(capacity), lru: DBL::new(capacity), capacity };
        assert(db@.slots =~= Seq::empty());
        db
    }

    /// Looks `handle` up and hands out a reference to the payload that the
    /// store itself holds: no bytes are copied. A handle whose slot was never
    /// used, or was reused since the handle was issued, finds nothing.
    pub fn get(&self, handle: Handle<Storage>) -> (found: Option<Arc<Storage>>)
        ensures
            match found {
                Some(storage) => self@.get(handle@) == Some(storage@),
                None => self@.get(handle@) is None,
            },
    {
        let index = handle.index();
        if index >= self.data.len() {
            return None;
        }
        let item = &self.data[index];
        if item.handle.unique_id() != handle.unique_id() {
            return None;
        }
        Some(item.data.clone())
    }

    /// Stores a copy of `data` and returns the handle that now owns it.
    ///
    /// While unused slots remain the next one is taken; after that the slot
    /// written longest ago is reclaimed, and the handle that owned it goes
    /// stale. A reader that still holds the old payload keeps it. The
    /// counter is the one that the store's earlier writes drew from, or one
    /// that is ahead of it.
    pub fn write(&mut self, data: &Storage, counter: &mut GenerationCounter) -> (handle: Handle<Storage>)
        requires
            old(self).wf(),
            old(self)@.stamped_before(old(counter)@),
        ensures
            final(self).wf(),
            handle@ == old(self)@.next_handle(generation_at(old(counter)@)),
            final(self)@ == old(self)@.write(data@, generation_at(old(counter)@)),
            final(counter)@ == old(counter)@ + 1,
            final(self)@.stamped_before(final(counter)@),
            old(self)@.stamped_by(old(counter)@) ==> final(self)@.stamped_by(final(counter)@),
    {
        let ghost before = self@;
        let index: u32 = if self.data.len() >= self.capacity {
            self.lru.pop().unwrap()
        } else {
            let index = self.data.len() as u32;
            self.data.push(ArcItem { handle: Handle::invalid(), data: Arc::new(Storage::new(0)) });
            index
        };
        assert(index == before.next_slot());
        assert(!self.lru@.contains(index)) by {
            if before.is_full() {
                assert forall|i: int| 0 <= i < self.lru@.len() implies self.lru@[i] != index by {
                    assert(self.lru@[i] == before.order[i + 1]);
                }
            }
        }
        let handle = Handle::new(index, counter);
        self.data[index as usize].handle = handle;
        self.data[index as usize].data = Arc::new(data.clone());
        self.lru.push(index);
        proof {
            let after = before.write(data@, handle@.generation);
            assert(self@.slots =~= after.slots);
            assert(self@.order =~= after.order);
            lemma_write_wf(before, data@, handle@.generation);
            lemma_write_stamped_before(before, data@, old(counter)@);
            if before.stamped_by(old(counter)@) {
                lemma_write_stamped(before, data@, old(counter)@);
            }
        }
        handle
    }

    /// The bytes held: every payload once, however many readers share it,
    /// one link entry for each slot of the arena, and one `ArcItem` for each
    /// occupied slot. A total beyond `usize::MAX` is reported as
    /// `usize::MAX`.
    pub fn memory_usage(&self) -> (bytes: usize)
        ensures
            bytes == saturated(
                self@.memory_usage(
                    vstd::layout::size_of::<ArcItem>(),
                    vstd::layout::size_of::<DBLItem>(),
                ),
            ),
    {
        let mut sz: usize = 0;
        let mut i: usize = 0;
        while i < self.data.len()
            invariant
                i <= self.data@.len(),
                sz == saturated(payload_bytes(self@.slots.take(i as int))),
            decreases self.data@.len() - i,
        {
            assert(self@.slots.take(i + 1).drop_last() =~= self@.slots.take(i as int));
            sz = sz.saturating_add(self.data[i].data.len());
            i = i + 1;
        }
        assert(self@.slots.take(i as int) =~= self@.slots);
        let links = saturating_product(self.capacity, core::mem::size_of::<DBLItem>());
        let slots = saturating_product(self.data.len(), core::mem::size_of::<ArcItem>());
        sz.saturating_add(links).saturating_add(slots)
    }
}

} // verus!
