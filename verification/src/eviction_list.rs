//! The eviction list: a doubly linked list threaded through a fixed array of
//! link entries, one entry per slot index.
//!
//! Indices enter at the head and leave at the tail, so the list hands slots
//! back in the order in which they were inserted. Reading a slot never moves
//! it: the policy is first-in, first-out, not least-recently-used.

use vstd::prelude::*;
use vstd::set_lib::{lemma_int_range, lemma_len_subset, lemma_subset_equality, set_int_range};

verus! {

/// The list `order` after a push of `index`: the index joins at the head,
/// unless the list has no entry for it.
pub open spec fn pushed(order: Seq<u32>, capacity: nat, index: u32) -> Seq<u32> {
    if index < capacity {
        order.push(index)
    } else {
        order
    }
}

/// What a pop of the list `order` returns: the index at the tail.
pub open spec fn popped(order: Seq<u32>) -> Option<u32> {
    if order.len() == 0 {
        None
    } else {
        Some(order[0])
    }
}

/// The list `order` after a pop.
pub open spec fn after_pop(order: Seq<u32>) -> Seq<u32> {
    if order.len() == 0 {
        order
    } else {
        order.drop_first()
    }
}

/// The list `order` after the pushes of `indices`, first entry first.
pub open spec fn pushed_all(order: Seq<u32>, capacity: nat, indices: Seq<u32>) -> Seq<u32>
    decreases indices.len(),
{
    if indices.len() == 0 {
        order
    } else {
        pushed(pushed_all(order, capacity, indices.drop_last()), capacity, indices.last())
    }
}

/// The list `order` after `count` pops.
pub open spec fn after_pops(order: Seq<u32>, count: nat) -> Seq<u32>
    decreases count,
{
    if count == 0 {
        order
    } else {
        after_pop(after_pops(order, (count - 1) as nat))
    }
}

/// Whether the list `order` holds the index `position`.
pub open spec fn holds_position(order: Seq<u32>, position: int) -> bool {
    exists|i: int| 0 <= i < order.len() && #[trigger] order[i] == position
}

/// The links of one slot index. `next` leads towards the tail (older
/// entries), `prec` towards the head (newer entries); `None` is "no link".
#[derive(Clone, Copy)]
pub struct DBLItem {
    next: Option<u32>,
    prec: Option<u32>,
}

/// The eviction list.
///
/// Its view is the sequence of the indices it holds, from the tail (the next
/// one to leave) to the head (the one inserted last).
pub struct DBL {
    first: Option<u32>,
    last: Option<u32>,
    items: Vec<DBLItem>,
    order: Ghost<Seq<u32>>,
}

impl View for DBL {
    type V = Seq<u32>;

    closed spec fn view(&self) -> Seq<u32> {
        self.order@
    }
}

impl DBL {
    /// The number of link entries: indices below it can be held.
    pub closed spec fn capacity(&self) -> nat {
        self.items@.len()
    }

    /// The links spell out the view: the anchors name its two ends, every
    /// held index is linked to its two neighbours, no index is held twice,
    /// and the entries of indices that are not held carry no link.
    pub closed spec fn wf(&self) -> bool {
        let order = self.order@;
        let items = self.items@;
        &&& order.no_duplicates()
        &&& forall|i: int| 0 <= i < order.len() ==> (#[trigger] order[i]) < items.len()
        &&& self.last == (if order.len() == 0 {
            None
        } else {
            Some(order[0])
        })
        &&& self.first == (if order.len() == 0 {
            None
        } else {
            Some(order[order.len() - 1])
        })
        &&& forall|i: int|
            0 <= i < order.len() ==> items[(#[trigger] order[i]) as int].next == (if i == 0 {
                None
            } else {
                Some(order[i - 1])
            })
        &&& forall|i: int|
            0 <= i < order.len() ==> items[(#[trigger] order[i]) as int].prec == (if i
                == order.len() - 1 {
                None
            } else {
                Some(order[i + 1])
            })
        &&& forall|j: int|
            0 <= j < items.len() && !holds_position(order, j) ==> (#[trigger] items[j])
                == (DBLItem { next: None, prec: None })
    }

    /// An empty list with room for the indices `0..capacity`.
    pub fn new(capacity: usize) -> (list: Self)
        ensures
            list.wf(),
            list@ == Seq::<u32>::empty(),
            list.capacity() == capacity,
    {
        let mut items: Vec<DBLItem> = Vec::with_capacity(capacity);
        items.resize(capacity, DBLItem { next: None, prec: None });
        DBL { first: None, last: None, items, order: Ghost(Seq::empty()) }
    }

    /// Inserts `index` at the head.
    ///
    /// An index at or beyond the capacity is ignored. The list does not look
    /// for `index` among its entries: the caller sees to it that an index is
    /// not inserted while it is still held.
    pub fn push(&mut self, index: u32)
        requires
            old(self).wf(),
            index < old(self).capacity() ==> !old(self)@.contains(index),
        ensures
            final(self).wf(),
            final(self).capacity() == old(self).capacity(),
            final(self)@ == pushed(old(self)@, old(self).capacity(), index),
    {
        let idx = index as usize;
        if idx >= self.items.len() {
            return ;
        }
        let ghost before = self.order@;
        match self.first {
            None => {
                self.first = Some(index);
                self.last = Some(index);
                self.items[idx] = DBLItem { next: None, prec: None };
            },
            Some(head) => {
                assert(head == before[before.len() - 1]);
                assert(head != index);
                self.items[idx].next = Some(head);
                self.items[idx].prec = None;
                self.items[head as usize].prec = Some(index);
                self.first = Some(index);
            },
        }
        self.order = Ghost(before.push(index));
        proof {
            let after = self.order@;
            assert forall|i: int, j: int|
                0 <= i < after.len() && 0 <= j < after.len() && i != j implies after[i]
                != after[j] by {
                if i < before.len() && j < before.len() {
                    assert(before[i] != before[j]);
                } else if i < before.len() {
                    assert(before[i] != index);
                } else {
                    assert(before[j] != index);
                }
            }
            assert forall|i: int| 0 <= i < after.len() implies {
                &&& (#[trigger] after[i]) < self.items@.len()
                &&& self.items@[after[i] as int].next == (if i == 0 {
                    None
                } else {
                    Some(after[i - 1])
                })
                &&& self.items@[after[i] as int].prec == (if i == after.len() - 1 {
                    None
                } else {
                    Some(after[i + 1])
                })
            } by {
                if i < before.len() {
                    assert(before[i] != index);
                    if i < before.len() - 1 {
                        assert(before[i] != before[before.len() - 1]);
                    }
                }
            }
            assert forall|j: int|
                0 <= j < self.items@.len() && !holds_position(after, j) implies #[trigger] self.items@[j]
                == (DBLItem { next: None, prec: None }) by {
                assert(after[before.len() as int] == index);
                if holds_position(before, j) {
                    let i = choose|i: int| 0 <= i < before.len() && before[i] == j;
                    assert(after[i] == j);
                }
                if before.len() > 0 {
                    assert(after[before.len() - 1] == before[before.len() - 1]);
                }
            }
        }
    }

    /// Removes the index at the tail, the one that was inserted first, and
    /// returns it; `None` when the list is empty.
    pub fn pop(&mut self) -> (index: Option<u32>)
        requires
            old(self).wf(),
        ensures
            final(self).wf(),
            final(self).capacity() == old(self).capacity(),
            index == popped(old(self)@),
            final(self)@ == after_pop(old(self)@),
    {
        let index = match self.last {
            None => {
                return None;
            },
            Some(index) => index,
        };
        let ghost before = self.order@;
        assert(index == before[0]);
        self.last = self.items[index as usize].prec;
        match self.last {
            None => {
                self.first = None;
            },
            Some(tail) => {
                assert(tail == before[1]);
                self.items[tail as usize].next = None;
            },
        }
        self.items[index as usize] = DBLItem { next: None, prec: None };
        self.order = Ghost(before.drop_first());
        proof {
            let after = self.order@;
            assert forall|i: int, j: int|
                0 <= i < after.len() && 0 <= j < after.len() && i != j implies after[i]
                != after[j] by {
                assert(before[i + 1] != before[j + 1]);
            }
            assert forall|i: int| 0 <= i < after.len() implies {
                &&& (#[trigger] after[i]) < self.items@.len()
                &&& self.items@[after[i] as int].next == (if i == 0 {
                    None
                } else {
                    Some(after[i - 1])
                })
                &&& self.items@[after[i] as int].prec == (if i == after.len() - 1 {
                    None
                } else {
                    Some(after[i + 1])
                })
            } by {
                assert(after[i] == before[i + 1]);
                assert(before[i + 1] != before[0]);
                if i > 0 {
                    assert(before[i + 1] != before[1]);
                    assert(after[i - 1] == before[i]);
                }
                if i < after.len() - 1 {
                    assert(after[i + 1] == before[i + 2]);
                }
            }
            assert forall|j: int|
                0 <= j < self.items@.len() && !holds_position(after, j) implies #[trigger] self.items@[j]
                == (DBLItem { next: None, prec: None }) by {
                if j != index {
                    if holds_position(before, j) {
                        let i = choose|i: int| 0 <= i < before.len() && before[i] == j;
                        assert(after[i - 1] == j);
                    }
                    if after.len() > 0 {
                        assert(after[0] == before[1]);
                    }
                }
            }
        }
        Some(index)
    }

    /// Whether `index` is held. The entry of `index` tells: an index is held
    /// where it has a link, or is the head.
    pub fn holds(&self, index: u32) -> (held: bool)
        requires
            self.wf(),
        ensures
            held == self@.contains(index),
    {
        let idx = index as usize;
        if idx >= self.items.len() {
            assert(!self@.contains(index)) by {
                if self@.contains(index) {
                    let i = choose|i: int| 0 <= i < self@.len() && self@[i] == index;
                    assert(self@[i] < self.items@.len());
                }
            }
            return false;
        }
        let item = self.items[idx];
        let is_head = match self.first {
            Some(head) => head == index,
            None => false,
        };
        proof {
            let order = self.order@;
            if order.contains(index) {
                let i = choose|i: int| 0 <= i < order.len() && order[i] == index;
                assert(order[i] == index);
            } else {
                assert(!holds_position(order, idx as int));
                if order.len() > 0 {
                    assert(order[order.len() - 1] != index);
                }
            }
        }
        item.next.is_some() || item.prec.is_some() || is_head
    }

    /// A well-formed list holds no index twice, only indices below its
    /// capacity, and so never more entries than its capacity.
    pub proof fn lemma_bounded(&self)
        requires
            self.wf(),
        ensures
            self@.no_duplicates(),
            forall|i: int| 0 <= i < self@.len() ==> (#[trigger] self@[i]) < self.capacity(),
            self@.len() <= self.capacity(),
    {
        lemma_distinct_bounded_len(self@, self.capacity());
    }
}

/// A pop of the empty list returns nothing and leaves the list empty.
pub proof fn lemma_pop_empty()
    ensures
        popped(Seq::<u32>::empty()) is None,
        after_pop(Seq::<u32>::empty()) == Seq::<u32>::empty(),
{
}

/// An index pushed to the empty list comes back at the next pop, and the
/// pop after that returns nothing.
pub proof fn lemma_push_pop_single(capacity: nat, index: u32)
    requires
        index < capacity,
    ensures
        popped(pushed(Seq::empty(), capacity, index)) == Some(index),
        after_pop(pushed(Seq::empty(), capacity, index)) == Seq::<u32>::empty(),
        popped(after_pop(pushed(Seq::empty(), capacity, index))) is None,
{
    assert(after_pop(pushed(Seq::empty(), capacity, index)) =~= Seq::<u32>::empty());
}

/// Indices that the list has entries for, pushed to the empty list, are
/// held in the order of the pushes.
pub proof fn lemma_pushed_all_in_range(capacity: nat, indices: Seq<u32>)
    requires
        forall|i: int| 0 <= i < indices.len() ==> (#[trigger] indices[i]) < capacity,
    ensures
        pushed_all(Seq::empty(), capacity, indices) == indices,
    decreases indices.len(),
{
    if indices.len() > 0 {
        let front = indices.drop_last();
        assert forall|i: int| 0 <= i < front.len() implies (#[trigger] front[i]) < capacity by {
            assert(front[i] == indices[i]);
        }
        lemma_pushed_all_in_range(capacity, front);
        assert(indices.last() < capacity);
        assert(front.push(indices.last()) =~= indices);
    }
}

/// `count` pops take the first `count` entries off the list.
pub proof fn lemma_after_pops(order: Seq<u32>, count: nat)
    requires
        count <= order.len(),
    ensures
        after_pops(order, count) == order.skip(count as int),
    decreases count,
{
    if count == 0 {
        assert(order.skip(0) =~= order);
    } else {
        lemma_after_pops(order, (count - 1) as nat);
        assert(order.skip(count - 1).drop_first() =~= order.skip(count as int));
    }
}

/// First in, first out: after indices were pushed to the empty list, the
/// pops return them in the order of the pushes, and the pop after the last
/// of them returns nothing.
pub proof fn lemma_fifo(capacity: nat, indices: Seq<u32>, count: nat)
    requires
        forall|i: int| 0 <= i < indices.len() ==> (#[trigger] indices[i]) < capacity,
        count <= indices.len(),
    ensures
        popped(after_pops(pushed_all(Seq::empty(), capacity, indices), count)) == (if count
            < indices.len() {
            Some(indices[count as int])
        } else {
            None
        }),
{
    lemma_pushed_all_in_range(capacity, indices);
    lemma_after_pops(indices, count);
}

/// A sequence of distinct indices, all below `bound`, has at most `bound`
/// entries.
pub proof fn lemma_distinct_bounded_len(order: Seq<u32>, bound: nat)
    requires
        order.no_duplicates(),
        forall|i: int| 0 <= i < order.len() ==> (#[trigger] order[i]) < bound,
    ensures
        order.len() <= bound,
{
    let wide = Seq::new(order.len(), |i: int| order[i] as int);
    assert(wide.no_duplicates()) by {
        assert forall|i: int, j: int|
            0 <= i < wide.len() && 0 <= j < wide.len() && i != j implies wide[i] != wide[j] by {
            assert(order[i] != order[j]);
        }
    }
    wide.unique_seq_to_set();
    lemma_int_range(0, bound as int);
    assert(wide.to_set().subset_of(set_int_range(0, bound as int))) by {
        assert forall|x: int| wide.to_set().contains(x) implies set_int_range(
            0,
            bound as int,
        ).contains(x) by {
            let i = choose|i: int| 0 <= i < wide.len() && wide[i] == x;
            assert(order[i] < bound);
        }
    }
    lemma_len_subset(wide.to_set(), set_int_range(0, bound as int));
}

/// A sequence of `bound` distinct indices, all below `bound`, holds every
/// index below `bound`.
pub proof fn lemma_distinct_bounded_full(order: Seq<u32>, bound: nat)
    requires
        order.no_duplicates(),
        order.len() == bound,
        forall|i: int| 0 <= i < order.len() ==> (#[trigger] order[i]) < bound,
    ensures
        forall|position: int| 0 <= position < bound ==> holds_position(order, position),
{
    let wide = Seq::new(order.len(), |i: int| order[i] as int);
    assert(wide.no_duplicates()) by {
        assert forall|i: int, j: int|
            0 <= i < wide.len() && 0 <= j < wide.len() && i != j implies wide[i] != wide[j] by {
            assert(order[i] != order[j]);
        }
    }
    wide.unique_seq_to_set();
    lemma_int_range(0, bound as int);
    let range = set_int_range(0, bound as int);
    assert(wide.to_set().subset_of(range)) by {
        assert forall|x: int| wide.to_set().contains(x) implies range.contains(x) by {
            let i = choose|i: int| 0 <= i < wide.len() && wide[i] == x;
            assert(order[i] < bound);
        }
    }
    lemma_len_subset(wide.to_set(), range);
    lemma_subset_equality(wide.to_set(), range);
    assert forall|position: int| 0 <= position < bound implies holds_position(
        order,
        position,
    ) by {
        assert(range.contains(position));
        assert(wide.to_set().contains(position));
        let i = choose|i: int| 0 <= i < wide.len() && wide[i] == position;
        assert(order[i] == position);
    }
}

} // verus!
