//! Handles: a slot index paired with a generation id, and the counter that
//! hands out generation ids.

use vstd::prelude::*;
use std::marker::PhantomData;

verus! {

/// How many distinct generation ids exist before the counter wraps.
pub open spec fn generation_space() -> nat {
    0x1_0000_0000
}

/// The generation id given to the `n`-th issuance of a counter, counting from zero.
///
/// The counter is 32 bits wide and wraps: issuance `n` and issuance
/// `n + generation_space()` receive the same id.
pub open spec fn generation_at(n: nat) -> u32 {
    (n % generation_space()) as u32
}

/// Whether `generation` is an id that a counter hands out before its
/// `issued`-th issuance. Until the counter has wrapped, these are the ids
/// below `issued`; after that, all ids.
pub open spec fn issued_before(generation: u32, issued: nat) -> bool {
    exists|earlier: nat| earlier < issued && generation == #[trigger] generation_at(earlier)
}

/// The source of generation ids.
///
/// Every component that issues handles is given the same counter, so that ids
/// are shared by all stores fed from it. An id is issued through an exclusive
/// reference: workers that share a counter keep it behind the lock of the
/// store that they share. Its view is the number of ids issued so far.
pub struct GenerationCounter {
    next: u32,
    issued: Ghost<nat>,
}

impl View for GenerationCounter {
    type V = nat;

    closed spec fn view(&self) -> nat {
        self.issued@
    }
}

impl GenerationCounter {
    #[verifier::type_invariant]
    spec fn tracks_issued(&self) -> bool {
        self.next == generation_at(self.issued@)
    }

    /// A counter that has issued nothing yet; its first id is zero.
    pub fn new() -> (counter: Self)
        ensures
            counter@ == 0,
    {
        GenerationCounter { next: 0, issued: Ghost(0) }
    }

    /// A counter that has issued `issued` ids already, as one that is taken
    /// up again after a pause.
    pub fn starting_at(issued: u64) -> (counter: Self)
        ensures
            counter@ == issued,
    {
        GenerationCounter { next: (issued % 0x1_0000_0000) as u32, issued: Ghost(issued as nat) }
    }

    /// Takes the next generation id and advances the counter, wrapping after
    /// `u32::MAX`.
    pub fn issue(&mut self) -> (generation: u32)
        ensures
            generation == generation_at(old(self)@),
            final(self)@ == old(self)@ + 1,
    {
        proof {
            use_type_invariant(&*self);
        }
        let generation = self.next;
        let ghost issued = self.issued@;
        *self = GenerationCounter { next: generation.wrapping_add(1), issued: Ghost(issued + 1) };
        generation
    }
}

/// What a handle is, as plain values.
pub struct HandleView {
    pub index: u32,
    pub generation: u32,
}

impl HandleView {
    /// The lookup key: the generation id in the high 32 bits, the slot index
    /// in the low 32 bits.
    pub open spec fn unique_hash(self) -> u64 {
        (self.generation * 0x1_0000_0000 + self.index) as u64
    }

    /// The reserved "no handle" value.
    pub open spec fn invalid() -> HandleView {
        HandleView { index: u32::MAX, generation: u32::MAX }
    }
}

/// A generation-qualified reference to a stored item of type `T`. The type
/// is carried along so that handles to items of different types do not mix;
/// a handle holds no `T`, and is copied freely whatever `T` is.
#[derive(Debug, PartialEq, Eq, Structural, Hash)]
pub struct Handle<T> {
    index: u32,
    unique_id: u32,
    _marker: PhantomData<T>,
}

impl<T> Clone for Handle<T> {
    fn clone(&self) -> (copy: Self)
        ensures
            copy == *self,
    {
        Handle { index: self.index, unique_id: self.unique_id, _marker: PhantomData }
    }
}

impl<T> Copy for Handle<T> {

}

impl<T> View for Handle<T> {
    type V = HandleView;

    closed spec fn view(&self) -> HandleView {
        HandleView { index: self.index, generation: self.unique_id }
    }
}

impl<T> Handle<T> {
    /// Issues a handle for slot `index`, stamped with the counter's next
    /// generation id.
    pub fn new(index: u32, counter: &mut GenerationCounter) -> (handle: Self)
        ensures
            handle@ == (HandleView { index, generation: generation_at(old(counter)@) }),
            final(counter)@ == old(counter)@ + 1,
    {
        let unique_id = counter.issue();
        Handle { index, unique_id, _marker: PhantomData }
    }

    /// The reserved value that stands for "no handle". No counter is touched.
    pub fn invalid() -> (handle: Self)
        ensures
            handle@ == HandleView::invalid(),
    {
        Handle { index: u32::MAX, unique_id: u32::MAX, _marker: PhantomData }
    }

    pub fn index(&self) -> (index: usize)
        ensures
            index == self@.index,
    {
        self.index as usize
    }

    pub fn unique_id(&self) -> (generation: u32)
        ensures
            generation == self@.generation,
    {
        self.unique_id
    }

    pub fn unique_hash(&self) -> (hash: u64)
        ensures
            hash == self@.unique_hash(),
    {
        let id: u64 = self.unique_id as u64;
        let index: u64 = self.index as u64;
        assert((id << 32) | index == id * 0x1_0000_0000 + index) by (bit_vector)
            requires
                id <= 0xffff_ffff,
                index <= 0xffff_ffff,
        ;
        (id << 32) | index
    }
}

/// Two handles with the same view are the same handle.
pub proof fn lemma_handle_view_injective<T>(a: Handle<T>, b: Handle<T>)
    requires
        a@ == b@,
    ensures
        a == b,
{
}

/// The lookup key determines the handle: distinct (index, generation) pairs
/// never share a hash, and both fields can be read back from it.
pub proof fn lemma_unique_hash_injective(a: HandleView, b: HandleView)
    ensures
        a.unique_hash() == b.unique_hash() <==> a == b,
        a.unique_hash() / 0x1_0000_0000 == a.generation,
        a.unique_hash() % 0x1_0000_0000 == a.index,
{
    lemma_hash_parts(a);
    lemma_hash_parts(b);
}

proof fn lemma_hash_parts(a: HandleView)
    ensures
        a.generation * 0x1_0000_0000 + a.index <= u64::MAX,
        a.unique_hash() / 0x1_0000_0000 == a.generation,
        a.unique_hash() % 0x1_0000_0000 == a.index,
{
    let g = a.generation as int;
    let i = a.index as int;
    assert((g * 0x1_0000_0000 + i) / 0x1_0000_0000 == g && (g * 0x1_0000_0000 + i) % 0x1_0000_0000
        == i) by (nonlinear_arith)
        requires
            0 <= i < 0x1_0000_0000,
            0 <= g,
    ;
}

/// Ids issued fewer than `generation_space()` issuances apart are distinct.
///
/// This is what keeps two handles apart even when they name the same slot: a
/// counter gives the same id twice only after it has wrapped all the way round.
pub proof fn lemma_generations_distinct(i: nat, j: nat)
    requires
        i < j,
        j - i < generation_space(),
    ensures
        generation_at(i) != generation_at(j),
{
    let m = generation_space() as int;
    if generation_at(i) == generation_at(j) {
        assert((j as int) % m == (i as int) % m);
        vstd::arithmetic::div_mod::lemma_fundamental_div_mod(i as int, m);
        vstd::arithmetic::div_mod::lemma_fundamental_div_mod(j as int, m);
        let qi = (i as int) / m;
        let qj = (j as int) / m;
        assert(j - i == m * (qj - qi)) by (nonlinear_arith)
            requires
                i == m * qi + (i as int) % m,
                j == m * qj + (j as int) % m,
                (j as int) % m == (i as int) % m,
        ;
        assert(false) by (nonlinear_arith)
            requires
                j - i == m * (qj - qi),
                0 < j - i < m,
        ;
    }
}

/// Handles issued by one counter fewer than `generation_space()` issuances
/// apart are never equal, whatever slots they name.
pub proof fn lemma_issued_handles_distinct<T>(a: Handle<T>, b: Handle<T>, i: nat, j: nat)
    requires
        a@.generation == generation_at(i),
        b@.generation == generation_at(j),
        i != j,
        i < j ==> j - i < generation_space(),
        j < i ==> i - j < generation_space(),
    ensures
        a != b,
        a@.unique_hash() != b@.unique_hash(),
{
    if i < j {
        lemma_generations_distinct(i, j);
    } else {
        lemma_generations_distinct(j, i);
    }
    lemma_unique_hash_injective(a@, b@);
}

/// The generation ids of `count` issuances in a row, the first of which is
/// issuance `start`.
pub open spec fn issued_generations(start: nat, count: nat) -> Seq<u32> {
    Seq::new(count, |k: int| generation_at((start + k) as nat))
}

/// However the issuances of one counter are shared out among workers,
/// `count` issuances in a row yield `count` distinct ids, as long as `count`
/// is no more than `generation_space()`.
pub proof fn lemma_issued_generations_count(start: nat, count: nat)
    requires
        count <= generation_space(),
    ensures
        issued_generations(start, count).no_duplicates(),
        issued_generations(start, count).to_set().len() == count,
{
    let ids = issued_generations(start, count);
    assert forall|i: int, j: int|
        0 <= i < ids.len() && 0 <= j < ids.len() && i != j implies ids[i] != ids[j] by {
        if i < j {
            lemma_generations_distinct((start + i) as nat, (start + j) as nat);
        } else {
            lemma_generations_distinct((start + j) as nat, (start + i) as nat);
        }
    }
    ids.unique_seq_to_set();
}

} // verus!
