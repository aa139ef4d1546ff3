//! The arena: a fixed-capacity store of slots, and the per-task buffer of
//! slots that are owed a release.

use vstd::prelude::*;
use vstd::string::StringExecFns;

use super::term::Term;
use crate::arena::lemma_occupied_bounds;
use crate::arena::lemma_occupied_push;
use crate::arena::lemma_occupied_update;
use crate::arena::occupied;
use crate::text::decimal;
use crate::text::decimal_string;

verus! {

/// Index of a slot in the arena.
#[derive(Debug, Clone, Copy, PartialEq, Eq, Structural)]
pub struct Ptr(pub u32);

impl Ptr {
    pub fn new(value: u32) -> (ptr: Ptr)
        ensures
            ptr == Ptr(value),
    {
        Ptr(value)
    }

    pub fn index(&self) -> (index: u32)
        ensures
            index == self.0,
    {
        self.0
    }

    pub fn as_u32(&self) -> (index: u32)
        ensures
            index == self.0,
    {
        self.0
    }

    /// The text of the pointer: a hash sign and the index.
    pub fn to_string(&self) -> (text: String)
        ensures
            text@ == "#"@ + decimal(self.0 as nat),
    {
        let mut text = String::from_str("#");
        text.append(decimal_string(self.0 as u64).as_str());
        text
    }
}

/// The arena as a value: the slots handed out so far, in order of
/// allocation, the number of them that are occupied, and the capacity.
pub struct Arena {
    pub slots: Seq<Option<Term>>,
    pub live: nat,
    pub capacity: nat,
}

impl Arena {
    /// The occupancy count is right and the capacity is respected.
    pub open spec fn wf(self) -> bool {
        &&& self.slots.len() <= self.capacity
        &&& self.capacity <= u32::MAX
        &&& self.live == occupied(self.slots)
    }

    /// The slot has been handed out.
    pub open spec fn has(self, ptr: Ptr) -> bool {
        ptr.0 < self.slots.len()
    }

    /// The slot has been handed out and is occupied.
    pub open spec fn holds(self, ptr: Ptr) -> bool {
        self.has(ptr) && self.slots[ptr.0 as int].is_some()
    }

    /// The slot holds a wire.
    pub open spec fn holds_var(self, ptr: Ptr) -> bool {
        self.holds(ptr) && self.slots[ptr.0 as int].unwrap() is Var
    }

    /// The slot holds an agent.
    pub open spec fn holds_cell(self, ptr: Ptr) -> bool {
        self.holds(ptr) && self.slots[ptr.0 as int].unwrap() is Cell
    }

    /// What the slot contains.
    pub open spec fn at(self, ptr: Ptr) -> Option<Term>
        recommends
            self.has(ptr),
    {
        self.slots[ptr.0 as int]
    }

    /// The slot that the next allocation hands out.
    pub open spec fn next(self) -> Ptr {
        Ptr(self.slots.len() as u32)
    }

    /// At least `n` more slots can be handed out.
    pub open spec fn has_room(self, n: nat) -> bool {
        self.slots.len() + n <= self.capacity
    }

    /// The arena after one more slot with the given content is handed out.
    pub open spec fn allocate(self, value: Option<Term>) -> Arena {
        Arena {
            slots: self.slots.push(value),
            live: if value.is_some() {
                self.live + 1
            } else {
                self.live
            },
            capacity: self.capacity,
        }
    }

    /// The arena after the content of an occupied slot is replaced.
    pub open spec fn set(self, ptr: Ptr, term: Term) -> Arena {
        Arena {
            slots: self.slots.update(ptr.0 as int, Some(term)),
            live: if self.slots[ptr.0 as int].is_some() {
                self.live
            } else {
                self.live + 1
            },
            capacity: self.capacity,
        }
    }

    /// The arena after an occupied slot is emptied.
    pub open spec fn free(self, ptr: Ptr) -> Arena {
        Arena {
            slots: self.slots.update(ptr.0 as int, None),
            live: (self.live - 1) as nat,
            capacity: self.capacity,
        }
    }

    /// Handing out a slot keeps the arena well formed while there is room.
    pub proof fn lemma_allocate_wf(self, value: Option<Term>)
        requires
            self.wf(),
            self.has_room(1),
        ensures
            self.allocate(value).wf(),
            self.allocate(value).holds(self.next()) == value.is_some(),
            self.allocate(value).at(self.next()) == value,
    {
        lemma_occupied_push(self.slots, value);
    }

    /// Replacing a slot's content keeps the arena well formed.
    pub proof fn lemma_set_wf(self, ptr: Ptr, term: Term)
        requires
            self.wf(),
            self.has(ptr),
        ensures
            self.set(ptr, term).wf(),
    {
        lemma_occupied_update(self.slots, ptr.0 as int, Some(term));
    }

    /// Emptying an occupied slot keeps the arena well formed, and the
    /// occupancy count was at least one before.
    pub proof fn lemma_free_wf(self, ptr: Ptr)
        requires
            self.wf(),
            self.holds(ptr),
        ensures
            self.live >= 1,
            self.free(ptr).wf(),
            self.free(ptr).live + 1 == self.live,
    {
        lemma_occupied_update(self.slots, ptr.0 as int, None);
        lemma_occupied_bounds(self.slots, ptr.0 as int);
    }
}

/// The arena. Slots are handed out in order of their index and an index is
/// never handed out twice; an emptied slot stays empty until it is
/// overwritten.
#[derive(Debug)]
pub struct Store {
    mem: Vec<Option<Term>>,
    pub capacity: u32,
    next: u32,
    len: u32,
}

impl View for Store {
    type V = Arena;

    closed spec fn view(&self) -> Arena {
        Arena { slots: self.mem@, live: self.len as nat, capacity: self.capacity as nat }
    }
}

impl Store {
    /// What the fields must satisfy beyond the arena being well formed.
    pub closed spec fn wf(&self) -> bool {
        &&& self@.wf()
        &&& self.next as nat == self.mem@.len()
    }

    /// A well-formed store has a well-formed arena.
    pub proof fn lemma_wf(&self)
        requires
            self.wf(),
        ensures
            self@.wf(),
    {
    }

    /// The capacity of an arena made by `new`.
    pub const DEFAULT_CAPACITY: u32 = 33554432;

    /// An empty arena of the default capacity.
    pub fn new() -> (store: Store)
        ensures
            store.wf(),
            store@ == (Arena { slots: Seq::empty(), live: 0, capacity: Store::DEFAULT_CAPACITY as nat }),
    {
        Self::with_capacity(Store::DEFAULT_CAPACITY)
    }

    /// An empty arena that hands out at most `capacity` slots.
    pub fn with_capacity(capacity: u32) -> (store: Store)
        ensures
            store.wf(),
            store@ == (Arena { slots: Seq::empty(), live: 0, capacity: capacity as nat }),
    {
        Store { mem: Vec::new(), capacity, next: 0, len: 0 }
    }

    /// How many slots are occupied.
    pub fn len(&self) -> (len: u32)
        ensures
            len == self@.live,
    {
        self.len
    }

    /// The index that the next allocation hands out.
    pub fn next(&self) -> (next: u32)
        requires
            self.wf(),
        ensures
            next == self@.slots.len(),
    {
        self.next
    }

    /// Whether `n` more slots can be handed out.
    pub fn has_room(&self, n: u32) -> (room: bool)
        requires
            self.wf(),
        ensures
            room == self@.has_room(n as nat),
    {
        n <= self.capacity - self.next
    }

    /// Hands out a fresh slot with the given content and returns its index.
    pub fn allocate(&mut self, value: Option<Term>) -> (ptr: Ptr)
        requires
            old(self).wf(),
            old(self)@.has_room(1),
        ensures
            final(self).wf(),
            ptr == old(self)@.next(),
            final(self)@ == old(self)@.allocate(value),
    {
        proof {
            self@.lemma_allocate_wf(value);
            lemma_occupied_bounds(self@.slots.push(value), 0);
        }
        let ptr = self.inc_next();
        self.mem.push(value);
        if value.is_some() {
            self.len = self.len + 1;
        }
        ptr
    }

    /// Empties an occupied slot and returns what it held.
    pub fn free(&mut self, ptr: Ptr) -> (term: Option<Term>)
        requires
            old(self).wf(),
            old(self)@.holds(ptr),
        ensures
            final(self).wf(),
            term == old(self)@.at(ptr),
            final(self)@ == old(self)@.free(ptr),
    {
        proof {
            self@.lemma_free_wf(ptr);
        }
        let term = self.mem[ptr.0 as usize];
        self.mem.set(ptr.0 as usize, None);
        self.len = self.len - 1;
        term
    }

    /// The content of a slot that has been handed out.
    pub fn get(&self, ptr: Ptr) -> (term: &Option<Term>)
        requires
            self@.has(ptr),
        ensures
            *term == self@.at(ptr),
    {
        &self.mem[ptr.0 as usize]
    }

    /// Replaces the content of a slot that has been handed out and returns
    /// what it held.
    pub fn set(&mut self, ptr: Ptr, term: Term) -> (prior: Option<Term>)
        requires
            old(self).wf(),
            old(self)@.has(ptr),
        ensures
            final(self).wf(),
            prior == old(self)@.at(ptr),
            final(self)@ == old(self)@.set(ptr, term),
    {
        proof {
            self@.lemma_set_wf(ptr, term);
            lemma_occupied_bounds(self@.slots.update(ptr.0 as int, Some(term)), ptr.0 as int);
        }
        let prior = self.mem[ptr.0 as usize];
        self.mem.set(ptr.0 as usize, Some(term));
        if prior.is_none() {
            self.len = self.len + 1;
        }
        prior
    }

    fn inc_next(&mut self) -> (ptr: Ptr)
        requires
            old(self).next < u32::MAX,
        ensures
            ptr == Ptr(old(self).next),
            final(self).next == old(self).next + 1,
            final(self).mem == old(self).mem,
            final(self).len == old(self).len,
            final(self).capacity == old(self).capacity,
    {
        let ptr = Ptr(self.next);
        self.next = self.next + 1;
        ptr
    }
}

/// How many released slots a task can hold on to.
pub const FREE_PTRS_SIZE: usize = 20;

/// The slots whose content a task has consumed and which it owes a release.
pub struct FreePtrs {
    ptrs: Vec<Ptr>,
}

impl View for FreePtrs {
    type V = Seq<Ptr>;

    closed spec fn view(&self) -> Seq<Ptr> {
        self.ptrs@
    }
}

impl FreePtrs {
    /// The buffer holds no more than its size.
    pub open spec fn wf(&self) -> bool {
        self@.len() <= FREE_PTRS_SIZE
    }

    /// What stays in a buffer that is split in `n`: the first `len / n`
    /// entries.
    pub open spec fn kept(ptrs: Seq<Ptr>, n: u8) -> Seq<Ptr>
        recommends
            n > 0,
    {
        ptrs.subrange(0, ptrs.len() as int / n as int)
    }

    /// What leaves a buffer that is split in `n`: the entries after the
    /// first `len / n`.
    pub open spec fn given(ptrs: Seq<Ptr>, n: u8) -> Seq<Ptr>
        recommends
            n > 0,
    {
        ptrs.subrange(ptrs.len() as int / n as int, ptrs.len() as int)
    }

    pub fn new() -> (free_ptrs: FreePtrs)
        ensures
            free_ptrs@ == Seq::<Ptr>::empty(),
            free_ptrs.wf(),
    {
        FreePtrs { ptrs: Vec::new() }
    }

    /// How many slots the buffer holds.
    pub fn len(&self) -> (len: usize)
        ensures
            len == self@.len(),
    {
        self.ptrs.len()
    }

    /// Whether the buffer can take no more.
    pub fn is_full(&self) -> (full: bool)
        ensures
            full == (self@.len() >= FREE_PTRS_SIZE),
    {
        self.ptrs.len() >= FREE_PTRS_SIZE
    }

    /// Adds a slot at the end.
    pub fn push(&mut self, ptr: Ptr)
        requires
            old(self)@.len() < FREE_PTRS_SIZE,
        ensures
            final(self)@ == old(self)@.push(ptr),
            final(self).wf(),
    {
        self.ptrs.push(ptr);
    }

    /// Takes the slot at the end, if there is one.
    pub fn pop(&mut self) -> (ptr: Option<Ptr>)
        ensures
            old(self)@.len() == 0 ==> ptr.is_none() && final(self)@ == old(self)@,
            old(self)@.len() > 0 ==> ptr == Some(old(self)@.last()) && final(self)@ == old(
                self,
            )@.drop_last(),
            old(self).wf() ==> final(self).wf(),
    {
        self.ptrs.pop()
    }

    /// Splits the buffer in `n`: the first `len / n` slots stay, the others
    /// leave in the buffer that is returned, in their order.
    pub fn split(&mut self, n: u8) -> (rest: FreePtrs)
        requires
            n > 0,
        ensures
            final(self)@ == FreePtrs::kept(old(self)@, n),
            rest@ == FreePtrs::given(old(self)@, n),
            old(self).wf() ==> final(self).wf() && rest.wf(),
    {
        let split = self.ptrs.len() / (n as usize);
        let rest = self.ptrs.split_off(split);
        FreePtrs { ptrs: rest }
    }
}

} // verus!
