//! Typed slot indices and the arena of the two-kind calculus.

use std::marker::PhantomData;

use vstd::prelude::*;

use super::net::cell::Cell;
use super::net::cell::CellPtr;
use super::net::term::Term;
use super::net::term::TermPtr;
use super::net::var::Var;
use super::net::var::VarPtr;
use crate::arena::lemma_occupied_bounds;
use crate::arena::lemma_occupied_push;
use crate::arena::lemma_occupied_update;
use crate::arena::occupied;
use crate::fault::Fault;

verus! {

/// The index that names no slot.
pub const NIL_INDEX: u32 = 0;

/// The index of a slot that holds a `T`.
#[derive(Debug, Eq, PartialEq, Hash)]
pub struct Ptr<T> {
    pub index: u32,
    pub _t: PhantomData<T>,
}

impl<T> Clone for Ptr<T> {
    fn clone(&self) -> (ptr: Self)
        ensures
            ptr == *self,
    {
        Ptr { index: self.index, _t: PhantomData }
    }
}

impl<T> Copy for Ptr<T> {

}

impl<T> Ptr<T> {
    /// The pointer to the slot of the given index.
    pub open spec fn at(index: u32) -> Ptr<T> {
        Ptr { index, _t: PhantomData }
    }

    /// The pointer to the slot of the given index, which may be the index
    /// that names no slot.
    pub fn at_index(index: u32) -> (ptr: Self)
        ensures
            ptr == Ptr::<T>::at(index),
    {
        Self { index, _t: PhantomData }
    }

    pub fn new(index: u32) -> (ptr: Self)
        requires
            index > 0,
        ensures
            ptr == Ptr::<T>::at(index),
    {
        Self { index, _t: PhantomData }
    }

    pub fn get_index(&self) -> (index: u32)
        ensures
            index == self.index,
    {
        self.index
    }

    pub fn is_nil(&self) -> (nil: bool)
        ensures
            nil == (self.index == NIL_INDEX),
    {
        self.index == NIL_INDEX
    }
}

/// The arena as a value. The slot of index `i` is the `i`-th that was
/// handed out; the index 0 names no slot.
pub struct Pool {
    pub slots: Seq<Option<Term>>,
    pub live: nat,
    pub capacity: nat,
}

impl Pool {
    /// The occupancy count is right and the capacity is respected.
    pub open spec fn wf(self) -> bool {
        &&& self.slots.len() < self.capacity
        &&& self.capacity <= u32::MAX
        &&& self.live == occupied(self.slots)
    }

    /// The slot has been handed out.
    pub open spec fn has(self, index: u32) -> bool {
        0 < index <= self.slots.len()
    }

    /// What the slot contains.
    pub open spec fn at(self, index: u32) -> Option<Term>
        recommends
            self.has(index),
    {
        self.slots[index - 1]
    }

    /// The slot has been handed out and is occupied.
    pub open spec fn holds(self, index: u32) -> bool {
        self.has(index) && self.at(index).is_some()
    }

    /// The slot holds an agent.
    pub open spec fn holds_cell(self, index: u32) -> bool {
        self.holds(index) && self.at(index).unwrap() is Cell
    }

    /// The slot holds a wire.
    pub open spec fn holds_var(self, index: u32) -> bool {
        self.holds(index) && self.at(index).unwrap() is Var
    }

    /// The index that the next allocation hands out.
    pub open spec fn next(self) -> u32 {
        (self.slots.len() + 1) as u32
    }

    /// One more slot can be handed out.
    pub open spec fn has_room(self) -> bool {
        self.slots.len() + 1 < self.capacity
    }

    /// The arena after one more slot with the given content is handed out.
    pub open spec fn allocate(self, value: Option<Term>) -> Pool {
        Pool {
            slots: self.slots.push(value),
            live: if value.is_some() {
                self.live + 1
            } else {
                self.live
            },
            ..self
        }
    }

    /// The arena after the content of a slot is replaced.
    pub open spec fn set(self, index: u32, term: Term) -> Pool {
        Pool {
            slots: self.slots.update(index - 1, Some(term)),
            live: if self.at(index).is_some() {
                self.live
            } else {
                self.live + 1
            },
            ..self
        }
    }

    /// The arena after an occupied slot is emptied.
    pub open spec fn free(self, index: u32) -> Pool {
        Pool { slots: self.slots.update(index - 1, None), live: (self.live - 1) as nat, ..self }
    }

    /// Why a slot cannot be read, if it cannot.
    pub open spec fn unreadable(self, index: u32) -> Option<Fault> {
        if !self.has(index) {
            Some(Fault::OutOfBounds)
        } else if self.at(index).is_none() {
            Some(Fault::EmptySlot)
        } else {
            None
        }
    }

    /// Why the slot does not give an agent, if it does not.
    pub open spec fn no_cell(self, index: u32) -> Option<Fault> {
        match self.unreadable(index) {
            Some(fault) => Some(fault),
            None => if self.at(index).unwrap() is Cell {
                None
            } else {
                Some(Fault::KindMismatch)
            },
        }
    }

    /// Why the slot does not give a wire, if it does not.
    pub open spec fn no_var(self, index: u32) -> Option<Fault> {
        match self.unreadable(index) {
            Some(fault) => Some(fault),
            None => if self.at(index).unwrap() is Var {
                None
            } else {
                Some(Fault::KindMismatch)
            },
        }
    }

    /// The first occupied slot at or after the given position, if there is
    /// one.
    pub open spec fn next_occupied(self, from: nat) -> Option<nat>
        decreases self.slots.len() - from,
    {
        if from >= self.slots.len() {
            None
        } else if self.slots[from as int].is_some() {
            Some(from)
        } else {
            self.next_occupied(from + 1)
        }
    }

    /// Emptying an occupied slot keeps the arena well formed, and the
    /// occupancy count was at least one before.
    pub proof fn lemma_free_wf(self, index: u32)
        requires
            self.wf(),
            self.holds(index),
        ensures
            self.live >= 1,
            self.free(index).wf(),
            self.free(index).live + 1 == self.live,
    {
        lemma_occupied_update(self.slots, index - 1, None);
        lemma_occupied_bounds(self.slots, index - 1);
    }
}

/// The arena of the two-kind calculus. Slots are handed out in order of
/// their index, from 1 on, and an index is never handed out twice.
#[derive(Debug)]
pub struct Store {
    mem: Vec<Option<Term>>,
    capacity: u32,
    len: u32,
}

impl View for Store {
    type V = Pool;

    closed spec fn view(&self) -> Pool {
        Pool { slots: self.mem@, live: self.len as nat, capacity: self.capacity as nat }
    }
}

impl Store {
    /// The arena is well formed.
    pub open spec fn wf(&self) -> bool {
        self@.wf()
    }

    /// An empty arena with room for `capacity` indices, of which the index
    /// 0 names no slot.
    pub fn new(capacity: u32) -> (store: Store)
        requires
            capacity > 0,
        ensures
            store.wf(),
            store@ == (Pool { slots: Seq::empty(), live: 0, capacity: capacity as nat }),
    {
        Store { mem: Vec::new(), capacity, len: 0 }
    }

    pub fn capacity(&self) -> (capacity: u32)
        ensures
            capacity == self@.capacity,
    {
        self.capacity
    }

    /// How many slots are occupied.
    pub fn len(&self) -> (len: u32)
        ensures
            len == self@.live,
    {
        self.len
    }

    /// The index that the next allocation hands out.
    pub fn next(&self) -> (next: u32)
        requires
            self.wf(),
        ensures
            next == self@.next(),
    {
        (self.mem.len() + 1) as u32
    }

    /// Whether one more slot can be handed out.
    pub fn has_room(&self) -> (room: bool)
        requires
            self.wf(),
        ensures
            room == self@.has_room(),
    {
        self.mem.len() + 1 < self.capacity as usize
    }

    /// Hands out a fresh slot with the given content.
    pub fn allocate(&mut self, value: Option<Term>) -> (index: u32)
        requires
            old(self).wf(),
            old(self)@.has_room(),
        ensures
            final(self).wf(),
            index == old(self)@.next(),
            index > 0,
            final(self)@ == old(self)@.allocate(value),
    {
        proof {
            lemma_occupied_push(self@.slots, value);
            lemma_occupied_bounds(self@.slots.push(value), 0);
        }
        self.mem.push(value);
        if value.is_some() {
            self.len = self.len + 1;
        }
        self.mem.len() as u32
    }

    /// Hands out a fresh slot for an agent, or an empty one.
    pub fn alloc_cell(&mut self, term: Option<Cell>) -> (cell_ptr: CellPtr)
        requires
            old(self).wf(),
            old(self)@.has_room(),
        ensures
            final(self).wf(),
            cell_ptr == CellPtr::at(old(self)@.next()),
            final(self)@ == old(self)@.allocate(
                match term {
                    Some(cell) => Some(Term::Cell(cell)),
                    None => None,
                },
            ),
    {
        let value = match term {
            Some(cell) => Some(Term::Cell(cell)),
            None => None,
        };
        let index = self.allocate(value);
        return CellPtr::Ref(Ptr::new(index));
    }

    /// Hands out a fresh, unset wire.
    pub fn alloc_var(&mut self) -> (var_ptr: VarPtr)
        requires
            old(self).wf(),
            old(self)@.has_room(),
        ensures
            final(self).wf(),
            var_ptr == VarPtr::at(old(self)@.next()),
            final(self)@ == old(self)@.allocate(Some(Term::Var(Var::holding(None)))),
    {
        let var = Var::new();
        let index = self.allocate(Some(Term::Var(var)));
        return VarPtr(Ptr::new(index));
    }

    /// Reads a slot, if it can be read.
    pub fn look(&self, index: u32) -> (term: Result<Term, Fault>)
        requires
            self.wf(),
        ensures
            match self@.unreadable(index) {
                Some(fault) => term == Err::<Term, Fault>(fault),
                None => term == Ok::<Term, Fault>(self@.at(index).unwrap()),
            },
    {
        if index == 0 || index as usize > self.mem.len() {
            Err(Fault::OutOfBounds)
        } else {
            match &self.mem[(index - 1) as usize] {
                None => Err(Fault::EmptySlot),
                Some(term) => Ok(*term),
            }
        }
    }

    /// The agent in a slot, or nothing if the slot is empty. The slot is
    /// left as it is.
    pub fn consume_cell(&self, ptr: Ptr<CellPtr>) -> (cell: Option<Cell>)
        requires
            self@.has(ptr.index),
            !self@.holds_var(ptr.index),
        ensures
            match self@.at(ptr.index) {
                Some(Term::Cell(found)) => cell == Some(found),
                _ => cell.is_none(),
            },
    {
        match self.mem[(ptr.index - 1) as usize] {
            Some(Term::Cell(cell)) => Some(cell),
            _ => None,
        }
    }

    /// The agent in a slot that holds one.
    pub fn read_cell(&self, ptr: &Ptr<CellPtr>) -> (cell: Option<&Cell>)
        requires
            self@.holds_cell(ptr.index),
        ensures
            cell.is_some(),
            *cell.unwrap() == self@.at(ptr.index).unwrap()->Cell_0,
    {
        match &self.mem[(ptr.index - 1) as usize] {
            Some(Term::Cell(cell)) => Some(cell),
            _ => None,
        }
    }

    /// Puts an agent into a slot that has been handed out.
    pub fn write_cell(&mut self, ptr: &Ptr<CellPtr>, cell: Cell)
        requires
            old(self).wf(),
            old(self)@.has(ptr.index),
        ensures
            final(self).wf(),
            final(self)@ == old(self)@.set(ptr.index, Term::Cell(cell)),
    {
        self.write(ptr.index, Term::Cell(cell));
    }

    /// The wire in a slot that holds one.
    pub fn get_var(&self, ptr: &VarPtr) -> (var: &Var)
        requires
            self@.holds_var(ptr.0.index),
        ensures
            *var == self@.at(ptr.0.index).unwrap()->Var_0,
    {
        match &self.mem[(ptr.0.index - 1) as usize] {
            Some(Term::Var(var)) => var,
            _ => vstd::pervasive::unreached(),
        }
    }

    /// Swaps a new state into the wire in a slot and returns what the wire
    /// was set to before.
    pub fn swap_var(&mut self, ptr: &VarPtr, value: TermPtr) -> (prior: Option<TermPtr>)
        requires
            old(self).wf(),
            old(self)@.holds_var(ptr.0.index),
        ensures
            final(self).wf(),
            prior == old(self)@.at(ptr.0.index).unwrap()->Var_0.state(),
            final(self)@ == old(self)@.set(ptr.0.index, Term::Var(Var::holding(Some(value)))),
    {
        let mut var = *self.get_var(ptr);
        let prior = var.set(value);
        self.write(ptr.0.index, Term::Var(var));
        prior
    }

    /// Empties the slot of an agent.
    pub fn free_cell(&mut self, ptr: Ptr<CellPtr>)
        requires
            old(self).wf(),
            old(self)@.holds(ptr.index),
        ensures
            final(self).wf(),
            final(self)@ == old(self)@.free(ptr.index),
    {
        self.release(ptr.index);
    }

    /// Empties the slot of a wire.
    pub fn free_var(&mut self, var_ptr: VarPtr)
        requires
            old(self).wf(),
            old(self)@.holds(var_ptr.0.index),
        ensures
            final(self).wf(),
            final(self)@ == old(self)@.free(var_ptr.0.index),
    {
        self.release(var_ptr.0.index);
    }

    /// Visits the occupied slots in the order of their indices.
    pub fn iter(&self) -> (iter: StoreIter<'_>)
        ensures
            iter.index == 0,
            *iter.store == *self,
    {
        StoreIter { index: 0, store: self }
    }

    fn write(&mut self, index: u32, term: Term)
        requires
            old(self).wf(),
            old(self)@.has(index),
        ensures
            final(self).wf(),
            final(self)@ == old(self)@.set(index, term),
    {
        proof {
            lemma_occupied_update(self@.slots, index - 1, Some(term));
            lemma_occupied_bounds(self@.slots.update(index - 1, Some(term)), index - 1);
        }
        let was_empty = self.mem[(index - 1) as usize].is_none();
        self.mem.set((index - 1) as usize, Some(term));
        if was_empty {
            self.len = self.len + 1;
        }
    }

    fn release(&mut self, index: u32)
        requires
            old(self).wf(),
            old(self)@.holds(index),
        ensures
            final(self).wf(),
            final(self)@ == old(self)@.free(index),
    {
        proof {
            self@.lemma_free_wf(index);
        }
        self.mem.set((index - 1) as usize, None);
        self.len = self.len - 1;
    }
}

/// A walk over the occupied slots of a store.
pub struct StoreIter<'a> {
    pub index: u32,
    pub store: &'a Store,
}

impl<'a> StoreIter<'a> {
    /// The content of the next occupied slot, if one is left.
    pub fn next(&mut self) -> (term: Option<&'a Term>)
        requires
            old(self).store.wf(),
            old(self).index <= old(self).store@.slots.len(),
        ensures
            final(self).store == old(self).store,
            final(self).index <= final(self).store@.slots.len(),
            match old(self).store@.next_occupied(old(self).index as nat) {
                Some(at) => term.is_some() && Some(*term.unwrap()) == old(self).store@.slots[at as int]
                    && final(self).index == at + 1,
                None => term.is_none() && final(self).index == old(self).store@.slots.len(),
            },
    {
        while (self.index as usize) < self.store.mem.len()
            invariant
                self.store == old(self).store,
                self.store.wf(),
                old(self).index <= self.index <= self.store@.slots.len(),
                self.store@.next_occupied(self.index as nat) == old(self).store@.next_occupied(
                    old(self).index as nat,
                ),
            decreases self.store@.slots.len() - self.index,
        {
            let at = self.index as usize;
            self.index = self.index + 1;
            match &self.store.mem[at] {
                Some(term) => {
                    return Some(term);
                },
                None => {},
            }
        }
        return None;
    }
}

} // verus!
