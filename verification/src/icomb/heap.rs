//! The heap: the plain form of the arena of the two-kind calculus. Slots
//! are handed out from index 0 on, and a reference to an agent says of which
//! kind the agent is.

use vstd::prelude::*;
use vstd::string::StringExecFns;

use super::encode;
use super::lemma_decode_encode;
use super::CellPtr;
use super::IntoTermPtr;
use super::TermPtr;
use super::VarPtr;
use super::UNSET_WORD;
use crate::arena::lemma_occupied_bounds;
use crate::arena::lemma_occupied_push;
use crate::arena::lemma_occupied_update;
use crate::arena::occupied;
use crate::text::decimal;
use crate::text::decimal_string;

verus! {

/// The index of a slot of a heap.
#[derive(Copy, Clone, Debug, Eq, PartialEq, Hash)]
pub struct Ptr {
    pub index: u32,
}

impl Ptr {
    pub fn new(index: u32) -> (ptr: Ptr)
        ensures
            ptr == (Ptr { index }),
    {
        Self { index }
    }

    /// The slot of an agent, or the reference itself if it is the eraser.
    pub fn try_from_cell_ptr(value: CellPtr) -> (ptr: Result<Ptr, CellPtr>)
        ensures
            match value {
                CellPtr::CtrPtr(p) => ptr == Ok::<Ptr, CellPtr>(p),
                CellPtr::DupPtr(p) => ptr == Ok::<Ptr, CellPtr>(p),
                CellPtr::Era => ptr == Err::<Ptr, CellPtr>(value),
            },
    {
        match value {
            CellPtr::CtrPtr(ptr) => Ok(ptr),
            CellPtr::DupPtr(ptr) => Ok(ptr),
            CellPtr::Era => Err(value),
        }
    }
}

/// A binary agent of a heap.
#[derive(Copy, Clone, Debug, PartialEq, Eq, Hash)]
pub enum Cell {
    Ctr(TermPtr, TermPtr),
    Dup(TermPtr, TermPtr),
}

impl Cell {
    pub fn is_ctr(&self) -> (ctr: bool)
        ensures
            ctr == (*self is Ctr),
    {
        match self {
            Cell::Ctr(_, _) => true,
            _ => false,
        }
    }

    pub fn is_dup(&self) -> (dup: bool)
        ensures
            dup == (*self is Dup),
    {
        match self {
            Cell::Dup(_, _) => true,
            _ => false,
        }
    }

    /// The two ports.
    pub open spec fn spec_ports(self) -> (TermPtr, TermPtr) {
        match self {
            Cell::Ctr(port_0, port_1) => (port_0, port_1),
            Cell::Dup(port_0, port_1) => (port_0, port_1),
        }
    }

    /// The two ports.
    pub fn ports(&self) -> (ports: (TermPtr, TermPtr))
        ensures
            ports == self.spec_ports(),
    {
        match self {
            Cell::Ctr(port_0, port_1) => (*port_0, *port_1),
            Cell::Dup(port_0, port_1) => (*port_0, *port_1),
        }
    }
}

/// A wire of a heap: unset, or set to a reference to an agent.
#[derive(Copy, Clone, Debug, PartialEq, Eq, Hash)]
pub struct Var(pub u64);

impl Var {
    /// What the wire is set to, if it is set. A word that names no
    /// reference counts as unset.
    pub open spec fn state(self) -> Option<CellPtr> {
        if self.0 == UNSET_WORD {
            None
        } else {
            match super::decode(self.0) {
                Ok(cell_ptr) => Some(cell_ptr),
                Err(_) => None,
            }
        }
    }

    /// The wire with the given word.
    pub fn new(word: u64) -> (var: Var)
        ensures
            var == Var(word),
    {
        Var(word)
    }
}

/// What an occupied slot of a heap holds.
#[derive(Copy, Clone, Debug, PartialEq, Eq)]
pub enum Term {
    Cell(Cell),
    Var(Var),
}

/// The heap as a value: the slots handed out so far, from index 0 on, how
/// many of them are occupied, and how many can be handed out.
pub struct HeapModel {
    pub slots: Seq<Option<Term>>,
    pub live: nat,
    pub capacity: nat,
}

impl HeapModel {
    /// The occupancy count is right and every index fits in 32 bits.
    pub open spec fn wf(self) -> bool {
        &&& self.slots.len() <= self.capacity
        &&& self.slots.len() <= u32::MAX
        &&& self.live == occupied(self.slots)
    }

    /// The slot has been handed out.
    pub open spec fn has(self, ptr: Ptr) -> bool {
        ptr.index < self.slots.len()
    }

    /// What the slot contains.
    pub open spec fn at(self, ptr: Ptr) -> Option<Term>
        recommends
            self.has(ptr),
    {
        self.slots[ptr.index as int]
    }

    /// The slot holds an agent.
    pub open spec fn holds_cell(self, ptr: Ptr) -> bool {
        self.has(ptr) && self.at(ptr).is_some() && self.at(ptr).unwrap() is Cell
    }

    /// The slot holds a wire.
    pub open spec fn holds_var(self, ptr: Ptr) -> bool {
        self.has(ptr) && self.at(ptr).is_some() && self.at(ptr).unwrap() is Var
    }

    /// The reference leads to an agent of its kind.
    pub open spec fn leads(self, cell_ptr: CellPtr) -> bool {
        match cell_ptr {
            CellPtr::Era => false,
            CellPtr::CtrPtr(ptr) => self.holds_cell(ptr),
            CellPtr::DupPtr(ptr) => self.holds_cell(ptr),
        }
    }

    /// One more slot can be handed out.
    pub open spec fn has_room(self) -> bool {
        self.slots.len() < self.capacity && self.slots.len() < u32::MAX
    }

    /// The slot that the next allocation hands out.
    pub open spec fn next(self) -> Ptr {
        Ptr { index: self.slots.len() as u32 }
    }

    /// The heap after one more slot with the given content is handed out.
    pub open spec fn allocate(self, value: Option<Term>) -> HeapModel {
        HeapModel {
            slots: self.slots.push(value),
            live: if value.is_some() {
                self.live + 1
            } else {
                self.live
            },
            ..self
        }
    }

    /// The heap after the content of a slot is replaced.
    pub open spec fn set(self, ptr: Ptr, term: Term) -> HeapModel {
        HeapModel {
            slots: self.slots.update(ptr.index as int, Some(term)),
            live: if self.at(ptr).is_some() {
                self.live
            } else {
                self.live + 1
            },
            ..self
        }
    }

    /// The heap after an occupied slot is emptied.
    pub open spec fn free(self, ptr: Ptr) -> HeapModel {
        HeapModel {
            slots: self.slots.update(ptr.index as int, None),
            live: (self.live - 1) as nat,
            ..self
        }
    }

    /// The first occupied slot at or after the given position, if there is
    /// one.
    pub open spec fn next_occupied(self, from: nat) -> Option<nat>
        decreases self.slots.len() - from,
    {
        if from >= self.slots.len() {
            None
        } else if self.slots[from as int].is_some() {
            Some(from)
        } else {
            self.next_occupied(from + 1)
        }
    }
}

/// The content of a slot for an agent that may have no ports yet.
pub open spec fn cell_slot(cell: Option<Cell>) -> Option<Term> {
    match cell {
        Some(cell) => Some(Term::Cell(cell)),
        None => None,
    }
}

#[derive(Debug)]
pub struct Heap {
    mem: Vec<Option<Term>>,
    capacity: usize,
    len: usize,
}

impl View for Heap {
    type V = HeapModel;

    closed spec fn view(&self) -> HeapModel {
        HeapModel { slots: self.mem@, live: self.len as nat, capacity: self.capacity as nat }
    }
}

impl Heap {
    /// The heap is well formed.
    pub open spec fn wf(&self) -> bool {
        self@.wf()
    }

    /// An empty heap that hands out at most `capacity` slots.
    pub fn new(capacity: usize) -> (heap: Heap)
        ensures
            heap.wf(),
            heap@ == (HeapModel { slots: Seq::empty(), live: 0, capacity: capacity as nat }),
    {
        Heap { mem: Vec::new(), capacity, len: 0 }
    }

    /// How many slots are occupied.
    pub fn len(&self) -> (len: u32)
        requires
            self.wf(),
        ensures
            len == self@.live,
    {
        proof {
            crate::arena::lemma_occupied_le_len(self@.slots);
        }
        self.len as u32
    }

    /// Whether one more slot can be handed out.
    pub fn has_room(&self) -> (room: bool)
        ensures
            room == self@.has_room(),
    {
        self.mem.len() < self.capacity && self.mem.len() < u32::MAX as usize
    }

    /// Hands out a slot for a constructor with the given ports, or an empty
    /// one.
    pub fn alloc_ctr<T0: IntoTermPtr, T1: IntoTermPtr>(&mut self, ports: Option<(T0, T1)>) -> (cell_ptr:
        CellPtr)
        requires
            old(self).wf(),
            old(self)@.has_room(),
        ensures
            final(self).wf(),
            cell_ptr == CellPtr::CtrPtr(old(self)@.next()),
            final(self)@ == old(self)@.allocate(
                match ports {
                    Some((port_0, port_1)) => Some(
                        Term::Cell(Cell::Ctr(port_0.term_ptr(), port_1.term_ptr())),
                    ),
                    None => None,
                },
            ),
    {
        let ctr = match ports {
            Some((port_0, port_1)) => Some(
                Term::Cell(Cell::Ctr(port_0.into_term_ptr(), port_1.into_term_ptr())),
            ),
            None => None,
        };
        let index = self._alloc_index(ctr);
        CellPtr::CtrPtr(Ptr { index })
    }

    /// Hands out a slot for a duplicator with the given ports, or an empty
    /// one.
    pub fn alloc_dup<T0: IntoTermPtr, T1: IntoTermPtr>(&mut self, ports: Option<(T0, T1)>) -> (cell_ptr:
        CellPtr)
        requires
            old(self).wf(),
            old(self)@.has_room(),
        ensures
            final(self).wf(),
            cell_ptr == CellPtr::DupPtr(old(self)@.next()),
            final(self)@ == old(self)@.allocate(
                match ports {
                    Some((port_0, port_1)) => Some(
                        Term::Cell(Cell::Dup(port_0.term_ptr(), port_1.term_ptr())),
                    ),
                    None => None,
                },
            ),
    {
        let dup = match ports {
            Some((port_0, port_1)) => Some(
                Term::Cell(Cell::Dup(port_0.into_term_ptr(), port_1.into_term_ptr())),
            ),
            None => None,
        };
        let index = self._alloc_index(dup);
        CellPtr::DupPtr(Ptr { index })
    }

    /// Hands out a fresh, unset wire.
    pub fn alloc_var(&mut self) -> (var_ptr: VarPtr)
        requires
            old(self).wf(),
            old(self)@.has_room(),
        ensures
            final(self).wf(),
            var_ptr == VarPtr(old(self)@.next()),
            final(self)@ == old(self)@.allocate(Some(Term::Var(Var(UNSET_WORD)))),
    {
        let index = self._alloc_index(Some(Term::Var(Var::new(u64::MAX))));
        VarPtr(Ptr { index })
    }

    /// The ports of the agent that the reference leads to. The slot is left
    /// as it is.
    pub fn consume_cell(&self, ptr: CellPtr) -> (ports: (TermPtr, TermPtr))
        requires
            self@.leads(ptr),
        ensures
            ports == self@.at(slot_of(ptr)).unwrap()->Cell_0.spec_ports(),
    {
        self.read_cell(ptr)
    }

    /// The ports of the agent that the reference leads to.
    pub fn read_cell(&self, ptr: CellPtr) -> (ports: (TermPtr, TermPtr))
        requires
            self@.leads(ptr),
        ensures
            ports == self@.at(slot_of(ptr)).unwrap()->Cell_0.spec_ports(),
    {
        let slot = match ptr {
            CellPtr::Era => vstd::pervasive::unreached(),
            CellPtr::CtrPtr(slot) => slot,
            CellPtr::DupPtr(slot) => slot,
        };
        match self._get_term(slot) {
            Some(Term::Cell(cell)) => cell.ports(),
            _ => vstd::pervasive::unreached(),
        }
    }

    /// Puts an agent into the slot that the reference names. The agent must
    /// be of the kind that the reference says.
    pub fn set_cell(&mut self, cell_ptr: CellPtr, value: Cell)
        requires
            old(self).wf(),
            match cell_ptr {
                CellPtr::Era => false,
                CellPtr::CtrPtr(ptr) => value is Ctr && old(self)@.has(ptr),
                CellPtr::DupPtr(ptr) => value is Dup && old(self)@.has(ptr),
            },
        ensures
            final(self).wf(),
            final(self)@ == old(self)@.set(slot_of(cell_ptr), Term::Cell(value)),
    {
        match cell_ptr {
            CellPtr::Era => {},
            CellPtr::CtrPtr(ptr) => {
                self._set_cell(ptr, value);
            },
            CellPtr::DupPtr(ptr) => {
                self._set_cell(ptr, value);
            },
        }
    }

    /// What the wire is set to, if it is set.
    pub fn read_var(&self, var_ptr: VarPtr) -> (state: Option<CellPtr>)
        requires
            self@.holds_var(var_ptr.0),
        ensures
            state == self@.at(var_ptr.0).unwrap()->Var_0.state(),
    {
        let VarPtr(ptr) = var_ptr;
        match self._get_term(ptr) {
            Some(Term::Var(Var(word))) => {
                if word == u64::MAX {
                    return None;
                } else {
                    return match CellPtr::try_from(word) {
                        Ok(cell_ptr) => Some(cell_ptr),
                        Err(_) => None,
                    };
                }
            },
            _ => vstd::pervasive::unreached(),
        }
    }

    /// Swaps `value` into the wire and returns what the wire was set to
    /// before, if it was set.
    pub fn swap_var(&mut self, var_ptr: VarPtr, value: CellPtr) -> (prior: Option<CellPtr>)
        requires
            old(self).wf(),
            old(self)@.holds_var(var_ptr.0),
        ensures
            final(self).wf(),
            final(self)@ == old(self)@.set(var_ptr.0, Term::Var(Var(encode(value)))),
            final(self)@.at(var_ptr.0).unwrap()->Var_0.state() == Some(value),
            prior == old(self)@.at(var_ptr.0).unwrap()->Var_0.state(),
    {
        proof {
            lemma_decode_encode(value);
        }
        let VarPtr(ptr) = var_ptr;
        let old_ptr = match self._get_term(ptr) {
            Some(Term::Var(Var(word))) => word,
            _ => vstd::pervasive::unreached(),
        };
        let new_ptr = u64::from(value);
        self._set_term(ptr, Term::Var(Var(new_ptr)));
        if old_ptr != u64::MAX {
            return match CellPtr::try_from(old_ptr) {
                Ok(cell_ptr) => Some(cell_ptr),
                Err(_) => None,
            };
        } else {
            return None;
        }
    }

    /// Empties the slot of an agent.
    pub fn free_cell(&mut self, index: CellPtr)
        requires
            old(self).wf(),
            !(index is Era),
            old(self)@.has(slot_of(index)),
            old(self)@.at(slot_of(index)).is_some(),
        ensures
            final(self).wf(),
            final(self)@ == old(self)@.free(slot_of(index)),
    {
        match index {
            CellPtr::Era => {},
            CellPtr::CtrPtr(ptr) => {
                self._free(ptr);
            },
            CellPtr::DupPtr(ptr) => {
                self._free(ptr);
            },
        }
    }

    /// Empties the slot of a wire.
    pub fn free_var(&mut self, var_ptr: VarPtr)
        requires
            old(self).wf(),
            old(self)@.has(var_ptr.0),
            old(self)@.at(var_ptr.0).is_some(),
        ensures
            final(self).wf(),
            final(self)@ == old(self)@.free(var_ptr.0),
    {
        self._free(var_ptr.0);
    }

    fn _alloc_index(&mut self, term: Option<Term>) -> (index: u32)
        requires
            old(self).wf(),
            old(self)@.has_room(),
        ensures
            final(self).wf(),
            index == old(self)@.slots.len(),
            final(self)@ == old(self)@.allocate(term),
    {
        proof {
            lemma_occupied_push(self@.slots, term);
            lemma_occupied_bounds(self@.slots.push(term), 0);
        }
        let index = self.mem.len();
        self.mem.push(term);
        if term.is_some() {
            self.len = self.len + 1;
        }
        index as u32
    }

    fn _get_term(&self, ptr: Ptr) -> (term: Option<Term>)
        requires
            self@.has(ptr),
        ensures
            term == self@.at(ptr),
    {
        let index = ptr.index as usize;
        self.mem[index]
    }

    fn _set_cell(&mut self, ptr: Ptr, value: Cell)
        requires
            old(self).wf(),
            old(self)@.has(ptr),
        ensures
            final(self).wf(),
            final(self)@ == old(self)@.set(ptr, Term::Cell(value)),
    {
        self._set_term(ptr, Term::Cell(value));
    }

    fn _set_term(&mut self, ptr: Ptr, value: Term)
        requires
            old(self).wf(),
            old(self)@.has(ptr),
        ensures
            final(self).wf(),
            final(self)@ == old(self)@.set(ptr, value),
    {
        proof {
            lemma_occupied_update(self@.slots, ptr.index as int, Some(value));
            lemma_occupied_bounds(self@.slots.update(ptr.index as int, Some(value)), ptr.index as int);
        }
        let index = ptr.index as usize;
        let was_empty = self.mem[index].is_none();
        self.mem.set(index, Some(value));
        if was_empty {
            self.len = self.len + 1;
        }
    }

    fn _free(&mut self, ptr: Ptr) -> (term: Term)
        requires
            old(self).wf(),
            old(self)@.has(ptr),
            old(self)@.at(ptr).is_some(),
        ensures
            final(self).wf(),
            Some(term) == old(self)@.at(ptr),
            final(self)@ == old(self)@.free(ptr),
    {
        proof {
            lemma_occupied_update(self@.slots, ptr.index as int, None);
            lemma_occupied_bounds(self@.slots, ptr.index as int);
        }
        let index = ptr.index as usize;
        let item = self.mem[index];
        self.mem.set(index, None);
        self.len = self.len - 1;
        match item {
            Some(term) => term,
            None => vstd::pervasive::unreached(),
        }
    }

    /// Visits the occupied slots in the order of their indices.
    pub fn iter(&self) -> (iter: HeapIter<'_>)
        ensures
            iter.index == 0,
            *iter.heap == *self,
    {
        HeapIter { index: 0, heap: self }
    }

    pub fn display_term(&self, term_ptr: TermPtr) -> (display: TermPtrDisplay<'_>)
        ensures
            display.term_ptr == term_ptr,
            *display.heap == *self,
    {
        TermPtrDisplay { term_ptr, heap: self }
    }

    pub fn display_cell(&self, cell_ptr: CellPtr) -> (display: CellPtrDisplay<'_>)
        ensures
            display.cell_ptr == cell_ptr,
            *display.heap == *self,
    {
        CellPtrDisplay { cell_ptr, heap: self }
    }

    /// The text of a redex: its two agents with a bowtie between them.
    pub fn display_redex(&self, left_ptr: CellPtr, right_ptr: CellPtr) -> (text: String)
        ensures
            text@ == show_cell(self@, left_ptr, DEPTH as nat) + " ⋈ "@ + show_cell(
                self@,
                right_ptr,
                DEPTH as nat,
            ),
    {
        let mut text = self.display_cell(left_ptr).to_string();
        text.append(" ⋈ ");
        text.append(self.display_cell(right_ptr).to_string().as_str());
        text
    }

    /// The text of a binding: the wire, an arrow to the left, and the
    /// agent.
    pub fn display_bind(&self, var_ptr: VarPtr, cell_ptr: CellPtr) -> (text: String)
        ensures
            text@ == show_var(var_ptr) + " ← "@ + show_cell(self@, cell_ptr, DEPTH as nat),
    {
        let mut text = var_ptr.to_string();
        text.append(" ← ");
        text.append(self.display_cell(cell_ptr).to_string().as_str());
        text
    }

    /// The text of a connection: the two wires with a double arrow between
    /// them.
    pub fn display_connect(&self, left_ptr: VarPtr, right_ptr: VarPtr) -> (text: String)
        ensures
            text@ == show_var(left_ptr) + " ↔ "@ + show_var(right_ptr),
    {
        let mut text = left_ptr.to_string();
        text.append(" ↔ ");
        text.append(right_ptr.to_string().as_str());
        text
    }
}

/// The slot that a reference to an agent names. The eraser names none; the
/// slot of index 0 stands for it here.
pub open spec fn slot_of(cell_ptr: CellPtr) -> Ptr {
    match cell_ptr {
        CellPtr::Era => Ptr { index: 0 },
        CellPtr::CtrPtr(ptr) => ptr,
        CellPtr::DupPtr(ptr) => ptr,
    }
}

/// A walk over the occupied slots of a heap.
pub struct HeapIter<'a> {
    pub index: usize,
    pub heap: &'a Heap,
}

impl<'a> HeapIter<'a> {
    /// The content of the next occupied slot, if one is left.
    pub fn next(&mut self) -> (term: Option<Term>)
        requires
            old(self).index <= old(self).heap@.slots.len(),
        ensures
            final(self).heap == old(self).heap,
            final(self).index <= final(self).heap@.slots.len(),
            match old(self).heap@.next_occupied(old(self).index as nat) {
                Some(at) => term == old(self).heap@.slots[at as int] && term.is_some() && final(self).index == at + 1,
                None => term.is_none() && final(self).index == old(self).heap@.slots.len(),
            },
    {
        while self.index < self.heap.mem.len()
            invariant
                self.heap == old(self).heap,
                old(self).index <= self.index <= self.heap@.slots.len(),
                self.heap@.next_occupied(self.index as nat) == old(self).heap@.next_occupied(
                    old(self).index as nat,
                ),
            decreases self.heap@.slots.len() - self.index,
        {
            let at = self.index;
            self.index = self.index + 1;
            match self.heap.mem[at] {
                Some(term) => {
                    return Some(term);
                },
                None => {},
            }
        }
        return None;
    }
}

/// How deep `to_string` follows agents into their ports.
pub const DEPTH: usize = 32;

/// The text of a wire.
pub open spec fn show_var(var_ptr: VarPtr) -> Seq<char> {
    "x."@ + decimal(var_ptr.0.index as nat)
}

/// The text of what a reference to an agent leads to.
pub open spec fn show_cell(heap: HeapModel, cell_ptr: CellPtr, depth: nat) -> Seq<char>
    decreases depth, 0nat,
{
    match cell_ptr {
        CellPtr::Era => "(era)"@,
        _ => if depth == 0 {
            "..."@
        } else if !heap.holds_cell(slot_of(cell_ptr)) {
            "<n/a>"@
        } else {
            let ports = heap.at(slot_of(cell_ptr)).unwrap()->Cell_0.spec_ports();
            (if cell_ptr is CtrPtr {
                "(Ctr "@
            } else {
                "(Dup "@
            }) + show_term(heap, ports.0, (depth - 1) as nat) + " "@ + show_term(
                heap,
                ports.1,
                (depth - 1) as nat,
            ) + ")"@
        },
    }
}

/// The text of a term.
pub open spec fn show_term(heap: HeapModel, term_ptr: TermPtr, depth: nat) -> Seq<char>
    decreases depth, 1nat,
{
    match term_ptr {
        TermPtr::CellPtr(cell_ptr) => show_cell(heap, cell_ptr, depth),
        TermPtr::VarPtr(var_ptr) => show_var(var_ptr),
    }
}

impl VarPtr {
    /// The text of the wire: `x.` and the index of its slot.
    pub fn to_string(&self) -> (text: String)
        ensures
            text@ == show_var(*self),
    {
        let mut text = String::from_str("x.");
        text.append(decimal_string(self.0.index as u64).as_str());
        text
    }
}

/// The text of what a reference to an agent leads to.
pub fn display_cell(heap: &Heap, cell_ptr: CellPtr, depth: usize) -> (text: String)
    ensures
        text@ == show_cell(heap@, cell_ptr, depth as nat),
    decreases depth, 0nat,
{
    let (slot, open) = match cell_ptr {
        CellPtr::Era => {
            return String::from_str("(era)");
        },
        CellPtr::CtrPtr(slot) => (slot, "(Ctr "),
        CellPtr::DupPtr(slot) => (slot, "(Dup "),
    };
    if depth == 0 {
        return String::from_str("...");
    }
    if slot.index as usize >= heap.mem.len() {
        return String::from_str("<n/a>");
    }
    match heap._get_term(slot) {
        Some(Term::Cell(cell)) => {
            let ports = cell.ports();
            let mut text = String::from_str(open);
            text.append(display_term(heap, ports.0, depth - 1).as_str());
            text.append(" ");
            text.append(display_term(heap, ports.1, depth - 1).as_str());
            text.append(")");
            text
        },
        _ => String::from_str("<n/a>"),
    }
}

/// The text of a term.
pub fn display_term(heap: &Heap, term_ptr: TermPtr, depth: usize) -> (text: String)
    ensures
        text@ == show_term(heap@, term_ptr, depth as nat),
    decreases depth, 1nat,
{
    match term_ptr {
        TermPtr::CellPtr(cell_ptr) => display_cell(heap, cell_ptr, depth),
        TermPtr::VarPtr(var_ptr) => var_ptr.to_string(),
    }
}

/// The text of a reference to an agent in a heap.
pub struct CellPtrDisplay<'a> {
    pub cell_ptr: CellPtr,
    pub heap: &'a Heap,
}

impl<'a> CellPtrDisplay<'a> {
    pub fn to_string(&self) -> (text: String)
        ensures
            text@ == show_cell(self.heap@, self.cell_ptr, DEPTH as nat),
    {
        display_cell(self.heap, self.cell_ptr, DEPTH)
    }
}

/// The text of a term reference in a heap.
pub struct TermPtrDisplay<'a> {
    pub term_ptr: TermPtr,
    pub heap: &'a Heap,
}

impl<'a> TermPtrDisplay<'a> {
    pub fn to_string(&self) -> (text: String)
        ensures
            text@ == show_term(self.heap@, self.term_ptr, DEPTH as nat),
    {
        display_term(self.heap, self.term_ptr, DEPTH)
    }
}

} // verus!
