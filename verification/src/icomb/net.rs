//! The net of the two-kind calculus: an arena, the equations that wait to
//! be evaluated, and the wires that an observer reads.

pub mod cell;
pub mod equation;
pub mod term;
pub mod var;

use vstd::prelude::*;

use self::cell::Cell;
use self::cell::CellPtr;
use self::equation::Equation;
use self::equation::Port;
use self::term::IntoTermPtr;
use self::term::Term;
use self::term::TermPtr;
use self::var::Var;
use self::var::VarPtr;
use super::store::Pool;
use super::store::Store;

verus! {

#[derive(Debug)]
pub struct Net {
    pub head: Vec<VarPtr>,
    pub body: Vec<Equation>,
    pub store: Store,
}

impl Net {
    /// The equations and the head are as before and the arena has one more
    /// slot with the given content.
    pub open spec fn grown(self, before: Net, term: Term) -> bool {
        &&& self.store.wf()
        &&& self.store@ == before.store@.allocate(Some(term))
        &&& self.body@ == before.body@
        &&& self.head@ == before.head@
    }

    /// The arena and the head are as before and the body has one more
    /// equation at its end.
    pub open spec fn extended(self, before: Net, equation: Equation) -> bool {
        &&& self.store == before.store
        &&& self.body@ == before.body@.push(equation)
        &&& self.head@ == before.head@
    }

    /// An empty net over an arena of the given capacity.
    pub fn new(capacity: u32) -> (net: Net)
        requires
            capacity > 0,
        ensures
            net.store.wf(),
            net.store@ == (Pool { slots: Seq::empty(), live: 0, capacity: capacity as nat }),
            net.body@ == Seq::<Equation>::empty(),
            net.head@ == Seq::<VarPtr>::empty(),
    {
        Net { head: Vec::new(), body: Vec::new(), store: Store::new(capacity) }
    }

    /// Hands out a fresh wire and returns its two ends.
    pub fn var(&mut self) -> (ends: (Port, Port))
        requires
            old(self).store.wf(),
            old(self).store@.has_room(),
        ensures
            final(self).grown(*old(self), Term::Var(Var::holding(None))),
            ends.0.ptr == VarPtr::at(old(self).store@.next()),
            ends.1.ptr == VarPtr::at(old(self).store@.next()),
    {
        let ptr = self.alloc_var();
        (Port { ptr }, Port { ptr })
    }

    /// Builds a constructor with the given ports.
    pub fn ctr<T1: IntoTermPtr, T2: IntoTermPtr>(&mut self, port_0: T1, port_1: T2) -> (cell_ptr:
        CellPtr)
        requires
            old(self).store.wf(),
            old(self).store@.has_room(),
        ensures
            final(self).grown(*old(self), Term::Cell(Cell::Ctr(port_0.term_ptr(), port_1.term_ptr()))),
            cell_ptr == CellPtr::at(old(self).store@.next()),
    {
        self.alloc_cell(Some(Cell::Ctr(port_0.into_term_ptr(), port_1.into_term_ptr())))
    }

    /// Builds a duplicator with the given ports.
    pub fn dup<T1: IntoTermPtr, T2: IntoTermPtr>(&mut self, port_0: T1, port_1: T2) -> (cell_ptr:
        CellPtr)
        requires
            old(self).store.wf(),
            old(self).store@.has_room(),
        ensures
            final(self).grown(*old(self), Term::Cell(Cell::Dup(port_0.term_ptr(), port_1.term_ptr()))),
            cell_ptr == CellPtr::at(old(self).store@.next()),
    {
        self.alloc_cell(Some(Cell::Dup(port_0.into_term_ptr(), port_1.into_term_ptr())))
    }

    /// The eraser. It takes no slot.
    pub fn era(&mut self) -> (cell_ptr: CellPtr)
        ensures
            cell_ptr == CellPtr::Era,
            *final(self) == *old(self),
    {
        CellPtr::Era
    }

    /// Adds the equation that binds a wire to an agent.
    pub fn bind(&mut self, wire: Port, cell: CellPtr)
        ensures
            final(self).extended(*old(self), Equation::Bind { var_ptr: wire.ptr, cell_ptr: cell }),
    {
        self.body.push(Equation::Bind { var_ptr: wire.ptr, cell_ptr: cell });
    }

    /// Adds the equation between two agents.
    pub fn redex(&mut self, left: CellPtr, right: CellPtr)
        ensures
            final(self).extended(*old(self), Equation::Redex { left_ptr: left, right_ptr: right }),
    {
        self.body.push(Equation::Redex { left_ptr: left, right_ptr: right });
    }

    /// Adds the equation that connects two wires.
    pub fn connect(&mut self, left: Port, right: Port)
        ensures
            final(self).extended(
                *old(self),
                Equation::Connect { left_ptr: left.ptr, right_ptr: right.ptr },
            ),
    {
        self.body.push(Equation::Connect { left_ptr: left.ptr, right_ptr: right.ptr });
    }

    /// Gives a term a free wire: hands out a fresh wire, sets one end of it
    /// equal to the term, and returns that end's reference.
    pub fn free<T: IntoTermPtr>(&mut self, term: T) -> (port: Port)
        requires
            old(self).store.wf(),
            old(self).store@.has_room(),
        ensures
            final(self).store.wf(),
            final(self).store@ == old(self).store@.allocate(Some(Term::Var(Var::holding(None)))),
            final(self).head@ == old(self).head@,
            port.ptr == VarPtr::at(old(self).store@.next()),
            final(self).body@ == old(self).body@.push(
                match term.term_ptr() {
                    TermPtr::CellPtr(cell_ptr) => Equation::Bind { var_ptr: port.ptr, cell_ptr },
                    TermPtr::VarPtr(var_ptr) => Equation::Connect {
                        left_ptr: port.ptr,
                        right_ptr: var_ptr,
                    },
                },
            ),
    {
        let free = self.var();
        match term.into_term_ptr() {
            TermPtr::CellPtr(cell_ptr) => self.body.push(
                Equation::Bind { var_ptr: free.0.ptr, cell_ptr },
            ),
            TermPtr::VarPtr(var_ptr) => self.body.push(
                Equation::Connect { left_ptr: free.0.ptr, right_ptr: var_ptr },
            ),
        };
        free.0
    }

    /// Hands out a fresh slot for an agent, or an empty one.
    pub fn alloc_cell(&mut self, cell: Option<Cell>) -> (cell_ptr: CellPtr)
        requires
            old(self).store.wf(),
            old(self).store@.has_room(),
        ensures
            final(self).store.wf(),
            final(self).store@ == old(self).store@.allocate(
                match cell {
                    Some(c) => Some(Term::Cell(c)),
                    None => None,
                },
            ),
            final(self).body@ == old(self).body@,
            final(self).head@ == old(self).head@,
            cell_ptr == CellPtr::at(old(self).store@.next()),
    {
        let cell_ptr = self.store.alloc_cell(cell);
        cell_ptr
    }

    /// Hands out a fresh, unset wire.
    pub fn alloc_var(&mut self) -> (var_ptr: VarPtr)
        requires
            old(self).store.wf(),
            old(self).store@.has_room(),
        ensures
            final(self).grown(*old(self), Term::Var(Var::holding(None))),
            var_ptr == VarPtr::at(old(self).store@.next()),
    {
        let var_ptr = self.store.alloc_var();
        var_ptr
    }

    /// The agent that a reference leads to. The slot is left as it is.
    pub fn consume_cell(&self, cell_ptr: CellPtr) -> (cell: Cell)
        requires
            cell_ptr is Ref,
            self.store@.holds_cell(cell_ptr->Ref_0.index),
        ensures
            Some(Term::Cell(cell)) == self.store@.at(cell_ptr->Ref_0.index),
    {
        match cell_ptr {
            CellPtr::Era => vstd::pervasive::unreached(),
            CellPtr::Ref(ptr) => {
                match self.store.consume_cell(ptr) {
                    Some(cell) => cell,
                    None => vstd::pervasive::unreached(),
                }
            },
        }
    }
}

} // verus!
