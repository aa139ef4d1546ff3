//! Agents of the two-kind calculus and the references to them.

use vstd::prelude::*;
use vstd::string::StringExecFns;

use super::term::Term;
use super::term::TermPtr;
use crate::icomb::store::Ptr;

verus! {

/// A reference to an agent: the unboxed eraser, or the slot of a
/// constructor or duplicator.
#[derive(Copy, Clone, Debug, Eq, PartialEq, Hash)]
pub enum CellPtr {
    Era,
    Ref(Ptr<CellPtr>),
}

impl CellPtr {
    /// The slot, unless this is the eraser.
    pub fn get_ptr(&self) -> (ptr: Option<&Ptr<CellPtr>>)
        ensures
            match *self {
                CellPtr::Era => ptr.is_none(),
                CellPtr::Ref(p) => ptr == Some(&p),
            },
    {
        match self {
            CellPtr::Era => None,
            CellPtr::Ref(ptr) => Some(ptr),
        }
    }

    /// The reference to the agent in the slot of the given index.
    pub open spec fn at(index: u32) -> CellPtr {
        CellPtr::Ref(Ptr::at(index))
    }

    /// The reference to the agent in the slot of the given index, which is
    /// rejected if it is the index that names no slot.
    pub fn try_from_index(index: u32) -> (cell_ptr: Result<CellPtr, u32>)
        ensures
            index > 0 ==> cell_ptr == Ok::<CellPtr, u32>(CellPtr::at(index)),
            index == 0 ==> cell_ptr == Err::<CellPtr, u32>(index),
    {
        if index > 0 {
            Ok(CellPtr::Ref(Ptr::new(index)))
        } else {
            Err(index)
        }
    }

    /// The reference to the agent in the slot, unless the pointer names no
    /// slot.
    pub fn from_ptr(value: Ptr<CellPtr>) -> (cell_ptr: Option<CellPtr>)
        ensures
            cell_ptr == if value.index == 0 {
                None
            } else {
                Some(CellPtr::Ref(value))
            },
    {
        if value.is_nil() {
            return None;
        } else {
            return Some(CellPtr::Ref(value));
        }
    }
}

/// A binary agent.
#[derive(Copy, Clone, Debug, PartialEq, Eq, Hash)]
pub enum Cell {
    Ctr(TermPtr, TermPtr),
    Dup(TermPtr, TermPtr),
}

impl Cell {
    pub fn is_ctr(&self) -> (ctr: bool)
        ensures
            ctr == (*self is Ctr),
    {
        match self {
            Cell::Ctr(_, _) => true,
            _ => false,
        }
    }

    pub fn is_dup(&self) -> (dup: bool)
        ensures
            dup == (*self is Dup),
    {
        match self {
            Cell::Dup(_, _) => true,
            _ => false,
        }
    }

    /// The two ports.
    pub open spec fn spec_ports(self) -> (TermPtr, TermPtr) {
        match self {
            Cell::Ctr(port_0, port_1) => (port_0, port_1),
            Cell::Dup(port_0, port_1) => (port_0, port_1),
        }
    }

    /// The two ports.
    pub fn ports(&self) -> (ports: (&TermPtr, &TermPtr))
        ensures
            *ports.0 == self.spec_ports().0,
            *ports.1 == self.spec_ports().1,
    {
        match self {
            Cell::Ctr(port_0, port_1) => (port_0, port_1),
            Cell::Dup(port_0, port_1) => (port_0, port_1),
        }
    }

    /// The text of the agent's kind, with zeros in place of its ports.
    pub fn to_string(&self) -> (text: String)
        ensures
            text@ == if *self is Ctr {
                "(Ctr 0 0)"@
            } else {
                "(Dup 0 0)"@
            },
    {
        match self {
            Cell::Ctr(_, _) => String::from_str("(Ctr 0 0)"),
            Cell::Dup(_, _) => String::from_str("(Dup 0 0)"),
        }
    }

    /// The agent, if the term is one; the term itself if not.
    pub fn try_from_term(value: Term) -> (cell: Result<Cell, Term>)
        ensures
            match value {
                Term::Cell(c) => cell == Ok::<Cell, Term>(c),
                Term::Var(_) => cell == Err::<Cell, Term>(value),
            },
    {
        match value {
            Term::Cell(cell) => Ok(cell),
            _ => Err(value),
        }
    }
}

} // verus!
