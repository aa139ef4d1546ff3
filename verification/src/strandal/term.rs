//! Term references, agents, and what a slot can hold.

use vstd::prelude::*;

use super::store::Ptr;
use super::var::Var;
use super::var::VarUse;

verus! {

/// A reference to a term: the unboxed eraser, or the slot of an agent or of
/// a wire.
#[derive(Debug, Clone, Copy, PartialEq, Eq, Structural)]
pub enum TermPtr {
    Era,
    Ptr(Ptr),
}

/// An agent with two ports. `None` for the ports stands for an agent whose
/// two ports are joined to each other. A duplicator carries an optional
/// label; two duplicators annihilate when their labels are equal.
#[derive(Debug, Clone, Copy, PartialEq, Eq)]
pub enum Cell {
    Dup(Option<(TermPtr, TermPtr)>, Option<Ptr>),
    App(Option<(TermPtr, TermPtr)>),
    Lam(Option<(TermPtr, TermPtr)>),
}

/// What an occupied slot holds.
#[derive(Debug, Clone, Copy, PartialEq, Eq)]
pub enum Term {
    Var(Var),
    Cell(Cell),
}

impl Cell {
    /// The two ports, if they have been written.
    pub open spec fn spec_ports(self) -> Option<(TermPtr, TermPtr)> {
        match self {
            Cell::Dup(ports, _) => ports,
            Cell::App(ports) => ports,
            Cell::Lam(ports) => ports,
        }
    }

    /// The two ports, if they have been written.
    pub fn ports(&self) -> (ports: Option<(TermPtr, TermPtr)>)
        ensures
            ports == self.spec_ports(),
    {
        match self {
            Cell::Dup(ports, _) => *ports,
            Cell::App(ports) => *ports,
            Cell::Lam(ports) => *ports,
        }
    }
}

impl Cell {
    /// The agent of the same kind and label with the given ports.
    pub open spec fn spec_with_ports(self, port_0: TermPtr, port_1: TermPtr) -> Cell {
        match self {
            Cell::Dup(_, label) => Cell::Dup(Some((port_0, port_1)), label),
            Cell::App(_) => Cell::App(Some((port_0, port_1))),
            Cell::Lam(_) => Cell::Lam(Some((port_0, port_1))),
        }
    }

    /// The agent of the same kind and label with the given ports.
    pub fn with_ports(&self, port_0: TermPtr, port_1: TermPtr) -> (cell: Cell)
        ensures
            cell == self.spec_with_ports(port_0, port_1),
    {
        match self {
            Cell::Dup(_, label) => Cell::Dup(Some((port_0, port_1)), *label),
            Cell::App(_) => Cell::App(Some((port_0, port_1))),
            Cell::Lam(_) => Cell::Lam(Some((port_0, port_1))),
        }
    }
}

impl Term {
    /// The agent in the slot, or the term itself if it is a wire.
    pub fn as_cell(&self) -> (cell: Result<&Cell, &Term>)
        ensures
            match *self {
                Term::Cell(c) => cell == Ok::<&Cell, &Term>(&c),
                Term::Var(_) => cell == Err::<&Cell, &Term>(self),
            },
    {
        match self {
            Term::Cell(cell) => Ok(cell),
            _ => Err(self),
        }
    }

    /// The wire in the slot, or the term itself if it is an agent.
    pub fn as_var(&self) -> (var: Result<&Var, &Term>)
        ensures
            match *self {
                Term::Var(v) => var == Ok::<&Var, &Term>(&v),
                Term::Cell(_) => var == Err::<&Var, &Term>(self),
            },
    {
        match self {
            Term::Var(var) => Ok(var),
            _ => Err(self),
        }
    }
}

impl From<VarUse> for TermPtr {
    fn from(value: VarUse) -> (term: TermPtr) {
        TermPtr::Ptr(value.ptr())
    }
}

impl vstd::std_specs::convert::FromSpecImpl<VarUse> for TermPtr {
    open spec fn obeys_from_spec() -> bool {
        true
    }

    open spec fn from_spec(value: VarUse) -> TermPtr {
        TermPtr::Ptr(value.ptr)
    }
}

} // verus!
