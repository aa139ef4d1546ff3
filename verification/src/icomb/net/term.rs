//! Term references and slot contents of the two-kind calculus.

use vstd::prelude::*;

use super::cell::Cell;
use super::cell::CellPtr;
use super::equation::Port;
use super::var::Var;
use super::var::VarPtr;

verus! {

/// A reference to a term. The variant says whether it leads to an agent or
/// to a wire.
#[derive(Copy, Clone, Debug, Eq, PartialEq, Hash)]
pub enum TermPtr {
    CellPtr(CellPtr),
    VarPtr(VarPtr),
}

/// What an occupied slot holds.
#[derive(Copy, Clone, Debug, Eq, PartialEq)]
pub enum Term {
    Cell(Cell),
    Var(Var),
}

/// What can stand where a term reference is expected.
pub trait IntoTermPtr: Sized {
    /// The term reference that the value stands for.
    spec fn term_ptr(self) -> TermPtr;

    fn into_term_ptr(self) -> (term_ptr: TermPtr)
        ensures
            term_ptr == self.term_ptr(),
    ;
}

impl IntoTermPtr for TermPtr {
    open spec fn term_ptr(self) -> TermPtr {
        self
    }

    fn into_term_ptr(self) -> (term_ptr: TermPtr) {
        self
    }
}

impl IntoTermPtr for CellPtr {
    open spec fn term_ptr(self) -> TermPtr {
        TermPtr::CellPtr(self)
    }

    fn into_term_ptr(self) -> (term_ptr: TermPtr) {
        TermPtr::CellPtr(self)
    }
}

impl IntoTermPtr for VarPtr {
    open spec fn term_ptr(self) -> TermPtr {
        TermPtr::VarPtr(self)
    }

    fn into_term_ptr(self) -> (term_ptr: TermPtr) {
        TermPtr::VarPtr(self)
    }
}

impl IntoTermPtr for Port {
    open spec fn term_ptr(self) -> TermPtr {
        TermPtr::VarPtr(self.ptr)
    }

    fn into_term_ptr(self) -> (term_ptr: TermPtr) {
        TermPtr::VarPtr(self.ptr)
    }
}

} // verus!
