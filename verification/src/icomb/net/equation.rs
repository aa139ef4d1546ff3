//! Equations of the two-kind calculus, classified when they are built.

use vstd::prelude::*;

use super::cell::CellPtr;
use super::term::TermPtr;
use super::var::VarPtr;

verus! {

/// One end of a wire. An end is used once.
#[derive(Debug)]
pub struct Port {
    pub ptr: VarPtr,
}

/// An equation between two terms, by what its two ends are.
#[allow(inconsistent_fields)]
#[derive(Copy, Clone, Debug, Eq, PartialEq)]
pub enum Equation {
    /// Agent against agent.
    Redex { left_ptr: CellPtr, right_ptr: CellPtr },
    /// Wire against agent.
    Bind { var_ptr: VarPtr, cell_ptr: CellPtr },
    /// Wire against wire.
    Connect { left_ptr: VarPtr, right_ptr: VarPtr },
}

impl Equation {
    /// The equation with its two ends exchanged. A binding has its wire
    /// first either way.
    pub open spec fn mirror(self) -> Equation {
        match self {
            Equation::Redex { left_ptr, right_ptr } => Equation::Redex {
                left_ptr: right_ptr,
                right_ptr: left_ptr,
            },
            Equation::Bind { var_ptr, cell_ptr } => self,
            Equation::Connect { left_ptr, right_ptr } => Equation::Connect {
                left_ptr: right_ptr,
                right_ptr: left_ptr,
            },
        }
    }

    /// The equation between two term references.
    pub open spec fn spec_classify(left: TermPtr, right: TermPtr) -> Equation {
        match (left, right) {
            (TermPtr::CellPtr(left_ptr), TermPtr::CellPtr(right_ptr)) => Equation::Redex {
                left_ptr,
                right_ptr,
            },
            (TermPtr::CellPtr(cell_ptr), TermPtr::VarPtr(var_ptr)) => Equation::Bind {
                var_ptr,
                cell_ptr,
            },
            (TermPtr::VarPtr(var_ptr), TermPtr::CellPtr(cell_ptr)) => Equation::Bind {
                var_ptr,
                cell_ptr,
            },
            (TermPtr::VarPtr(left_ptr), TermPtr::VarPtr(right_ptr)) => Equation::Connect {
                left_ptr,
                right_ptr,
            },
        }
    }

    /// The equation between two term references: a redex between two
    /// agents, a binding between a wire and an agent, a connection between
    /// two wires.
    pub fn classify(left: TermPtr, right: TermPtr) -> (equation: Equation)
        ensures
            equation == Equation::spec_classify(left, right),
    {
        match (left, right) {
            (TermPtr::CellPtr(left_ptr), TermPtr::CellPtr(right_ptr)) => Equation::Redex {
                left_ptr,
                right_ptr,
            },
            (TermPtr::CellPtr(cell_ptr), TermPtr::VarPtr(var_ptr)) => Equation::Bind {
                var_ptr,
                cell_ptr,
            },
            (TermPtr::VarPtr(var_ptr), TermPtr::CellPtr(cell_ptr)) => Equation::Bind {
                var_ptr,
                cell_ptr,
            },
            (TermPtr::VarPtr(left_ptr), TermPtr::VarPtr(right_ptr)) => Equation::Connect {
                left_ptr,
                right_ptr,
            },
        }
    }
}

/// Exchanging the two ends of an equation exchanges them in its
/// classification and leaves the kind as it is.
pub proof fn lemma_classify_mirror(left: TermPtr, right: TermPtr)
    ensures
        Equation::spec_classify(right, left) == Equation::spec_classify(left, right).mirror(),
        Equation::spec_classify(right, left) is Redex <==> Equation::spec_classify(left, right) is Redex,
        Equation::spec_classify(right, left) is Bind <==> Equation::spec_classify(left, right) is Bind,
        Equation::spec_classify(right, left) is Connect <==> Equation::spec_classify(
            left,
            right,
        ) is Connect,
{
}

} // verus!
