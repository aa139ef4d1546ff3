//! Text for the terms and equations of a net of the two-kind calculus, for
//! dumps.
//!
//! The eraser is written `*`, a wire `x.` and the index of its slot, an
//! agent `(Ctr p q)` or `(Dup p q)` with the texts of its ports. Agents are
//! followed into their ports down to a given depth; below it three dots
//! stand for an agent.

use vstd::prelude::*;
use vstd::string::StringExecFns;

use super::net::cell::Cell;
use super::net::cell::CellPtr;
use super::net::equation::Equation;
use super::net::term::Term;
use super::net::term::TermPtr;
use super::net::var::VarPtr;
use super::net::Net;
use super::store::Pool;
use super::store::Store;
use crate::text::decimal;
use crate::text::decimal_string;

verus! {

/// How deep `to_string` follows agents into their ports.
pub const DEPTH: usize = 32;

/// The text of a wire.
pub open spec fn show_var(var_ptr: VarPtr) -> Seq<char> {
    "x."@ + decimal(var_ptr.0.index as nat)
}

/// The text of what a reference to an agent leads to.
pub open spec fn show_cell(pool: Pool, cell_ptr: CellPtr, depth: nat) -> Seq<char>
    decreases depth, 0nat,
{
    match cell_ptr {
        CellPtr::Era => "*"@,
        CellPtr::Ref(ptr) => if depth == 0 {
            "..."@
        } else if !pool.has(ptr.index) {
            "<n/a>"@
        } else {
            match pool.at(ptr.index) {
                Some(Term::Cell(Cell::Ctr(p0, p1))) => "(Ctr "@ + show_term(
                    pool,
                    p0,
                    (depth - 1) as nat,
                ) + " "@ + show_term(pool, p1, (depth - 1) as nat) + ")"@,
                Some(Term::Cell(Cell::Dup(p0, p1))) => "(Dup "@ + show_term(
                    pool,
                    p0,
                    (depth - 1) as nat,
                ) + " "@ + show_term(pool, p1, (depth - 1) as nat) + ")"@,
                _ => "<n/a>"@,
            }
        },
    }
}

/// The text of a term.
pub open spec fn show_term(pool: Pool, term_ptr: TermPtr, depth: nat) -> Seq<char>
    decreases depth, 1nat,
{
    match term_ptr {
        TermPtr::CellPtr(cell_ptr) => show_cell(pool, cell_ptr, depth),
        TermPtr::VarPtr(var_ptr) => show_var(var_ptr),
    }
}

/// The text of a redex: its two agents with a bowtie between them.
pub open spec fn show_redex(pool: Pool, left: CellPtr, right: CellPtr) -> Seq<char> {
    show_cell(pool, left, DEPTH as nat) + " ⋈ "@ + show_cell(pool, right, DEPTH as nat)
}

/// The text of a binding: the wire, an arrow to the left, and the agent.
pub open spec fn show_bind(pool: Pool, var_ptr: VarPtr, cell_ptr: CellPtr) -> Seq<char> {
    show_var(var_ptr) + " ← "@ + show_cell(pool, cell_ptr, DEPTH as nat)
}

/// The text of a connection: the two wires with a double arrow between
/// them.
pub open spec fn show_connect(left: VarPtr, right: VarPtr) -> Seq<char> {
    show_var(left) + " ↔ "@ + show_var(right)
}

/// The text of an equation. A binding is written with a double arrow.
pub open spec fn show_equation(pool: Pool, equation: Equation) -> Seq<char> {
    match equation {
        Equation::Redex { left_ptr, right_ptr } => show_redex(pool, left_ptr, right_ptr),
        Equation::Bind { var_ptr, cell_ptr } => show_var(var_ptr) + " ↔ "@ + show_cell(
            pool,
            cell_ptr,
            DEPTH as nat,
        ),
        Equation::Connect { left_ptr, right_ptr } => show_connect(left_ptr, right_ptr),
    }
}

/// The texts of the wires with a comma and a blank between them.
pub open spec fn show_head(head: Seq<VarPtr>) -> Seq<char>
    decreases head.len(),
{
    if head.len() == 0 {
        Seq::empty()
    } else if head.len() == 1 {
        show_var(head[0])
    } else {
        show_head(head.drop_last()) + ", "@ + show_var(head.last())
    }
}

/// The texts of the equations with a comma and a blank between them.
pub open spec fn show_body(pool: Pool, body: Seq<Equation>) -> Seq<char>
    decreases body.len(),
{
    if body.len() == 0 {
        Seq::empty()
    } else if body.len() == 1 {
        show_equation(pool, body[0])
    } else {
        show_body(pool, body.drop_last()) + ", "@ + show_equation(pool, body.last())
    }
}

/// The text of a net: its head and its body between double angle brackets.
pub open spec fn show_net(pool: Pool, head: Seq<VarPtr>, body: Seq<Equation>) -> Seq<char> {
    "≪ "@ + show_head(head) + " | "@ + show_body(pool, body) + " ≫"@
}

/// The text of a wire.
pub fn display_var(var_ptr: VarPtr) -> (text: String)
    ensures
        text@ == show_var(var_ptr),
{
    let mut text = String::from_str("x.");
    text.append(decimal_string(var_ptr.0.get_index() as u64).as_str());
    text
}

/// The text of what a reference to an agent leads to.
pub fn display_cell(store: &Store, cell_ptr: CellPtr, depth: usize) -> (text: String)
    requires
        store.wf(),
    ensures
        text@ == show_cell(store@, cell_ptr, depth as nat),
    decreases depth, 0nat,
{
    match cell_ptr {
        CellPtr::Era => String::from_str("*"),
        CellPtr::Ref(ptr) => {
            if depth == 0 {
                return String::from_str("...");
            }
            match store.look(ptr.get_index()) {
                Ok(Term::Cell(cell)) => {
                    let mut text = if cell.is_ctr() {
                        String::from_str("(Ctr ")
                    } else {
                        String::from_str("(Dup ")
                    };
                    let ports = cell.ports();
                    text.append(display_term(store, *ports.0, depth - 1).as_str());
                    text.append(" ");
                    text.append(display_term(store, *ports.1, depth - 1).as_str());
                    text.append(")");
                    text
                },
                _ => String::from_str("<n/a>"),
            }
        },
    }
}

/// The text of a term.
pub fn display_term(store: &Store, term_ptr: TermPtr, depth: usize) -> (text: String)
    requires
        store.wf(),
    ensures
        text@ == show_term(store@, term_ptr, depth as nat),
    decreases depth, 1nat,
{
    match term_ptr {
        TermPtr::CellPtr(cell_ptr) => display_cell(store, cell_ptr, depth),
        TermPtr::VarPtr(var_ptr) => display_var(var_ptr),
    }
}

/// The text of a reference to an agent in a store.
pub struct CellPtrDisplay<'a> {
    pub cell_ptr: &'a CellPtr,
    pub store: &'a Store,
}

impl<'a> CellPtrDisplay<'a> {
    pub fn to_string(&self) -> (text: String)
        requires
            self.store.wf(),
        ensures
            text@ == show_cell(self.store@, *self.cell_ptr, DEPTH as nat),
    {
        display_cell(self.store, *self.cell_ptr, DEPTH)
    }
}

/// The text of a term reference in a store.
pub struct TermPtrDisplay<'a> {
    pub term_ptr: &'a TermPtr,
    pub store: &'a Store,
}

impl<'a> TermPtrDisplay<'a> {
    pub fn to_string(&self) -> (text: String)
        requires
            self.store.wf(),
        ensures
            text@ == show_term(self.store@, *self.term_ptr, DEPTH as nat),
    {
        display_term(self.store, *self.term_ptr, DEPTH)
    }
}

/// The text of an equation in a store.
pub struct EquationDisplay<'a>(pub &'a Equation, pub &'a Store);

impl<'a> EquationDisplay<'a> {
    pub fn to_string(&self) -> (text: String)
        requires
            self.1.wf(),
        ensures
            text@ == show_equation(self.1@, *self.0),
    {
        match self.0 {
            Equation::Redex { left_ptr, right_ptr } => self.1.display_redex(left_ptr, right_ptr),
            Equation::Bind { var_ptr, cell_ptr } => {
                let mut text = display_var(*var_ptr);
                text.append(" ↔ ");
                text.append(self.1.display_cell(cell_ptr).to_string().as_str());
                text
            },
            Equation::Connect { left_ptr, right_ptr } => self.1.display_connect(
                *left_ptr,
                *right_ptr,
            ),
        }
    }
}

impl VarPtr {
    /// The text of the wire: `x.` and the index of its slot.
    pub fn to_string(&self) -> (text: String)
        ensures
            text@ == show_var(*self),
    {
        display_var(*self)
    }
}

impl Store {
    pub fn display_term<'a>(&'a self, term_ptr: &'a TermPtr) -> (display: TermPtrDisplay<'a>)
        ensures
            display.term_ptr == term_ptr,
            display.store == self,
    {
        TermPtrDisplay { term_ptr, store: self }
    }

    pub fn display_cell<'a>(&'a self, cell_ptr: &'a CellPtr) -> (display: CellPtrDisplay<'a>)
        ensures
            display.cell_ptr == cell_ptr,
            display.store == self,
    {
        CellPtrDisplay { cell_ptr, store: self }
    }

    /// The text of a redex.
    pub fn display_redex(&self, left_ptr: &CellPtr, right_ptr: &CellPtr) -> (text: String)
        requires
            self.wf(),
        ensures
            text@ == show_redex(self@, *left_ptr, *right_ptr),
    {
        let mut text = self.display_cell(left_ptr).to_string();
        text.append(" ⋈ ");
        text.append(self.display_cell(right_ptr).to_string().as_str());
        text
    }

    /// The text of a binding.
    pub fn display_bind(&self, var_ptr: &VarPtr, cell_ptr: &CellPtr) -> (text: String)
        requires
            self.wf(),
        ensures
            text@ == show_bind(self@, *var_ptr, *cell_ptr),
    {
        let mut text = display_var(*var_ptr);
        text.append(" ← ");
        text.append(self.display_cell(cell_ptr).to_string().as_str());
        text
    }

    /// The text of a connection.
    pub fn display_connect(&self, left_ptr: VarPtr, right_ptr: VarPtr) -> (text: String)
        ensures
            text@ == show_connect(left_ptr, right_ptr),
    {
        let mut text = display_var(left_ptr);
        text.append(" ↔ ");
        text.append(display_var(right_ptr).as_str());
        text
    }
}

impl Net {
    pub fn display_equation<'a>(&'a self, eqn: &'a Equation, store: &'a Store) -> (display:
        EquationDisplay<'a>)
        ensures
            display.0 == eqn,
            display.1 == store,
    {
        EquationDisplay(eqn, store)
    }

    /// The text of the head: its wires with commas between them.
    pub fn head_to_string(&self) -> (text: String)
        ensures
            text@ == show_head(self.head@),
    {
        let mut text = String::new();
        let mut i: usize = 0;
        while i < self.head.len()
            invariant
                0 <= i <= self.head@.len(),
                text@ == show_head(self.head@.take(i as int)),
            decreases self.head@.len() - i,
        {
            proof {
                assert(self.head@.take(i + 1).drop_last() =~= self.head@.take(i as int));
                assert(self.head@.take(i as int).len() == i);
            }
            if i > 0 {
                text.append(", ");
            }
            text.append(display_var(self.head[i]).as_str());
            assert(text@ =~= show_head(self.head@.take(i + 1)));
            i = i + 1;
        }
        assert(self.head@.take(self.head@.len() as int) =~= self.head@);
        text
    }

    /// The text of the body: its equations with commas between them.
    pub fn body_to_string(&self) -> (text: String)
        requires
            self.store.wf(),
        ensures
            text@ == show_body(self.store@, self.body@),
    {
        let mut text = String::new();
        let mut i: usize = 0;
        while i < self.body.len()
            invariant
                0 <= i <= self.body@.len(),
                self.store.wf(),
                text@ == show_body(self.store@, self.body@.take(i as int)),
            decreases self.body@.len() - i,
        {
            proof {
                assert(self.body@.take(i + 1).drop_last() =~= self.body@.take(i as int));
                assert(self.body@.take(i as int).len() == i);
            }
            if i > 0 {
                text.append(", ");
            }
            text.append(self.display_equation(&self.body[i], &self.store).to_string().as_str());
            assert(text@ =~= show_body(self.store@, self.body@.take(i + 1)));
            i = i + 1;
        }
        assert(self.body@.take(self.body@.len() as int) =~= self.body@);
        text
    }

    /// The text of the net.
    pub fn to_string(&self) -> (text: String)
        requires
            self.store.wf(),
        ensures
            text@ == show_net(self.store@, self.head@, self.body@),
    {
        let mut text = String::from_str("≪ ");
        text.append(self.head_to_string().as_str());
        text.append(" | ");
        text.append(self.body_to_string().as_str());
        text.append(" ≫");
        text
    }
}

} // verus!
