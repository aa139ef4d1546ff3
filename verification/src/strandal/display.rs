//! Text for the terms of a net, for dumps.
//!
//! An agent is written with its symbol, the index of its slot if it has
//! one, its two ports and, for a duplicator with a label, the label in
//! braces. A wire is written `x.` and the index of its slot, whatever its
//! state. Agents are followed into their ports down to a given depth; below
//! it three dots stand for a term.

use vstd::prelude::*;
use vstd::string::StringExecFns;

use crate::text::decimal;
use crate::text::decimal_string;
use super::store::Arena;
use super::store::Ptr;
use super::store::Store;
use super::term::Cell;
use super::term::Term;
use super::term::TermPtr;
use super::var::Var;

verus! {

/// How deep `to_string` follows agents into their ports.
pub const DEPTH: usize = 32;

/// The text of a wire.
pub open spec fn show_var(ptr: Ptr) -> Seq<char> {
    "x."@ + decimal(ptr.0 as nat)
}

/// The text of an agent with the given symbol, whose ports have the given
/// texts.
pub open spec fn show_agent(
    symbol: Seq<char>,
    ptr: Option<Ptr>,
    ports: Option<(Seq<char>, Seq<char>)>,
    lbl: Option<Ptr>,
) -> Seq<char> {
    match ports {
        Some((p0, p1)) => {
            let name = match ptr {
                Some(ptr) => symbol + "."@ + decimal(ptr.0 as nat),
                None => symbol,
            };
            let open = "("@ + name + " "@ + p0 + " "@ + p1;
            match lbl {
                Some(lbl) => open + " {"@ + decimal(lbl.0 as nat) + "})"@,
                None => open + ")"@,
            }
        },
        None => match ptr {
            Some(ptr) => "(@#"@ + decimal(ptr.0 as nat) + " ⊢ ⊣)"@,
            None => "(@ ⊢ ⊣)"@,
        },
    }
}

/// The symbol of an agent's kind.
pub open spec fn symbol_of(cell: Cell) -> Seq<char> {
    match cell {
        Cell::Dup(_, _) => "δ"@,
        Cell::App(_) => "@"@,
        Cell::Lam(_) => "λ"@,
    }
}

/// The label of a duplicator.
pub open spec fn label_of(cell: Cell) -> Option<Ptr> {
    match cell {
        Cell::Dup(_, lbl) => lbl,
        _ => None,
    }
}

/// The text of what a slot holds.
pub open spec fn show_slot(arena: Arena, ptr: Ptr, depth: nat) -> Seq<char>
    decreases depth, 1nat,
{
    if !arena.has(ptr) {
        "<n/a>"@
    } else {
        match arena.at(ptr) {
            Some(Term::Cell(cell)) => show_cell(arena, Some(ptr), cell, depth),
            Some(Term::Var(_)) => show_var(ptr),
            None => "<n/a>"@,
        }
    }
}

/// The text of a term.
pub open spec fn show_term(arena: Arena, term: TermPtr, depth: nat) -> Seq<char>
    decreases depth, 2nat,
{
    match term {
        TermPtr::Era => "ε"@,
        TermPtr::Ptr(ptr) => show_slot(arena, ptr, depth),
    }
}

/// The text of an agent.
pub open spec fn show_cell(arena: Arena, ptr: Option<Ptr>, cell: Cell, depth: nat) -> Seq<char>
    decreases depth, 0nat,
{
    if depth == 0 {
        "..."@
    } else {
        show_agent(
            symbol_of(cell),
            ptr,
            match cell.spec_ports() {
                Some((p0, p1)) => Some(
                    (
                        show_term(arena, p0, (depth - 1) as nat),
                        show_term(arena, p1, (depth - 1) as nat),
                    ),
                ),
                None => None,
            },
            label_of(cell),
        )
    }
}

/// The text of a wire together with its slot.
pub struct VarDisplay<'a>(pub Ptr, pub &'a Var);

impl<'a> VarDisplay<'a> {
    pub fn to_string(&self) -> (text: String)
        ensures
            text@ == show_var(self.0),
    {
        let mut text = String::from_str("x.");
        text.append(decimal_string(self.0.index() as u64).as_str());
        text
    }
}

/// The text of what a slot of a store holds.
pub struct CellPtrDisplay<'a>(pub &'a Store, pub Ptr);

impl<'a> CellPtrDisplay<'a> {
    pub fn to_string(&self) -> (text: String)
        requires
            self.0.wf(),
        ensures
            text@ == show_slot(self.0@, self.1, DEPTH as nat),
    {
        display_slot(self.0, self.1, DEPTH)
    }
}

/// The text of an agent that is in a slot of a store or in none.
pub struct CellDisplay<'a>(pub &'a Store, pub Option<Ptr>, pub &'a Cell);

impl<'a> CellDisplay<'a> {
    pub const ERA_SYMBOL: &'static str = "ε";

    pub const DUP_SYMBOL: &'static str = "δ";

    pub const APP_SYMBOL: &'static str = "@";

    pub const LAM_SYMBOL: &'static str = "λ";

    pub fn to_string(&self) -> (text: String)
        requires
            self.0.wf(),
        ensures
            text@ == show_cell(self.0@, self.1, *self.2, DEPTH as nat),
    {
        display_agent(self.0, self.1, self.2, DEPTH)
    }
}

/// The text of a term of a store.
pub struct TermDisplay<'a>(pub &'a Store, pub &'a TermPtr);

impl<'a> TermDisplay<'a> {
    pub fn to_string(&self) -> (text: String)
        requires
            self.0.wf(),
        ensures
            text@ == show_term(self.0@, *self.1, DEPTH as nat),
    {
        display_term(self.0, *self.1, DEPTH)
    }
}

/// The text of what a slot holds.
pub fn display_slot(store: &Store, ptr: Ptr, depth: usize) -> (text: String)
    requires
        store.wf(),
    ensures
        text@ == show_slot(store@, ptr, depth as nat),
    decreases depth, 1nat,
{
    if ptr.index() >= store.next() {
        String::from_str("<n/a>")
    } else {
        match store.get(ptr) {
            Some(Term::Cell(cell)) => display_agent(store, Some(ptr), cell, depth),
            Some(Term::Var(var)) => VarDisplay(ptr, var).to_string(),
            None => String::from_str("<n/a>"),
        }
    }
}

/// The text of a term.
pub fn display_term(store: &Store, term: TermPtr, depth: usize) -> (text: String)
    requires
        store.wf(),
    ensures
        text@ == show_term(store@, term, depth as nat),
    decreases depth, 2nat,
{
    match term {
        TermPtr::Era => String::from_str("ε"),
        TermPtr::Ptr(ptr) => display_slot(store, ptr, depth),
    }
}

/// The text of an agent.
pub fn display_agent(store: &Store, ptr: Option<Ptr>, cell: &Cell, depth: usize) -> (text: String)
    requires
        store.wf(),
    ensures
        text@ == show_cell(store@, ptr, *cell, depth as nat),
    decreases depth, 0nat,
{
    if depth == 0 {
        return String::from_str("...");
    }
    let ports = match cell.ports() {
        Some((p0, p1)) => Some(
            (display_term(store, p0, depth - 1), display_term(store, p1, depth - 1)),
        ),
        None => None,
    };
    match cell {
        Cell::Dup(_, lbl) => display_cell("δ", &ports, lbl, ptr),
        Cell::App(_) => display_cell("@", &ports, &None, ptr),
        Cell::Lam(_) => display_cell("λ", &ports, &None, ptr),
    }
}

/// The text of an agent with the given symbol, whose ports have the given
/// texts.
pub fn display_cell(
    symbol: &'static str,
    ports: &Option<(String, String)>,
    lbl: &Option<Ptr>,
    ptr: Option<Ptr>,
) -> (text: String)
    ensures
        text@ == show_agent(
            symbol@,
            ptr,
            match *ports {
                Some((p0, p1)) => Some((p0@, p1@)),
                None => None,
            },
            *lbl,
        ),
{
    match ports {
        Some((p0, p1)) => {
            let mut text = String::from_str("(");
            match ptr {
                Some(ptr) => {
                    let mut name = String::from_str(symbol);
                    name.append(".");
                    name.append(decimal_string(ptr.index() as u64).as_str());
                    text.append(name.as_str());
                },
                None => {
                    text.append(symbol);
                },
            }
            text.append(" ");
            text.append(p0.as_str());
            text.append(" ");
            text.append(p1.as_str());
            match lbl {
                Some(lbl) => {
                    text.append(" {");
                    text.append(decimal_string(lbl.index() as u64).as_str());
                    text.append("})");
                },
                None => {
                    text.append(")");
                },
            }
            text
        },
        None => match ptr {
            Some(ptr) => {
                let mut text = String::from_str("(@#");
                text.append(decimal_string(ptr.index() as u64).as_str());
                text.append(" ⊢ ⊣)");
                text
            },
            None => String::from_str("(@ ⊢ ⊣)"),
        },
    }
}

} // verus!
