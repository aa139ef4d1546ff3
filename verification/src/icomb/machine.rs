//! The evaluator of the two-kind calculus as a function on values.
//!
//! A connection links the right wire to the left one; a binding that meets a
//! linked wire empties it and goes on at the wire it was linked to. An agent
//! that meets a wire that is bound already makes a redex with what the wire
//! was bound to.

use vstd::prelude::*;

use crate::fault::Fault;
use super::net::cell::Cell;
use super::net::cell::CellPtr;
use super::net::equation::Equation;
use super::net::term::Term;
use super::net::term::TermPtr;
use super::net::var::Var;
use super::net::var::VarPtr;
use super::store::Pool;

verus! {

/// The events that are counted.
#[derive(Debug, Clone, Copy, PartialEq, Eq, Structural)]
pub enum Event {
    /// Two agents of one kind met.
    Annihilation,
    /// An eraser met an agent, or a constructor met a duplicator.
    Commutation,
    /// Two erasers met.
    Erasure,
    /// Two agents met.
    Redex,
    /// A wire was bound to an agent.
    Bind,
    /// Two wires were connected.
    Connect,
}

/// The counters as a value.
pub struct Counts {
    pub anni: nat,
    pub comm: nat,
    pub eras: nat,
    pub redexes: nat,
    pub binds: nat,
    pub connects: nat,
}

impl Counts {
    /// All counters at zero.
    pub open spec fn zero() -> Counts {
        Counts { anni: 0, comm: 0, eras: 0, redexes: 0, binds: 0, connects: 0 }
    }

    /// The value of one counter.
    pub open spec fn get(self, event: Event) -> nat {
        match event {
            Event::Annihilation => self.anni,
            Event::Commutation => self.comm,
            Event::Erasure => self.eras,
            Event::Redex => self.redexes,
            Event::Bind => self.binds,
            Event::Connect => self.connects,
        }
    }

    /// The counters with one of them at the given value.
    pub open spec fn with(self, event: Event, value: nat) -> Counts {
        match event {
            Event::Annihilation => Counts { anni: value, ..self },
            Event::Commutation => Counts { comm: value, ..self },
            Event::Erasure => Counts { eras: value, ..self },
            Event::Redex => Counts { redexes: value, ..self },
            Event::Bind => Counts { binds: value, ..self },
            Event::Connect => Counts { connects: value, ..self },
        }
    }

    /// The counters with one of them one higher.
    pub open spec fn bump(self, event: Event) -> Counts {
        match event {
            Event::Annihilation => Counts { anni: self.anni + 1, ..self },
            Event::Commutation => Counts { comm: self.comm + 1, ..self },
            Event::Erasure => Counts { eras: self.eras + 1, ..self },
            Event::Redex => Counts { redexes: self.redexes + 1, ..self },
            Event::Bind => Counts { binds: self.binds + 1, ..self },
            Event::Connect => Counts { connects: self.connects + 1, ..self },
        }
    }

    /// Every redex is counted once more, as an annihilation, a commutation
    /// or an erasure.
    pub open spec fn balanced(self) -> bool {
        self.anni + self.comm + self.eras == self.redexes
    }
}

/// The rule that rewrites two agents.
pub open spec fn rule(left: Cell, right: Cell) -> Event {
    match (left, right) {
        (Cell::Ctr(_, _), Cell::Ctr(_, _)) => Event::Annihilation,
        (Cell::Dup(_, _), Cell::Dup(_, _)) => Event::Annihilation,
        _ => Event::Commutation,
    }
}

/// An evaluation as a value: the arena, the equations that wait, the
/// counters, and the fault if there was one. Once `fault` is set nothing
/// changes any more.
pub struct State {
    pub pool: Pool,
    pub queue: Seq<Equation>,
    pub counts: Counts,
    pub fault: Option<Fault>,
}

impl State {
    /// The state stopped with the given fault, unless it had stopped before.
    pub open spec fn fail(self, fault: Fault) -> State {
        if self.fault.is_some() {
            self
        } else {
            State { fault: Some(fault), ..self }
        }
    }

    /// Counts one event.
    pub open spec fn count(self, event: Event) -> State {
        if self.fault.is_some() {
            self
        } else if self.counts.get(event) >= usize::MAX {
            self.fail(Fault::CounterOverflow)
        } else {
            State { counts: self.counts.bump(event), ..self }
        }
    }

    /// Queues an equation.
    pub open spec fn push(self, equation: Equation) -> State {
        if self.fault.is_some() {
            self
        } else {
            State { queue: self.queue.push(equation), ..self }
        }
    }

    /// Queues the equation between two term references.
    pub open spec fn reduce(self, left: TermPtr, right: TermPtr) -> State {
        self.push(Equation::spec_classify(left, right))
    }

    /// Empties a slot.
    pub open spec fn release(self, index: u32) -> State {
        if self.fault.is_some() {
            self
        } else {
            match self.pool.unreadable(index) {
                Some(fault) => self.fail(fault),
                None => State { pool: self.pool.free(index), ..self },
            }
        }
    }

    /// Why the slot does not give an agent, if it does not.
    pub open spec fn no_cell(self, index: u32) -> Option<Fault> {
        self.pool.no_cell(index)
    }

    /// Why the slot does not give a wire, if it does not.
    pub open spec fn no_var(self, index: u32) -> Option<Fault> {
        self.pool.no_var(index)
    }

    /// Writes a new state into a wire and returns what it was set to
    /// before.
    pub open spec fn swap(self, var_ptr: VarPtr, value: TermPtr) -> (State, Option<TermPtr>) {
        if self.fault.is_some() {
            (self, None)
        } else {
            match self.no_var(var_ptr.0.index) {
                Some(fault) => (self.fail(fault), None),
                None => (
                    State {
                        pool: self.pool.set(var_ptr.0.index, Term::Var(Var::holding(Some(value)))),
                        ..self
                    },
                    self.pool.at(var_ptr.0.index).unwrap()->Var_0.state(),
                ),
            }
        }
    }

    /// Hands out a fresh slot with the given content.
    pub open spec fn allocate(self, term: Term) -> State {
        if self.fault.is_some() {
            self
        } else if !self.pool.has_room() {
            self.fail(Fault::ArenaExhausted)
        } else {
            State { pool: self.pool.allocate(Some(term)), ..self }
        }
    }

    /// Overwrites the slot of a consumed agent with a new agent.
    pub open spec fn write_cell(self, index: u32, cell: Cell) -> State {
        if self.fault.is_some() {
            self
        } else if !self.pool.has(index) {
            self.fail(Fault::OutOfBounds)
        } else {
            State { pool: self.pool.set(index, Term::Cell(cell)), ..self }
        }
    }

    /// Binds the wire to the agent and follows the links that the writes
    /// uncover. A wire that was unset ends the walk. A wire that was linked
    /// is emptied and the walk goes on at the wire it was linked to. A wire
    /// that was bound is emptied, and the agent and what the wire was bound
    /// to make a redex.
    pub open spec fn bind_walk(self, var_ptr: VarPtr, cell_ptr: CellPtr) -> State
        decreases self.pool.live,
    {
        let (swapped, prior) = self.swap(var_ptr, TermPtr::CellPtr(cell_ptr));
        if swapped.fault.is_some() {
            swapped
        } else {
            match prior {
                None => swapped,
                Some(TermPtr::VarPtr(next)) => if swapped.pool.live == 0 {
                    swapped.fail(Fault::EmptySlot)
                } else {
                    swapped.release(var_ptr.0.index).bind_walk(next, cell_ptr)
                },
                Some(TermPtr::CellPtr(other)) => swapped.release(var_ptr.0.index).push(
                    Equation::Redex { left_ptr: cell_ptr, right_ptr: other },
                ),
            }
        }
    }

    /// Links the wire to `left` and follows the links that the writes
    /// uncover. A wire that was unset ends the walk. A wire that was linked
    /// is emptied and the walk goes on at the wire it was linked to. A wire
    /// that was bound is emptied and `left` is bound to what it was bound
    /// to. If the walk comes to `left` itself, the wires have closed a loop
    /// and `left` is emptied.
    pub open spec fn connect_walk(self, var_ptr: VarPtr, left: VarPtr) -> State
        decreases self.pool.live,
    {
        if self.fault.is_some() {
            self
        } else if var_ptr == left {
            self.release(left.0.index)
        } else {
            let (swapped, prior) = self.swap(var_ptr, TermPtr::VarPtr(left));
            if swapped.fault.is_some() {
                swapped
            } else {
                match prior {
                    None => swapped,
                    Some(TermPtr::VarPtr(next)) => if swapped.pool.live == 0 {
                        swapped.fail(Fault::EmptySlot)
                    } else {
                        swapped.release(var_ptr.0.index).connect_walk(next, left)
                    },
                    Some(TermPtr::CellPtr(cell_ptr)) => swapped.release(var_ptr.0.index).bind_walk(
                        left,
                        cell_ptr,
                    ),
                }
            }
        }
    }

    /// Evaluates a binding.
    pub open spec fn bind(self, var_ptr: VarPtr, cell_ptr: CellPtr) -> State {
        self.count(Event::Bind).bind_walk(var_ptr, cell_ptr)
    }

    /// Evaluates a connection.
    pub open spec fn connect(self, left: VarPtr, right: VarPtr) -> State {
        self.count(Event::Connect).connect_walk(right, left)
    }

    /// Rewrites an eraser against the agent in the slot: the agent is
    /// emptied and the eraser goes to both its ports.
    pub open spec fn erase(self, index: u32) -> State {
        match self.no_cell(index) {
            Some(fault) => self.fail(fault),
            None => {
                let ports = self.pool.at(index).unwrap()->Cell_0.spec_ports();
                let era = TermPtr::CellPtr(CellPtr::Era);
                self.count(Event::Redex).count(Event::Commutation).release(index).reduce(
                    era,
                    ports.0,
                ).reduce(era, ports.1)
            },
        }
    }

    /// Rewrites two agents of one kind: both are emptied and their ports
    /// are joined pairwise.
    pub open spec fn annihilate(self, left: u32, right: u32) -> State
        recommends
            self.no_cell(left).is_none(),
            self.no_cell(right).is_none(),
    {
        let left_ports = self.pool.at(left).unwrap()->Cell_0.spec_ports();
        let right_ports = self.pool.at(right).unwrap()->Cell_0.spec_ports();
        self.count(Event::Redex).count(Event::Annihilation).release(left).release(right).reduce(
            left_ports.0,
            right_ports.0,
        ).reduce(left_ports.1, right_ports.1)
    }

    /// Rewrites a constructor against a duplicator: each is copied, the
    /// copies are joined by four fresh wires, and each copy meets a port of
    /// the other agent. The two slots are reused for the first copy of
    /// each.
    pub open spec fn commute(self, ctr: u32, dup: u32) -> State
        recommends
            self.no_cell(ctr).is_none(),
            self.no_cell(dup).is_none(),
    {
        let ctr_ports = self.pool.at(ctr).unwrap()->Cell_0.spec_ports();
        let dup_ports = self.pool.at(dup).unwrap()->Cell_0.spec_ports();
        let counted = self.count(Event::Redex).count(Event::Commutation);
        let v1 = TermPtr::VarPtr(VarPtr::at(counted.pool.next()));
        let s1 = counted.allocate(Term::Var(Var::holding(None)));
        let v2 = TermPtr::VarPtr(VarPtr::at(s1.pool.next()));
        let s2 = s1.allocate(Term::Var(Var::holding(None)));
        let v3 = TermPtr::VarPtr(VarPtr::at(s2.pool.next()));
        let s3 = s2.allocate(Term::Var(Var::holding(None)));
        let v4 = TermPtr::VarPtr(VarPtr::at(s3.pool.next()));
        let s4 = s3.allocate(Term::Var(Var::holding(None)));
        let s5 = s4.write_cell(ctr, Cell::Ctr(v1, v2));
        let ctr_2 = CellPtr::at(s5.pool.next());
        let s6 = s5.allocate(Term::Cell(Cell::Ctr(v3, v4)));
        let s7 = s6.write_cell(dup, Cell::Dup(v1, v3));
        let dup_2 = CellPtr::at(s7.pool.next());
        let s8 = s7.allocate(Term::Cell(Cell::Dup(v2, v4)));
        s8.reduce(ctr_ports.0, TermPtr::CellPtr(CellPtr::at(dup))).reduce(
            ctr_ports.1,
            TermPtr::CellPtr(dup_2),
        ).reduce(dup_ports.0, TermPtr::CellPtr(CellPtr::at(ctr))).reduce(
            dup_ports.1,
            TermPtr::CellPtr(ctr_2),
        )
    }

    /// Evaluates a redex.
    pub open spec fn redex(self, left: CellPtr, right: CellPtr) -> State {
        if self.fault.is_some() {
            self
        } else {
            match (left, right) {
                (CellPtr::Era, CellPtr::Era) => self.count(Event::Redex).count(Event::Erasure),
                (CellPtr::Era, CellPtr::Ref(ptr)) => self.erase(ptr.index),
                (CellPtr::Ref(ptr), CellPtr::Era) => self.erase(ptr.index),
                (CellPtr::Ref(left_ptr), CellPtr::Ref(right_ptr)) => match self.no_cell(
                    left_ptr.index,
                ) {
                    Some(fault) => self.fail(fault),
                    None => match self.no_cell(right_ptr.index) {
                        Some(fault) => self.fail(fault),
                        None => match (
                            self.pool.at(left_ptr.index).unwrap()->Cell_0,
                            self.pool.at(right_ptr.index).unwrap()->Cell_0,
                        ) {
                            (Cell::Ctr(_, _), Cell::Ctr(_, _)) => self.annihilate(
                                left_ptr.index,
                                right_ptr.index,
                            ),
                            (Cell::Dup(_, _), Cell::Dup(_, _)) => self.annihilate(
                                left_ptr.index,
                                right_ptr.index,
                            ),
                            (Cell::Ctr(_, _), Cell::Dup(_, _)) => self.commute(
                                left_ptr.index,
                                right_ptr.index,
                            ),
                            (Cell::Dup(_, _), Cell::Ctr(_, _)) => self.commute(
                                right_ptr.index,
                                left_ptr.index,
                            ),
                        },
                    },
                },
            }
        }
    }

    /// Evaluates one equation.
    #[verifier::opaque]
    pub open spec fn step(self, equation: Equation) -> State {
        match equation {
            Equation::Redex { left_ptr, right_ptr } => self.redex(left_ptr, right_ptr),
            Equation::Bind { var_ptr, cell_ptr } => self.bind(var_ptr, cell_ptr),
            Equation::Connect { left_ptr, right_ptr } => self.connect(left_ptr, right_ptr),
        }
    }

    /// Evaluates equations, the one queued last first, until none waits, a
    /// fault occurs, or the steps are used up.
    pub open spec fn run(self, steps: nat) -> State
        decreases steps,
    {
        if self.fault.is_some() || self.queue.len() == 0 {
            self
        } else if steps == 0 {
            self.fail(Fault::StepLimit)
        } else {
            State { queue: self.queue.drop_last(), ..self }.step(self.queue.last()).run(
                (steps - 1) as nat,
            )
        }
    }

    /// The state that starts on the given equations, the first of which is
    /// taken up first.
    pub open spec fn load(pool: Pool, body: Seq<Equation>, counts: Counts) -> State {
        State { pool, queue: body.reverse(), counts, fault: None }
    }
}

/// A state that has stopped with a fault, or has no equation that waits,
/// stays as it is.
pub proof fn lemma_stopped(state: State, steps: nat)
    requires
        state.fault.is_some() || state.queue.len() == 0,
    ensures
        state.run(steps) == state,
{
}

/// An evaluation is a function of the net it starts from: two runs from
/// the same arena, the same equations and the same counters, with the same
/// number of steps, end in the same state. The equations of a run are taken
/// in one fixed order; nothing is claimed here of other orders.
pub proof fn lemma_eval_deterministic(
    pool: Pool,
    body: Seq<Equation>,
    counts: Counts,
    steps: nat,
    other_pool: Pool,
    other_body: Seq<Equation>,
    other_counts: Counts,
)
    requires
        pool == other_pool,
        body =~= other_body,
        counts == other_counts,
    ensures
        State::load(pool, body, counts).run(steps) == State::load(
            other_pool,
            other_body,
            other_counts,
        ).run(steps),
{
}

} // verus!
