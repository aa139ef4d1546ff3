//! The evaluator of the two-kind calculus. Equations are taken from an
//! explicit queue, the one queued last first; each function does to the
//! store, the queue and the counters what its counterpart in the model does
//! to a state.

use vstd::prelude::*;

use super::machine::lemma_stopped;
use super::machine::Counts;
use super::machine::Event;
use super::machine::State;
use super::net::cell::Cell;
use super::net::cell::CellPtr;
use super::net::equation::Equation;
use super::net::term::Term;
use super::net::term::TermPtr;
use super::net::var::Var;
use super::net::var::VarPtr;
use super::net::Net;
use super::store::Ptr;
use super::store::Store;
use crate::fault::fault_of;
use crate::fault::Fault;

verus! {

/// The evaluator and its counters.
pub struct Runtime {
    anni: usize,
    comm: usize,
    eras: usize,
    redexes: usize,
    binds: usize,
    connects: usize,
}

/// The state that an evaluation has in hand.
pub open spec fn state(
    store: Store,
    queue: Vec<Equation>,
    runtime: Runtime,
    fault: Option<Fault>,
) -> State {
    State { pool: store@, queue: queue@, counts: runtime.counts(), fault }
}

impl Runtime {
    /// The counters as a value.
    pub closed spec fn counts(&self) -> Counts {
        Counts {
            anni: self.anni as nat,
            comm: self.comm as nat,
            eras: self.eras as nat,
            redexes: self.redexes as nat,
            binds: self.binds as nat,
            connects: self.connects as nat,
        }
    }

    pub fn new() -> (runtime: Runtime)
        ensures
            runtime.counts() == Counts::zero(),
    {
        Runtime { anni: 0, comm: 0, eras: 0, redexes: 0, binds: 0, connects: 0 }
    }

    pub fn annihilations(&self) -> (n: usize)
        ensures
            n == self.counts().anni,
    {
        self.anni
    }

    pub fn inc_annihilations(&mut self)
        requires
            old(self).counts().anni < usize::MAX,
        ensures
            final(self).counts() == old(self).counts().bump(Event::Annihilation),
    {
        self.anni = self.anni + 1;
    }

    pub fn commutations(&self) -> (n: usize)
        ensures
            n == self.counts().comm,
    {
        self.comm
    }

    pub fn inc_comm(&mut self)
        requires
            old(self).counts().comm < usize::MAX,
        ensures
            final(self).counts() == old(self).counts().bump(Event::Commutation),
    {
        self.comm = self.comm + 1;
    }

    pub fn erasures(&self) -> (n: usize)
        ensures
            n == self.counts().eras,
    {
        self.eras
    }

    pub fn inc_erasures(&mut self)
        requires
            old(self).counts().eras < usize::MAX,
        ensures
            final(self).counts() == old(self).counts().bump(Event::Erasure),
    {
        self.eras = self.eras + 1;
    }

    pub fn redexes(&self) -> (n: usize)
        ensures
            n == self.counts().redexes,
    {
        self.redexes
    }

    pub fn inc_redexes(&mut self)
        requires
            old(self).counts().redexes < usize::MAX,
        ensures
            final(self).counts() == old(self).counts().bump(Event::Redex),
    {
        self.redexes = self.redexes + 1;
    }

    pub fn binds(&self) -> (n: usize)
        ensures
            n == self.counts().binds,
    {
        self.binds
    }

    pub fn inc_binds(&mut self)
        requires
            old(self).counts().binds < usize::MAX,
        ensures
            final(self).counts() == old(self).counts().bump(Event::Bind),
    {
        self.binds = self.binds + 1;
    }

    pub fn connects(&self) -> (n: usize)
        ensures
            n == self.counts().connects,
    {
        self.connects
    }

    pub fn inc_connects(&mut self)
        requires
            old(self).counts().connects < usize::MAX,
        ensures
            final(self).counts() == old(self).counts().bump(Event::Connect),
    {
        self.connects = self.connects + 1;
    }

    /// Sets one counter to the given value and leaves the others.
    pub fn set(&mut self, event: Event, value: usize)
        ensures
            final(self).counts() == old(self).counts().with(event, value as nat),
    {
        match event {
            Event::Annihilation => {
                self.anni = value;
            },
            Event::Commutation => {
                self.comm = value;
            },
            Event::Erasure => {
                self.eras = value;
            },
            Event::Redex => {
                self.redexes = value;
            },
            Event::Bind => {
                self.binds = value;
            },
            Event::Connect => {
                self.connects = value;
            },
        }
    }

    /// Counts one event, unless its counter is at its maximum.
    pub fn count(&mut self, event: Event) -> (done: Result<(), Fault>)
        ensures
            done is Ok <==> old(self).counts().get(event) < usize::MAX,
            done is Ok ==> final(self).counts() == old(self).counts().bump(event),
            done is Err ==> done == Err::<(), Fault>(Fault::CounterOverflow) && final(self).counts()
                == old(self).counts(),
    {
        let value = match event {
            Event::Annihilation => self.anni,
            Event::Commutation => self.comm,
            Event::Erasure => self.eras,
            Event::Redex => self.redexes,
            Event::Bind => self.binds,
            Event::Connect => self.connects,
        };
        if value == usize::MAX {
            return Err(Fault::CounterOverflow);
        }
        match event {
            Event::Annihilation => self.inc_annihilations(),
            Event::Commutation => self.inc_comm(),
            Event::Erasure => self.inc_erasures(),
            Event::Redex => self.inc_redexes(),
            Event::Bind => self.inc_binds(),
            Event::Connect => self.inc_connects(),
        }
        Ok(())
    }

    /// Queues the redex between two agents.
    pub fn spawn_redex(&self, queue: &mut Vec<Equation>, left_ptr: CellPtr, right_ptr: CellPtr)
        ensures
            final(queue)@ == old(queue)@.push(Equation::Redex { left_ptr, right_ptr }),
    {
        queue.push(Equation::Redex { left_ptr, right_ptr });
    }

    /// Queues the equation between two term references.
    pub fn reduce_equation(
        &self,
        queue: &mut Vec<Equation>,
        left_term_ptr: TermPtr,
        right_term_ptr: TermPtr,
    )
        ensures
            final(queue)@ == old(queue)@.push(
                Equation::spec_classify(left_term_ptr, right_term_ptr),
            ),
    {
        match (left_term_ptr, right_term_ptr) {
            (TermPtr::CellPtr(left_ptr), TermPtr::CellPtr(right_ptr)) => {
                self.spawn_redex(queue, left_ptr, right_ptr);
            },
            (TermPtr::CellPtr(cell_ptr), TermPtr::VarPtr(var_ptr)) => {
                queue.push(Equation::Bind { var_ptr, cell_ptr });
            },
            (TermPtr::VarPtr(var_ptr), TermPtr::CellPtr(cell_ptr)) => {
                queue.push(Equation::Bind { var_ptr, cell_ptr });
            },
            (TermPtr::VarPtr(left_ptr), TermPtr::VarPtr(right_ptr)) => {
                queue.push(Equation::Connect { left_ptr, right_ptr });
            },
        }
    }

    /// Queues the equation between a term reference and an agent.
    pub fn eval_equation_for_cell(
        &self,
        queue: &mut Vec<Equation>,
        left_term_ptr: TermPtr,
        right_cell_ptr: CellPtr,
    )
        ensures
            final(queue)@ == old(queue)@.push(
                Equation::spec_classify(left_term_ptr, TermPtr::CellPtr(right_cell_ptr)),
            ),
    {
        match left_term_ptr {
            TermPtr::CellPtr(left_cell_ptr) => {
                self.spawn_redex(queue, left_cell_ptr, right_cell_ptr);
            },
            TermPtr::VarPtr(var_ptr) => {
                queue.push(Equation::Bind { var_ptr, cell_ptr: right_cell_ptr });
            },
        }
    }

    /// The agent in a slot.
    pub fn get_cell(&self, store: &Store, index: u32) -> (cell: Result<Cell, Fault>)
        requires
            store.wf(),
        ensures
            match store@.no_cell(index) {
                Some(fault) => cell == Err::<Cell, Fault>(fault),
                None => cell == Ok::<Cell, Fault>(store@.at(index).unwrap()->Cell_0),
            },
    {
        match store.look(index) {
            Err(fault) => Err(fault),
            Ok(Term::Var(_)) => Err(Fault::KindMismatch),
            Ok(Term::Cell(cell)) => Ok(cell),
        }
    }

    /// Empties a slot.
    pub fn release(&self, store: &mut Store, index: u32) -> (done: Result<(), Fault>)
        requires
            old(store).wf(),
        ensures
            final(store).wf(),
            match old(store)@.unreadable(index) {
                Some(fault) => done == Err::<(), Fault>(fault) && final(store)@ == old(store)@,
                None => done is Ok && final(store)@ == old(store)@.free(index),
            },
    {
        match store.look(index) {
            Err(fault) => Err(fault),
            Ok(_) => {
                store.free_var(VarPtr(Ptr::new(index)));
                Ok(())
            },
        }
    }

    /// Writes a new state into a wire and returns what it was set to before.
    pub fn swap(&self, store: &mut Store, var_ptr: VarPtr, value: TermPtr) -> (prior: Result<
        Option<TermPtr>,
        Fault,
    >)
        requires
            old(store).wf(),
        ensures
            final(store).wf(),
            match old(store)@.no_var(var_ptr.0.index) {
                Some(fault) => prior == Err::<Option<TermPtr>, Fault>(fault) && final(store)@ == old(store)@,
                None => prior == Ok::<Option<TermPtr>, Fault>(
                    old(store)@.at(var_ptr.0.index).unwrap()->Var_0.state(),
                ) && final(store)@ == old(store)@.set(
                    var_ptr.0.index,
                    Term::Var(Var::holding(Some(value))),
                ),
            },
    {
        match store.look(var_ptr.0.index) {
            Err(fault) => Err(fault),
            Ok(Term::Cell(_)) => Err(Fault::KindMismatch),
            Ok(Term::Var(_)) => Ok(store.swap_var(&var_ptr, value)),
        }
    }

    /// Hands out a fresh slot with the given content and returns its index.
    pub fn allocate(&self, store: &mut Store, term: Term) -> (index: Result<u32, Fault>)
        requires
            old(store).wf(),
        ensures
            final(store).wf(),
            index is Ok ==> index.unwrap() > 0,
            if old(store)@.has_room() {
                index == Ok::<u32, Fault>(old(store)@.next()) && final(store)@ == old(store)@.allocate(Some(term))
            } else {
                index == Err::<u32, Fault>(Fault::ArenaExhausted) && final(store)@ == old(store)@
            },
    {
        if store.has_room() {
            Ok(store.allocate(Some(term)))
        } else {
            Err(Fault::ArenaExhausted)
        }
    }

    /// Overwrites the slot of a consumed agent with a new agent.
    pub fn write_cell(&self, store: &mut Store, index: u32, cell: Cell) -> (done: Result<(), Fault>)
        requires
            old(store).wf(),
        ensures
            final(store).wf(),
            if old(store)@.has(index) {
                done is Ok && final(store)@ == old(store)@.set(index, Term::Cell(cell))
            } else {
                done == Err::<(), Fault>(Fault::OutOfBounds) && final(store)@ == old(store)@
            },
    {
        if index == 0 || index >= store.next() {
            Err(Fault::OutOfBounds)
        } else {
            store.write_cell(&Ptr::new(index), cell);
            Ok(())
        }
    }

    /// Binds the wire to the agent and follows the links that the writes
    /// uncover.
    pub fn eval_bind_walk(
        &mut self,
        store: &mut Store,
        queue: &mut Vec<Equation>,
        var_ptr: VarPtr,
        cell_ptr: CellPtr,
    ) -> (done: Result<(), Fault>)
        requires
            old(store).wf(),
        ensures
            final(store).wf(),
            state(*final(store), *final(queue), *final(self), fault_of(done)) == state(
                *old(store),
                *old(queue),
                *old(self),
                None,
            ).bind_walk(var_ptr, cell_ptr),
    {
        let mut current = var_ptr;
        loop
            invariant
                store.wf(),
                state(*old(store), *old(queue), *old(self), None).bind_walk(var_ptr, cell_ptr)
                    == state(*store, *queue, *self, None).bind_walk(current, cell_ptr),
            decreases store@.live,
        {
            let ghost before = state(*store, *queue, *self, None);
            match self.swap(store, current, TermPtr::CellPtr(cell_ptr)) {
                Err(fault) => {
                    return Err(fault);
                },
                Ok(None) => {
                    return Ok(());
                },
                Ok(Some(TermPtr::VarPtr(next))) => {
                    proof {
                        store@.lemma_free_wf(current.0.index);
                    }
                    match self.release(store, current.0.index) {
                        Err(fault) => {
                            return Err(fault);
                        },
                        Ok(()) => {},
                    }
                    current = next;
                },
                Ok(Some(TermPtr::CellPtr(other))) => {
                    match self.release(store, current.0.index) {
                        Err(fault) => {
                            return Err(fault);
                        },
                        Ok(()) => {},
                    }
                    self.spawn_redex(queue, cell_ptr, other);
                    return Ok(());
                },
            }
        }
    }

    /// Links the wire to `left` and follows the links that the writes
    /// uncover.
    pub fn eval_connect_walk(
        &mut self,
        store: &mut Store,
        queue: &mut Vec<Equation>,
        var_ptr: VarPtr,
        left: VarPtr,
    ) -> (done: Result<(), Fault>)
        requires
            old(store).wf(),
        ensures
            final(store).wf(),
            state(*final(store), *final(queue), *final(self), fault_of(done)) == state(
                *old(store),
                *old(queue),
                *old(self),
                None,
            ).connect_walk(var_ptr, left),
    {
        let mut current = var_ptr;
        loop
            invariant
                store.wf(),
                state(*old(store), *old(queue), *old(self), None).connect_walk(var_ptr, left)
                    == state(*store, *queue, *self, None).connect_walk(current, left),
            decreases store@.live,
        {
            if current.0.index == left.0.index {
                // the wires have closed a loop
                return self.release(store, left.0.index);
            }
            match self.swap(store, current, TermPtr::VarPtr(left)) {
                Err(fault) => {
                    return Err(fault);
                },
                Ok(None) => {
                    return Ok(());
                },
                Ok(Some(TermPtr::VarPtr(next))) => {
                    proof {
                        store@.lemma_free_wf(current.0.index);
                    }
                    match self.release(store, current.0.index) {
                        Err(fault) => {
                            return Err(fault);
                        },
                        Ok(()) => {},
                    }
                    current = next;
                },
                Ok(Some(TermPtr::CellPtr(cell_ptr))) => {
                    match self.release(store, current.0.index) {
                        Err(fault) => {
                            return Err(fault);
                        },
                        Ok(()) => {},
                    }
                    return self.eval_bind_walk(store, queue, left, cell_ptr);
                },
            }
        }
    }

    /// Evaluates a binding.
    pub fn eval_bind(
        &mut self,
        store: &mut Store,
        queue: &mut Vec<Equation>,
        var_ptr: VarPtr,
        cell_ptr: CellPtr,
    ) -> (done: Result<(), Fault>)
        requires
            old(store).wf(),
        ensures
            final(store).wf(),
            state(*final(store), *final(queue), *final(self), fault_of(done)) == state(
                *old(store),
                *old(queue),
                *old(self),
                None,
            ).bind(var_ptr, cell_ptr),
    {
        match self.count(Event::Bind) {
            Err(fault) => {
                return Err(fault);
            },
            Ok(()) => {},
        }
        self.eval_bind_walk(store, queue, var_ptr, cell_ptr)
    }

    /// Evaluates a connection.
    pub fn eval_connect(
        &mut self,
        store: &mut Store,
        queue: &mut Vec<Equation>,
        left_var_ptr: VarPtr,
        right_var_ptr: VarPtr,
    ) -> (done: Result<(), Fault>)
        requires
            old(store).wf(),
        ensures
            final(store).wf(),
            state(*final(store), *final(queue), *final(self), fault_of(done)) == state(
                *old(store),
                *old(queue),
                *old(self),
                None,
            ).connect(left_var_ptr, right_var_ptr),
    {
        match self.count(Event::Connect) {
            Err(fault) => {
                return Err(fault);
            },
            Ok(()) => {},
        }
        self.eval_connect_walk(store, queue, right_var_ptr, left_var_ptr)
    }

    /// An eraser against the agent in the slot: the agent is emptied and the
    /// eraser goes to both its ports.
    pub fn erase(
        &mut self,
        store: &mut Store,
        queue: &mut Vec<Equation>,
        index: u32,
    ) -> (done: Result<(), Fault>)
        requires
            old(store).wf(),
        ensures
            final(store).wf(),
            state(*final(store), *final(queue), *final(self), fault_of(done)) == state(
                *old(store),
                *old(queue),
                *old(self),
                None,
            ).erase(index),
    {
        let cell = match self.get_cell(store, index) {
            Err(fault) => {
                return Err(fault);
            },
            Ok(value) => value,
        };
        match self.count(Event::Redex) {
            Err(fault) => {
                return Err(fault);
            },
            Ok(()) => {},
        }
        match self.count(Event::Commutation) {
            Err(fault) => {
                return Err(fault);
            },
            Ok(()) => {},
        }
        match self.release(store, index) {
            Err(fault) => {
                return Err(fault);
            },
            Ok(()) => {},
        }
        let ports = cell.ports();
        let era = TermPtr::CellPtr(CellPtr::Era);
        self.reduce_equation(queue, era, *ports.0);
        self.reduce_equation(queue, era, *ports.1);
        Ok(())
    }

    /// Two agents of one kind: both are emptied and their ports are joined
    /// pairwise.
    pub fn annihilate(
        &mut self,
        store: &mut Store,
        queue: &mut Vec<Equation>,
        left: u32,
        left_cell: Cell,
        right: u32,
        right_cell: Cell,
    ) -> (done: Result<(), Fault>)
        requires
            old(store).wf(),
            old(store)@.at(left) == Some(Term::Cell(left_cell)),
            old(store)@.at(right) == Some(Term::Cell(right_cell)),
            old(store)@.has(left),
            old(store)@.has(right),
        ensures
            final(store).wf(),
            state(*final(store), *final(queue), *final(self), fault_of(done)) == state(
                *old(store),
                *old(queue),
                *old(self),
                None,
            ).annihilate(left, right),
    {
        match self.count(Event::Redex) {
            Err(fault) => {
                return Err(fault);
            },
            Ok(()) => {},
        }
        match self.count(Event::Annihilation) {
            Err(fault) => {
                return Err(fault);
            },
            Ok(()) => {},
        }
        match self.release(store, left) {
            Err(fault) => {
                return Err(fault);
            },
            Ok(()) => {},
        }
        match self.release(store, right) {
            Err(fault) => {
                return Err(fault);
            },
            Ok(()) => {},
        }
        let left_ports = left_cell.ports();
        let right_ports = right_cell.ports();
        self.reduce_equation(queue, *left_ports.0, *right_ports.0);
        self.reduce_equation(queue, *left_ports.1, *right_ports.1);
        Ok(())
    }

    /// A constructor against a duplicator: each is copied, the copies are
    /// joined by four fresh wires, and each copy meets a port of the other
    /// agent. The two slots are reused for the first copy of each.
    pub fn commute(
        &mut self,
        store: &mut Store,
        queue: &mut Vec<Equation>,
        ctr: u32,
        ctr_cell: Cell,
        dup: u32,
        dup_cell: Cell,
    ) -> (done: Result<(), Fault>)
        requires
            old(store).wf(),
            old(store)@.at(ctr) == Some(Term::Cell(ctr_cell)),
            old(store)@.at(dup) == Some(Term::Cell(dup_cell)),
            old(store)@.has(ctr),
            old(store)@.has(dup),
            ctr > 0,
            dup > 0,
        ensures
            final(store).wf(),
            state(*final(store), *final(queue), *final(self), fault_of(done)) == state(
                *old(store),
                *old(queue),
                *old(self),
                None,
            ).commute(ctr, dup),
    {
        match self.count(Event::Redex) {
            Err(fault) => {
                return Err(fault);
            },
            Ok(()) => {},
        }
        match self.count(Event::Commutation) {
            Err(fault) => {
                return Err(fault);
            },
            Ok(()) => {},
        }
        let v1 = match self.allocate(store, Term::Var(Var::new())) {
            Err(fault) => {
                return Err(fault);
            },
            Ok(value) => value,
        };
        let v2 = match self.allocate(store, Term::Var(Var::new())) {
            Err(fault) => {
                return Err(fault);
            },
            Ok(value) => value,
        };
        let v3 = match self.allocate(store, Term::Var(Var::new())) {
            Err(fault) => {
                return Err(fault);
            },
            Ok(value) => value,
        };
        let v4 = match self.allocate(store, Term::Var(Var::new())) {
            Err(fault) => {
                return Err(fault);
            },
            Ok(value) => value,
        };
        let v1 = TermPtr::VarPtr(VarPtr(Ptr::new(v1)));
        let v2 = TermPtr::VarPtr(VarPtr(Ptr::new(v2)));
        let v3 = TermPtr::VarPtr(VarPtr(Ptr::new(v3)));
        let v4 = TermPtr::VarPtr(VarPtr(Ptr::new(v4)));

        // the two slots are reused for the first copy of each agent
        match self.write_cell(store, ctr, Cell::Ctr(v1, v2)) {
            Err(fault) => {
                return Err(fault);
            },
            Ok(()) => {},
        }
        let ctr_2 = match self.allocate(store, Term::Cell(Cell::Ctr(v3, v4))) {
            Err(fault) => {
                return Err(fault);
            },
            Ok(value) => value,
        };
        match self.write_cell(store, dup, Cell::Dup(v1, v3)) {
            Err(fault) => {
                return Err(fault);
            },
            Ok(()) => {},
        }
        let dup_2 = match self.allocate(store, Term::Cell(Cell::Dup(v2, v4))) {
            Err(fault) => {
                return Err(fault);
            },
            Ok(value) => value,
        };
        let ctr_ptr = CellPtr::Ref(Ptr::new(ctr));
        let dup_ptr = CellPtr::Ref(Ptr::new(dup));
        let ctr_ptr_2 = CellPtr::Ref(Ptr::new(ctr_2));
        let dup_ptr_2 = CellPtr::Ref(Ptr::new(dup_2));
        let ctr_ports = ctr_cell.ports();
        let dup_ports = dup_cell.ports();

        self.eval_equation_for_cell(queue, *ctr_ports.0, dup_ptr);
        self.reduce_equation(queue, *ctr_ports.1, TermPtr::CellPtr(dup_ptr_2));
        self.eval_equation_for_cell(queue, *dup_ports.0, ctr_ptr);
        self.reduce_equation(queue, *dup_ports.1, TermPtr::CellPtr(ctr_ptr_2));
        Ok(())
    }

    /// Evaluates a redex by the rule for its two agents.
    pub fn eval_redex(
        &mut self,
        store: &mut Store,
        queue: &mut Vec<Equation>,
        left_cell_ptr: CellPtr,
        right_cell_ptr: CellPtr,
    ) -> (done: Result<(), Fault>)
        requires
            old(store).wf(),
        ensures
            final(store).wf(),
            state(*final(store), *final(queue), *final(self), fault_of(done)) == state(
                *old(store),
                *old(queue),
                *old(self),
                None,
            ).redex(left_cell_ptr, right_cell_ptr),
    {
        match (left_cell_ptr, right_cell_ptr) {
            // eraser against eraser: nothing is left
            (CellPtr::Era, CellPtr::Era) => {
                match self.count(Event::Redex) {
                    Err(fault) => {
                        return Err(fault);
                    },
                    Ok(()) => {},
                }
                self.count(Event::Erasure)
            },
            (CellPtr::Era, CellPtr::Ref(ptr)) => self.erase(store, queue, ptr.get_index()),
            (CellPtr::Ref(ptr), CellPtr::Era) => self.erase(store, queue, ptr.get_index()),
            (CellPtr::Ref(left_ptr), CellPtr::Ref(right_ptr)) => {
                let left = left_ptr.get_index();
                let right = right_ptr.get_index();
                let left_cell = match self.get_cell(store, left) {
                    Err(fault) => {
                        return Err(fault);
                    },
                    Ok(value) => value,
                };
                let right_cell = match self.get_cell(store, right) {
                    Err(fault) => {
                        return Err(fault);
                    },
                    Ok(value) => value,
                };
                match (left_cell, right_cell) {
                    (Cell::Ctr(_, _), Cell::Ctr(_, _)) => self.annihilate(
                        store,
                        queue,
                        left,
                        left_cell,
                        right,
                        right_cell,
                    ),
                    (Cell::Dup(_, _), Cell::Dup(_, _)) => self.annihilate(
                        store,
                        queue,
                        left,
                        left_cell,
                        right,
                        right_cell,
                    ),
                    (Cell::Ctr(_, _), Cell::Dup(_, _)) => self.commute(
                        store,
                        queue,
                        left,
                        left_cell,
                        right,
                        right_cell,
                    ),
                    (Cell::Dup(_, _), Cell::Ctr(_, _)) => self.commute(
                        store,
                        queue,
                        right,
                        right_cell,
                        left,
                        left_cell,
                    ),
                }
            },
        }
    }

    /// Evaluates one equation.
    pub fn eval_equation(
        &mut self,
        store: &mut Store,
        queue: &mut Vec<Equation>,
        eqn: Equation,
    ) -> (done: Result<(), Fault>)
        requires
            old(store).wf(),
        ensures
            final(store).wf(),
            state(*final(store), *final(queue), *final(self), fault_of(done)) == state(
                *old(store),
                *old(queue),
                *old(self),
                None,
            ).step(eqn),
    {
        proof {
            reveal(State::step);
        }
        match eqn {
            Equation::Redex { left_ptr, right_ptr } => self.eval_redex(
                store,
                queue,
                left_ptr,
                right_ptr,
            ),
            Equation::Bind { var_ptr, cell_ptr } => self.eval_bind(store, queue, var_ptr, cell_ptr),
            Equation::Connect { left_ptr, right_ptr } => self.eval_connect(
                store,
                queue,
                left_ptr,
                right_ptr,
            ),
        }
    }

    /// Evaluates the net: its equations are taken out of its body, the
    /// first of them first, and equations are evaluated until none waits.
    /// The head is left as it was. At most `steps` equations are evaluated.
    #[verifier::loop_isolation(false)]
    pub fn eval_within(&mut self, net: &mut Net, steps: u64) -> (done: Result<(), Fault>)
        requires
            old(net).store.wf(),
        ensures
            final(net).store.wf(),
            final(net).head@ == old(net).head@,
            final(net).body@.len() == 0,
            ({
                let last = State::load(old(net).store@, old(net).body@, old(self).counts()).run(
                    steps as nat,
                );
                &&& final(net).store@ == last.pool
                &&& final(self).counts() == last.counts
                &&& fault_of(done) == last.fault
            }),
    {
        let mut queue: Vec<Equation> = Vec::new();
        let mut i = net.body.len();
        while i > 0
            invariant
                0 <= i <= net.body@.len(),
                *net == *old(net),
                queue@ =~= net.body@.subrange(i as int, net.body@.len() as int).reverse(),
            decreases i,
        {
            i = i - 1;
            queue.push(net.body[i]);
        }
        net.body.clear();
        let ghost first = State::load(old(net).store@, old(net).body@, old(self).counts());
        assert(old(net).body@.subrange(0, old(net).body@.len() as int) =~= old(net).body@);
        let mut left = steps;
        while queue.len() > 0
            invariant
                net.store.wf(),
                net.head@ == old(net).head@,
                net.body@.len() == 0,
                first.run(steps as nat) == state(net.store, queue, *self, None).run(left as nat),
            decreases left,
        {
            if left == 0 {
                return Err(Fault::StepLimit);
            }
            left = left - 1;
            let ghost before = state(net.store, queue, *self, None);
            let eqn = queue.pop().unwrap();
            match self.eval_equation(&mut net.store, &mut queue, eqn) {
                Err(fault) => {
                    proof {
                        lemma_stopped(
                            State { queue: before.queue.drop_last(), ..before }.step(
                                before.queue.last(),
                            ),
                            left as nat,
                        );
                    }
                    return Err(fault);
                },
                Ok(()) => {},
            }
        }
        Ok(())
    }

    /// Evaluates the net without a limit that can be reached in practice.
    pub fn eval(&mut self, net: &mut Net) -> (done: Result<(), Fault>)
        requires
            old(net).store.wf(),
        ensures
            final(net).store.wf(),
            final(net).head@ == old(net).head@,
            final(net).body@.len() == 0,
            ({
                let last = State::load(old(net).store@, old(net).body@, old(self).counts()).run(
                    u64::MAX as nat,
                );
                &&& final(net).store@ == last.pool
                &&& final(self).counts() == last.counts
                &&& fault_of(done) == last.fault
            }),
    {
        self.eval_within(net, u64::MAX)
    }
}

} // verus!
