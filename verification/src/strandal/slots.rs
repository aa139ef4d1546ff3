//! The arena stays well formed through an evaluation, and the slots that
//! are handed out less the slots that are released are the change in its
//! occupancy.

use vstd::prelude::*;

use crate::arena::lemma_conservation;
use crate::arena::released;
use super::machine::End;
use super::machine::Equation;
use super::machine::Frame;
use super::machine::Machine;
use super::machine::annihilates;
use super::machine::erase_rule;
use super::machine::flush;
use super::machine::lemma_task_takes_steps;
use super::machine::order;
use super::machine::resolve;
use super::machine::rule;
use super::machine::unreadable;
use super::stats::Counter;
use super::stats::Tally;
use super::store::Arena;
use super::store::Ptr;
use super::store::FREE_PTRS_SIZE;
use super::term::Cell;
use super::term::Term;
use super::term::TermPtr;
use super::var::Var;
use super::var::VarValue;
use super::wires::lemma_machine_in_order;

verus! {

/// Every slot that a task retires is released when the task is done: a
/// flush that ends without a fault lowers the occupancy of a well-formed
/// arena by the length of the buffer, and the arena stays well formed.
pub proof fn lemma_flush_accounts(arena: Arena, free: Seq<Ptr>)
    requires
        arena.wf(),
    ensures
        flush(arena, free).0.wf(),
        flush(arena, free).2.is_none() ==> flush(arena, free).0.live + free.len() == arena.live,
    decreases free.len(),
{
    if free.len() > 0 {
        let last = free.last();
        if unreadable(arena, last).is_none() {
            arena.lemma_free_wf(last);
            lemma_flush_accounts(arena.free(last), free.drop_last());
        }
    }
}

/// A write into a wire, the release or retirement of a slot, an
/// allocation and the reuse of a slot keep the arena well formed.
pub proof fn lemma_ops_wf(frame: Frame, ptr: Ptr, value: VarValue, counter: Counter, term: Term, cell: Cell)
    requires
        frame.arena.wf(),
    ensures
        frame.swap(ptr, value).0.arena.wf(),
        frame.release(ptr).arena.wf(),
        frame.retire(ptr).arena.wf(),
        frame.allocate(counter, term).0.arena.wf(),
        frame.reuse_cell(ptr, cell).arena.wf(),
        frame.count(counter).arena.wf(),
{
    if frame.fault.is_none() {
        if frame.arena.has(ptr) {
            frame.arena.lemma_set_wf(ptr, Term::Var(Var::holding(Some(value))));
            frame.arena.lemma_set_wf(ptr, Term::Cell(cell));
            if frame.arena.at(ptr).is_some() {
                frame.arena.lemma_free_wf(ptr);
            }
        }
        if frame.arena.has_room(1) {
            frame.arena.lemma_allocate_wf(Some(term));
        }
    }
}

/// A walk keeps the arena well formed.
pub proof fn lemma_walk_wf(frame: Frame, var_ptr: Ptr, previous: Option<Ptr>, value: VarValue)
    requires
        frame.arena.wf(),
    ensures
        frame.walk(var_ptr, previous, value).0.arena.wf(),
    decreases frame.arena.live,
{
    let (swapped, prior) = frame.swap(var_ptr, value);
    let cell = Cell::Lam(None);
    let term = Term::Cell(cell);
    lemma_ops_wf(frame, var_ptr, value, Counter::Binds, term, cell);
    lemma_ops_wf(swapped, var_ptr, value, Counter::Binds, term, cell);
    if swapped.fault.is_none() {
        match prior {
            Some(VarValue::Var(other)) => {
                if Some(other) != previous && swapped.arena.live != 0 && other != var_ptr {
                    lemma_walk_wf(swapped.release(var_ptr), other, Some(var_ptr), value);
                }
            },
            _ => {},
        }
    }
}

/// A binding keeps the arena well formed.
pub proof fn lemma_bind_wf(frame: Frame, var_ptr: Ptr, previous: Option<Ptr>, value: VarValue)
    requires
        frame.arena.wf(),
    ensures
        frame.bind(var_ptr, previous, value).0.arena.wf(),
{
    lemma_walk_wf(frame.count(Counter::Binds), var_ptr, previous, value);
}

/// A connection keeps the arena well formed.
pub proof fn lemma_connect_wf(frame: Frame, left: Ptr, right: Ptr)
    requires
        frame.arena.wf(),
    ensures
        frame.connect(left, right).0.arena.wf(),
{
    let counted = frame.count(Counter::Connects);
    let cell = Cell::Lam(None);
    let term = Term::Cell(cell);
    lemma_walk_wf(counted, right, None, VarValue::Var(left));
    let (right_walked, right_found) = counted.walk(right, None, VarValue::Var(left));
    if right_walked.fault.is_none() {
        match right_found {
            VarValue::Var(right_end) => {
                lemma_walk_wf(right_walked, left, None, VarValue::Var(right_end));
                let (left_walked, left_found) = right_walked.walk(
                    left,
                    None,
                    VarValue::Var(right_end),
                );
                match left_found {
                    VarValue::Var(left_end) => {
                        lemma_ops_wf(
                            left_walked,
                            right_end,
                            VarValue::Var(left_end),
                            Counter::Binds,
                            term,
                            cell,
                        );
                    },
                    _ => {
                        lemma_bind_wf(left_walked, right_end, Some(left), left_found);
                    },
                }
            },
            _ => {
                lemma_bind_wf(right_walked, left, None, right_found);
            },
        }
    }
}

/// A commutation keeps the arena well formed.
pub proof fn lemma_commute_wf(frame: Frame, left_ptr: Ptr, left: Cell, right_ptr: Ptr, right: Cell)
    requires
        frame.arena.wf(),
    ensures
        frame.commute(left_ptr, left, right_ptr, right).0.arena.wf(),
{
    let wire = Term::Var(Var::holding(None));
    let any = VarValue::Era;
    if left.spec_ports().is_none() && right.spec_ports().is_none() {
        lemma_ops_wf(frame, left_ptr, any, Counter::Binds, wire, left);
        lemma_ops_wf(frame.retire(left_ptr), right_ptr, any, Counter::Binds, wire, left);
    } else {
        let (f1, x1) = frame.alloc_var();
        let (f2, x2) = f1.alloc_var();
        let (f3, x3) = f2.alloc_var();
        let (f4, x4) = f3.alloc_var();
        let (x1, x2, x3, x4) = (TermPtr::Ptr(x1), TermPtr::Ptr(x2), TermPtr::Ptr(x3), TermPtr::Ptr(x4));
        let f5 = f4.reuse_cell(left_ptr, left.spec_with_ports(x1, x3));
        let (f6, left_1) = f5.alloc_cell(left.spec_with_ports(x4, x2));
        let f7 = f6.reuse_cell(right_ptr, right.spec_with_ports(x1, x4));
        let (f8, right_1) = f7.alloc_cell(right.spec_with_ports(x3, x2));
        lemma_ops_wf(frame, left_ptr, any, Counter::AllocVars, wire, left);
        lemma_ops_wf(f1, left_ptr, any, Counter::AllocVars, wire, left);
        lemma_ops_wf(f2, left_ptr, any, Counter::AllocVars, wire, left);
        lemma_ops_wf(f3, left_ptr, any, Counter::AllocVars, wire, left);
        lemma_ops_wf(f4, left_ptr, any, Counter::AllocVars, wire, left.spec_with_ports(x1, x3));
        lemma_ops_wf(
            f5,
            left_ptr,
            any,
            Counter::AllocCells,
            Term::Cell(left.spec_with_ports(x4, x2)),
            left,
        );
        lemma_ops_wf(f6, right_ptr, any, Counter::AllocVars, wire, right.spec_with_ports(x1, x4));
        lemma_ops_wf(
            f7,
            right_ptr,
            any,
            Counter::AllocCells,
            Term::Cell(right.spec_with_ports(x3, x2)),
            right,
        );
    }
}

/// A step keeps the arena well formed.
pub proof fn lemma_step_wf(frame: Frame, left: TermPtr, right: TermPtr)
    requires
        frame.arena.wf(),
    ensures
        frame.step(left, right).0.arena.wf(),
{
    reveal(Frame::step);
    let wire = Term::Var(Var::holding(None));
    let any = VarValue::Era;
    let cell = Cell::Lam(None);
    if frame.fault.is_none() {
        match (resolve(frame.arena, left), resolve(frame.arena, right)) {
            (End::Broken(_), _) => {},
            (_, End::Broken(_)) => {},
            (End::Era, End::Era) => {},
            (End::Era, End::Cell(ptr, found)) => {
                lemma_ops_wf(frame.count(erase_rule(found)), ptr, any, Counter::Binds, wire, cell);
            },
            (End::Cell(ptr, found), End::Era) => {
                lemma_ops_wf(frame.count(erase_rule(found)), ptr, any, Counter::Binds, wire, cell);
            },
            (End::Era, End::Var(var)) => {
                lemma_bind_wf(frame, var, None, VarValue::Era);
            },
            (End::Var(var), End::Era) => {
                lemma_bind_wf(frame, var, None, VarValue::Era);
            },
            (End::Cell(ptr, _), End::Var(var)) => {
                lemma_bind_wf(frame, var, None, VarValue::Cell(ptr));
            },
            (End::Var(var), End::Cell(ptr, _)) => {
                lemma_bind_wf(frame, var, None, VarValue::Cell(ptr));
            },
            (End::Var(left_var), End::Var(right_var)) => {
                lemma_connect_wf(frame, left_var, right_var);
            },
            (End::Cell(left_ptr, left_cell), End::Cell(right_ptr, right_cell)) => {
                let counted = frame.count(rule(left_cell, right_cell));
                if annihilates(left_cell, right_cell) {
                    lemma_ops_wf(counted, left_ptr, any, Counter::Binds, wire, cell);
                    lemma_ops_wf(counted.retire(left_ptr), right_ptr, any, Counter::Binds, wire, cell);
                } else if order(left_cell) <= order(right_cell) {
                    lemma_commute_wf(counted, left_ptr, left_cell, right_ptr, right_cell);
                } else {
                    lemma_commute_wf(counted, right_ptr, right_cell, left_ptr, left_cell);
                }
            },
        }
    }
}

/// The steps of a task keep the arena well formed.
pub proof fn lemma_run_wf(frame: Frame, equation: Option<Equation>, steps: nat)
    requires
        frame.arena.wf(),
    ensures
        frame.run(equation, steps).0.arena.wf(),
    decreases steps,
{
    match equation {
        None => {},
        Some((left, right)) => {
            if frame.fault.is_none() && steps > 0 {
                lemma_step_wf(frame, left, right);
                lemma_run_wf(frame.step(left, right).0, frame.step(left, right).1, (steps - 1) as nat);
            }
        },
    }
}

/// A run of the machine keeps the arena well formed.
pub proof fn lemma_machine_wf(machine: Machine, steps: nat)
    requires
        machine.arena.wf(),
    ensures
        machine.run(steps).arena.wf(),
    decreases steps,
{
    if machine.fault.is_none() && machine.scope.len() > 0 && steps > 0 {
        reveal(Machine::task);
        let job = machine.scope.last();
        let frame = Frame {
            arena: machine.arena,
            free: job.free,
            tally: Tally::zero(),
            scope: machine.scope.drop_last(),
            fault: None,
        };
        lemma_run_wf(frame, Some((job.left, job.right)), steps);
        let ran = frame.run(Some((job.left, job.right)), steps).0;
        lemma_flush_accounts(ran.arena, ran.free);
        lemma_task_takes_steps(machine, steps);
        lemma_machine_wf(machine.task(steps).0, machine.task(steps).1);
    }
}

/// Slot conservation of an evaluation: when a run ends without a fault,
/// the slots that were handed out during the run, less the slots that were
/// released, are the change in the number of occupied slots. No slot that
/// was released is occupied again.
pub proof fn lemma_machine_conserves(machine: Machine, steps: nat)
    requires
        machine.arena.wf(),
        machine.run(steps).fault.is_none(),
    ensures
        machine.run(steps).arena.wf(),
        machine.arena.slots.len() <= machine.run(steps).arena.slots.len(),
        machine.run(steps).arena.live + released(
            machine.arena.slots,
            machine.run(steps).arena.slots,
            machine.run(steps).arena.slots.len() as int,
        ) == machine.arena.live + (machine.run(steps).arena.slots.len()
            - machine.arena.slots.len()),
        forall|ptr: Ptr|
            machine.arena.has(ptr) && machine.arena.at(ptr).is_none() ==> machine.run(
                steps,
            ).arena.at(ptr).is_none(),
{
    let before = machine.arena.slots;
    let after = machine.run(steps).arena.slots;
    lemma_machine_wf(machine, steps);
    assert forall|ptr: Ptr| machine.arena.has(ptr) implies machine.run(steps).arena.has(ptr) && (
    machine.arena.at(ptr).is_none() ==> machine.run(steps).arena.at(ptr).is_none()) by {
        lemma_machine_in_order(machine, steps, ptr);
    }
    if before.len() > 0 {
        let last = Ptr((before.len() - 1) as u32);
        assert(machine.arena.has(last));
    }
    assert forall|i: int| 0 <= i < before.len() && before[i].is_none() implies after[i].is_none() by {
        let ptr = Ptr(i as u32);
        assert(machine.arena.has(ptr));
        assert(machine.arena.at(ptr) == before[i]);
    }
    lemma_conservation(before, after);
}

/// The slot is in the buffer of released slots or has been emptied.
pub open spec fn consumed(frame: Frame, ptr: Ptr) -> bool {
    frame.free.contains(ptr) || (frame.arena.has(ptr) && frame.arena.at(ptr).is_none())
}

/// Retiring a slot consumes it and leaves what was consumed consumed.
pub proof fn lemma_retire_consumes(frame: Frame, slot: Ptr, ptr: Ptr)
    requires
        frame.fault.is_none(),
        frame.retire(slot).fault.is_none(),
    ensures
        consumed(frame.retire(slot), slot),
        consumed(frame, ptr) ==> consumed(frame.retire(slot), ptr),
{
    let after = frame.retire(slot);
    if frame.free.len() < FREE_PTRS_SIZE {
        assert(after.free.last() == slot);
        if frame.free.contains(ptr) {
            let i = choose|i: int| 0 <= i < frame.free.len() && frame.free[i] == ptr;
            assert(after.free[i] == ptr);
        }
    }
}

/// An agent that an eraser meets is consumed once: when the rule ends
/// without a fault and before the task hands on its share of the buffer,
/// the slot of the agent is in the buffer of released slots or empty.
pub proof fn lemma_erase_consumes(frame: Frame, cell_ptr: Ptr, cell: Cell)
    requires
        frame.fault.is_none(),
        frame.count(erase_rule(cell)).retire(cell_ptr).fault.is_none(),
    ensures
        consumed(frame.count(erase_rule(cell)).retire(cell_ptr), cell_ptr),
{
    lemma_retire_consumes(frame.count(erase_rule(cell)), cell_ptr, cell_ptr);
}

/// Two agents that annihilate are consumed once each: when the rule has
/// retired them, the slot of either is in the buffer of released slots or
/// empty.
pub proof fn lemma_annihilate_consumes(frame: Frame, counter: Counter, left_ptr: Ptr, right_ptr: Ptr)
    requires
        frame.fault.is_none(),
        frame.count(counter).retire(left_ptr).retire(right_ptr).fault.is_none(),
    ensures
        consumed(frame.count(counter).retire(left_ptr).retire(right_ptr), left_ptr),
        consumed(frame.count(counter).retire(left_ptr).retire(right_ptr), right_ptr),
{
    let counted = frame.count(counter);
    lemma_retire_consumes(counted, left_ptr, left_ptr);
    lemma_retire_consumes(counted.retire(left_ptr), right_ptr, left_ptr);
}

/// Two agents that commute give their slots to the first copy of each: when
/// the rule ends without a fault, the slot of the left agent holds an agent
/// of its kind and label over the first and the third of the four wires
/// that were handed out, the slot of the right agent one of its kind and
/// label over the first and the fourth, and six slots were handed out in
/// all.
pub proof fn lemma_commute_reuses(frame: Frame, left_ptr: Ptr, left: Cell, right_ptr: Ptr, right: Cell)
    requires
        frame.fault.is_none(),
        frame.arena.wf(),
        left.spec_ports().is_some() || right.spec_ports().is_some(),
        left_ptr != right_ptr,
        frame.arena.has(left_ptr),
        frame.arena.has(right_ptr),
        frame.commute(left_ptr, left, right_ptr, right).0.fault.is_none(),
    ensures
        ({
            let after = frame.commute(left_ptr, left, right_ptr, right).0;
            let first = frame.arena.slots.len();
            let wire = |offset: int| TermPtr::Ptr(Ptr((first + offset) as u32));
            &&& after.arena.slots.len() == first + 6
            &&& after.arena.at(left_ptr) == Some(Term::Cell(left.spec_with_ports(wire(0), wire(2))))
            &&& after.arena.at(right_ptr) == Some(
                Term::Cell(right.spec_with_ports(wire(0), wire(3))),
            )
            &&& after.arena.at(Ptr((first + 4) as u32)) == Some(
                Term::Cell(left.spec_with_ports(wire(3), wire(1))),
            )
            &&& after.arena.at(Ptr((first + 5) as u32)) == Some(
                Term::Cell(right.spec_with_ports(wire(2), wire(1))),
            )
            &&& after.arena.at(Ptr(first as u32)) == Some(Term::Var(Var::holding(None)))
            &&& after.arena.at(Ptr((first + 1) as u32)) == Some(Term::Var(Var::holding(None)))
            &&& after.arena.at(Ptr((first + 2) as u32)) == Some(Term::Var(Var::holding(None)))
            &&& after.arena.at(Ptr((first + 3) as u32)) == Some(Term::Var(Var::holding(None)))
            &&& after.tally.alloc_vars == frame.tally.alloc_vars + 4
            &&& after.tally.alloc_cells == frame.tally.alloc_cells + 2
        }),
{
}

} // verus!
