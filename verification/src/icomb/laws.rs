//! What holds of every evaluation of the two-kind calculus: the counters
//! are balanced, wires only go forward, and the slots that are handed out
//! less the slots that are released are the change in occupancy.

use vstd::prelude::*;

use crate::arena::lemma_conservation;
use crate::arena::lemma_occupied_update;
use crate::arena::released;
use super::machine::Event;
use super::machine::State;
use super::machine::lemma_stopped;
use super::net::cell::Cell;
use super::net::cell::CellPtr;
use super::net::equation::Equation;
use super::net::term::Term;
use super::net::term::TermPtr;
use super::net::var::Var;
use super::net::var::VarPtr;
use super::net::var::VarValue;
use super::net::var::lemma_decode_encode;
use super::store::Pool;

verus! {

/// A binding walk leaves the counters as they are.
pub proof fn lemma_bind_walk_keeps_counts(state: State, var_ptr: VarPtr, cell_ptr: CellPtr)
    ensures
        state.bind_walk(var_ptr, cell_ptr).counts == state.counts,
    decreases state.pool.live,
{
    let (swapped, prior) = state.swap(var_ptr, TermPtr::CellPtr(cell_ptr));
    if swapped.fault.is_none() {
        match prior {
            Some(TermPtr::VarPtr(next)) => {
                if swapped.pool.live != 0 {
                    lemma_bind_walk_keeps_counts(swapped.release(var_ptr.0.index), next, cell_ptr);
                }
            },
            _ => {},
        }
    }
}

/// A connecting walk leaves the counters as they are.
pub proof fn lemma_connect_walk_keeps_counts(state: State, var_ptr: VarPtr, left: VarPtr)
    ensures
        state.connect_walk(var_ptr, left).counts == state.counts,
    decreases state.pool.live,
{
    if state.fault.is_none() && var_ptr != left {
        let (swapped, prior) = state.swap(var_ptr, TermPtr::VarPtr(left));
        if swapped.fault.is_none() {
            match prior {
                Some(TermPtr::VarPtr(next)) => {
                    if swapped.pool.live != 0 {
                        lemma_connect_walk_keeps_counts(
                            swapped.release(var_ptr.0.index),
                            next,
                            left,
                        );
                    }
                },
                Some(TermPtr::CellPtr(cell_ptr)) => {
                    lemma_bind_walk_keeps_counts(swapped.release(var_ptr.0.index), left, cell_ptr);
                },
                None => {},
            }
        }
    }
}

/// Statistics completeness of a step: if every redex so far was counted
/// once more as an annihilation, a commutation or an erasure, the same
/// holds after the step, whether it ends with a fault or not. A redex adds
/// one to the redexes unless it ends with a fault; a binding or a
/// connection adds none.
pub proof fn lemma_step_balanced(state: State, equation: Equation)
    requires
        state.counts.balanced(),
    ensures
        state.step(equation).counts.balanced(),
        state.fault.is_none() && state.step(equation).fault.is_none() ==> state.step(
            equation,
        ).counts.redexes == state.counts.redexes + if equation is Redex {
            1nat
        } else {
            0nat
        },
{
    reveal(State::step);
    match equation {
        Equation::Redex { left_ptr, right_ptr } => {},
        Equation::Bind { var_ptr, cell_ptr } => {
            lemma_bind_walk_keeps_counts(state.count(Event::Bind), var_ptr, cell_ptr);
        },
        Equation::Connect { left_ptr, right_ptr } => {
            lemma_connect_walk_keeps_counts(state.count(Event::Connect), right_ptr, left_ptr);
        },
    }
}

/// Statistics completeness of an evaluation: if the counters are balanced
/// when a run starts, they are balanced when it ends.
pub proof fn lemma_run_balanced(state: State, steps: nat)
    requires
        state.counts.balanced(),
    ensures
        state.run(steps).counts.balanced(),
    decreases steps,
{
    if state.fault.is_none() && state.queue.len() > 0 && steps > 0 {
        let taken = State { queue: state.queue.drop_last(), ..state };
        lemma_step_balanced(taken, state.queue.last());
        lemma_run_balanced(taken.step(state.queue.last()), (steps - 1) as nat);
    }
}

/// How far a wire state is along unset, linked, bound.
pub open spec fn rank(state: Option<TermPtr>) -> nat {
    match state {
        None => 0,
        Some(TermPtr::VarPtr(_)) => 1,
        Some(TermPtr::CellPtr(_)) => 2,
    }
}

/// The state of the wire in a slot, if the slot holds a wire.
pub open spec fn wire_state(pool: Pool, index: u32) -> Option<Option<TermPtr>> {
    if pool.holds_var(index) {
        Some(pool.at(index).unwrap()->Var_0.state())
    } else {
        None
    }
}

/// From one state to a later one the slot is in order: if it was handed
/// out it still is, if it was empty it is empty, if it held a wire it is
/// empty now or holds a wire that is as far or further along unset, linked,
/// bound, and if it held an agent it holds an agent or is empty.
pub open spec fn in_order(before: State, after: State, index: u32) -> bool {
    &&& before.pool.has(index) ==> after.pool.has(index)
    &&& before.pool.holds_cell(index) ==> after.pool.holds_cell(index) || after.pool.at(
        index,
    ).is_none()
    &&& before.pool.has(index) && before.pool.at(index).is_none() ==> after.pool.at(index).is_none()
    &&& wire_state(before.pool, index).is_some() ==> after.pool.at(index).is_none() || (wire_state(
        after.pool,
        index,
    ).is_some() && rank(wire_state(after.pool, index).unwrap()) >= rank(
        wire_state(before.pool, index).unwrap(),
    ))
}

/// Being in order carries over from step to step.
pub proof fn lemma_in_order_trans(first: State, second: State, third: State, index: u32)
    requires
        in_order(first, second, index),
        in_order(second, third, index),
    ensures
        in_order(first, third, index),
{
}

/// A write into a wire changes that slot only, and leaves in it the state
/// that was written.
pub proof fn lemma_swap(state: State, var_ptr: VarPtr, value: TermPtr, index: u32)
    requires
        state.fault.is_none(),
        state.swap(var_ptr, value).0.fault.is_none(),
    ensures
        state.swap(var_ptr, value).0.pool.slots.len() == state.pool.slots.len(),
        state.pool.wf() ==> state.swap(var_ptr, value).0.pool.wf(),
        index != var_ptr.0.index && state.pool.has(index) ==> state.swap(var_ptr, value).0.pool.at(
            index,
        ) == state.pool.at(index),
        wire_state(state.pool, var_ptr.0.index) == Some(state.swap(var_ptr, value).1),
        wire_state(state.swap(var_ptr, value).0.pool, var_ptr.0.index) == Some(Some(value)),
{
    lemma_decode_encode(VarValue(Some(value)));
    if state.pool.wf() {
        lemma_occupied_update(
            state.pool.slots,
            var_ptr.0.index - 1,
            Some(Term::Var(Var::holding(Some(value)))),
        );
    }
}

/// Every slot is in order through a binding walk, and the arena stays well
/// formed.
pub proof fn lemma_bind_walk_in_order(state: State, var_ptr: VarPtr, cell_ptr: CellPtr, index: u32)
    requires
        state.fault.is_none(),
    ensures
        state.bind_walk(var_ptr, cell_ptr).fault.is_none() ==> in_order(
            state,
            state.bind_walk(var_ptr, cell_ptr),
            index,
        ),
        state.pool.wf() ==> state.bind_walk(var_ptr, cell_ptr).pool.wf(),
    decreases state.pool.live,
{
    let (swapped, prior) = state.swap(var_ptr, TermPtr::CellPtr(cell_ptr));
    if swapped.fault.is_none() {
        lemma_swap(state, var_ptr, TermPtr::CellPtr(cell_ptr), index);
        match prior {
            None => {},
            Some(TermPtr::VarPtr(next)) => {
                if swapped.pool.live != 0 {
                    let released = swapped.release(var_ptr.0.index);
                    if swapped.pool.wf() {
                        swapped.pool.lemma_free_wf(var_ptr.0.index);
                    }
                    lemma_bind_walk_in_order(released, next, cell_ptr, index);
                    if released.bind_walk(next, cell_ptr).fault.is_none() {
                        lemma_in_order_trans(
                            state,
                            released,
                            released.bind_walk(next, cell_ptr),
                            index,
                        );
                    }
                }
            },
            Some(TermPtr::CellPtr(other)) => {
                if swapped.pool.wf() {
                    swapped.pool.lemma_free_wf(var_ptr.0.index);
                }
            },
        }
    }
}

/// Every slot is in order through a connecting walk, and the arena stays
/// well formed.
pub proof fn lemma_connect_walk_in_order(state: State, var_ptr: VarPtr, left: VarPtr, index: u32)
    requires
        state.fault.is_none(),
    ensures
        state.connect_walk(var_ptr, left).fault.is_none() ==> in_order(
            state,
            state.connect_walk(var_ptr, left),
            index,
        ),
        state.pool.wf() ==> state.connect_walk(var_ptr, left).pool.wf(),
    decreases state.pool.live,
{
    if var_ptr == left {
        if state.pool.wf() && state.pool.holds(left.0.index) {
            state.pool.lemma_free_wf(left.0.index);
        }
    } else {
        let (swapped, prior) = state.swap(var_ptr, TermPtr::VarPtr(left));
        if swapped.fault.is_none() {
            lemma_swap(state, var_ptr, TermPtr::VarPtr(left), index);
            assert(wire_state(state.pool, var_ptr.0.index).is_some());
            match prior {
                None => {},
                Some(TermPtr::VarPtr(next)) => {
                    if swapped.pool.live != 0 {
                        let released = swapped.release(var_ptr.0.index);
                        if swapped.pool.wf() {
                            swapped.pool.lemma_free_wf(var_ptr.0.index);
                        }
                        lemma_connect_walk_in_order(released, next, left, index);
                        if released.connect_walk(next, left).fault.is_none() {
                            lemma_in_order_trans(
                                state,
                                released,
                                released.connect_walk(next, left),
                                index,
                            );
                        }
                    }
                },
                Some(TermPtr::CellPtr(cell_ptr)) => {
                    let released = swapped.release(var_ptr.0.index);
                    if swapped.pool.wf() {
                        swapped.pool.lemma_free_wf(var_ptr.0.index);
                    }
                    lemma_bind_walk_in_order(released, left, cell_ptr, index);
                    if released.bind_walk(left, cell_ptr).fault.is_none() {
                        lemma_in_order_trans(state, released, released.bind_walk(left, cell_ptr), index);
                    }
                },
            }
        }
    }
}

/// Every slot is in order through the release of a slot, the allocation
/// of a slot, a count and a push, and these keep the arena well formed.
pub proof fn lemma_ops_in_order(state: State, slot: u32, term: Term, event: Event, equation: Equation, index: u32)
    ensures
        in_order(state, state.release(slot), index),
        in_order(state, state.allocate(term), index),
        in_order(state, state.count(event), index),
        in_order(state, state.push(equation), index),
        state.pool.wf() ==> state.release(slot).pool.wf() && state.allocate(term).pool.wf(),
        forall|i: u32|
            state.pool.holds(i) ==> #[trigger] state.allocate(term).pool.holds(i) && state.allocate(
                term,
            ).pool.at(i) == state.pool.at(i),
{
    if state.pool.wf() && state.pool.holds(slot) {
        state.pool.lemma_free_wf(slot);
    }
    if state.pool.wf() {
        crate::arena::lemma_occupied_push(state.pool.slots, Some(term));
    }
}

/// Every slot is in order when the slot of an agent is overwritten with an
/// agent.
pub proof fn lemma_write_in_order(state: State, slot: u32, cell: Cell, index: u32)
    requires
        state.pool.holds_cell(slot),
    ensures
        in_order(state, state.write_cell(slot, cell), index),
        state.pool.wf() ==> state.write_cell(slot, cell).pool.wf(),
        forall|i: u32|
            state.pool.holds(i) ==> #[trigger] state.write_cell(slot, cell).pool.holds(i) && (i
                != slot ==> state.write_cell(slot, cell).pool.at(i) == state.pool.at(i)),
        state.write_cell(slot, cell).pool.holds_cell(slot),
{
    if state.pool.wf() {
        lemma_occupied_update(state.pool.slots, slot - 1, Some(Term::Cell(cell)));
    }
}

/// Every slot is in order through a commutation of two agents that are in
/// their slots, and the arena stays well formed.
pub proof fn lemma_commute_in_order(state: State, ctr: u32, dup: u32, index: u32)
    requires
        state.pool.holds_cell(ctr),
        state.pool.holds_cell(dup),
    ensures
        in_order(state, state.commute(ctr, dup), index),
        state.pool.wf() ==> state.commute(ctr, dup).pool.wf(),
{
    let wire = Term::Var(Var::holding(None));
    let eq = Equation::Redex { left_ptr: CellPtr::Era, right_ptr: CellPtr::Era };
    let c0 = state.count(Event::Redex);
    let counted = c0.count(Event::Commutation);
    let v1 = TermPtr::VarPtr(VarPtr::at(counted.pool.next()));
    let s1 = counted.allocate(wire);
    let v2 = TermPtr::VarPtr(VarPtr::at(s1.pool.next()));
    let s2 = s1.allocate(wire);
    let v3 = TermPtr::VarPtr(VarPtr::at(s2.pool.next()));
    let s3 = s2.allocate(wire);
    let v4 = TermPtr::VarPtr(VarPtr::at(s3.pool.next()));
    let s4 = s3.allocate(wire);
    let s5 = s4.write_cell(ctr, Cell::Ctr(v1, v2));
    let s6 = s5.allocate(Term::Cell(Cell::Ctr(v3, v4)));
    let s7 = s6.write_cell(dup, Cell::Dup(v1, v3));
    let s8 = s7.allocate(Term::Cell(Cell::Dup(v2, v4)));
    lemma_ops_in_order(state, 0, wire, Event::Redex, eq, index);
    lemma_ops_in_order(c0, 0, wire, Event::Commutation, eq, index);
    lemma_in_order_trans(state, c0, counted, index);
    lemma_ops_in_order(counted, 0, wire, Event::Redex, eq, index);
    lemma_in_order_trans(state, counted, s1, index);
    lemma_ops_in_order(s1, 0, wire, Event::Redex, eq, index);
    lemma_in_order_trans(state, s1, s2, index);
    lemma_ops_in_order(s2, 0, wire, Event::Redex, eq, index);
    lemma_in_order_trans(state, s2, s3, index);
    lemma_ops_in_order(s3, 0, wire, Event::Redex, eq, index);
    lemma_in_order_trans(state, s3, s4, index);
    assert(s4.pool.holds_cell(ctr) && s4.pool.holds_cell(dup));
    lemma_write_in_order(s4, ctr, Cell::Ctr(v1, v2), index);
    lemma_in_order_trans(state, s4, s5, index);
    lemma_ops_in_order(s5, 0, Term::Cell(Cell::Ctr(v3, v4)), Event::Redex, eq, index);
    lemma_in_order_trans(state, s5, s6, index);
    assert(s6.pool.holds_cell(dup));
    lemma_write_in_order(s6, dup, Cell::Dup(v1, v3), index);
    lemma_in_order_trans(state, s6, s7, index);
    lemma_ops_in_order(s7, 0, Term::Cell(Cell::Dup(v2, v4)), Event::Redex, eq, index);
    lemma_in_order_trans(state, s7, s8, index);
}

/// Wire monotonicity of a step: through the evaluation of an equation every
/// slot is in order, and the arena stays well formed. A slot that holds a
/// wire is emptied or holds a wire that is as far or further along unset,
/// linked, bound; a slot that was emptied stays empty.
pub proof fn lemma_step_in_order(state: State, equation: Equation, index: u32)
    requires
        state.fault.is_none(),
    ensures
        state.step(equation).fault.is_none() ==> in_order(state, state.step(equation), index),
        state.pool.wf() ==> state.step(equation).pool.wf(),
{
    reveal(State::step);
    let wire = Term::Var(Var::holding(None));
    match equation {
        Equation::Redex { left_ptr, right_ptr } => {
            match (left_ptr, right_ptr) {
                (CellPtr::Era, CellPtr::Era) => {},
                (CellPtr::Era, CellPtr::Ref(ptr)) => {
                    lemma_ops_in_order(
                        state.count(Event::Redex).count(Event::Commutation),
                        ptr.index,
                        wire,
                        Event::Redex,
                        equation,
                        index,
                    );
                },
                (CellPtr::Ref(ptr), CellPtr::Era) => {
                    lemma_ops_in_order(
                        state.count(Event::Redex).count(Event::Commutation),
                        ptr.index,
                        wire,
                        Event::Redex,
                        equation,
                        index,
                    );
                },
                (CellPtr::Ref(left), CellPtr::Ref(right)) => {
                    if state.no_cell(left.index).is_none() && state.no_cell(right.index).is_none() {
                        match (
                            state.pool.at(left.index).unwrap()->Cell_0,
                            state.pool.at(right.index).unwrap()->Cell_0,
                        ) {
                            (Cell::Ctr(_, _), Cell::Dup(_, _)) => {
                                lemma_commute_in_order(state, left.index, right.index, index);
                            },
                            (Cell::Dup(_, _), Cell::Ctr(_, _)) => {
                                lemma_commute_in_order(state, right.index, left.index, index);
                            },
                            _ => {
                                let counted = state.count(Event::Redex).count(Event::Annihilation);
                                let first = counted.release(left.index);
                                lemma_ops_in_order(
                                    counted,
                                    left.index,
                                    wire,
                                    Event::Redex,
                                    equation,
                                    index,
                                );
                                lemma_ops_in_order(
                                    first,
                                    right.index,
                                    wire,
                                    Event::Redex,
                                    equation,
                                    index,
                                );
                                lemma_in_order_trans(counted, first, first.release(right.index), index);
                            },
                        }
                    }
                },
            }
        },
        Equation::Bind { var_ptr, cell_ptr } => {
            let counted = state.count(Event::Bind);
            if counted.fault.is_none() {
                lemma_bind_walk_in_order(counted, var_ptr, cell_ptr, index);
            }
        },
        Equation::Connect { left_ptr, right_ptr } => {
            let counted = state.count(Event::Connect);
            if counted.fault.is_none() {
                lemma_connect_walk_in_order(counted, right_ptr, left_ptr, index);
            }
        },
    }
}

/// Wire monotonicity of an evaluation: through a run every slot is in
/// order, and the arena stays well formed.
pub proof fn lemma_run_in_order(state: State, steps: nat, index: u32)
    ensures
        state.run(steps).fault.is_none() ==> in_order(state, state.run(steps), index),
        state.pool.wf() ==> state.run(steps).pool.wf(),
    decreases steps,
{
    if state.fault.is_none() && state.queue.len() > 0 && steps > 0 {
        let taken = State { queue: state.queue.drop_last(), ..state };
        let stepped = taken.step(state.queue.last());
        lemma_step_in_order(taken, state.queue.last(), index);
        lemma_run_in_order(stepped, (steps - 1) as nat, index);
        if stepped.fault.is_none() {
            if stepped.run((steps - 1) as nat).fault.is_none() {
                lemma_in_order_trans(state, stepped, stepped.run((steps - 1) as nat), index);
            }
        } else {
            lemma_stopped(stepped, (steps - 1) as nat);
        }
    }
}

/// Slot conservation of an evaluation: when a run from a well-formed arena
/// ends without a fault, the slots that were handed out during the run,
/// less the slots that were released, are the change in the number of
/// occupied slots. No slot that was released is occupied again.
pub proof fn lemma_run_conserves(state: State, steps: nat)
    requires
        state.pool.wf(),
        state.run(steps).fault.is_none(),
    ensures
        state.run(steps).pool.wf(),
        state.pool.slots.len() <= state.run(steps).pool.slots.len(),
        state.run(steps).pool.live + released(
            state.pool.slots,
            state.run(steps).pool.slots,
            state.run(steps).pool.slots.len() as int,
        ) == state.pool.live + (state.run(steps).pool.slots.len() - state.pool.slots.len()),
{
    let before = state.pool.slots;
    let after = state.run(steps).pool.slots;
    lemma_run_in_order(state, steps, 1);
    if before.len() > 0 {
        lemma_run_in_order(state, steps, before.len() as u32);
    }
    assert forall|i: int| 0 <= i < before.len() && before[i].is_none() implies after[i].is_none() by {
        lemma_run_in_order(state, steps, (i + 1) as u32);
        assert(state.pool.has((i + 1) as u32));
    }
    lemma_conservation(before, after);
}

} // verus!
