//! Wires only go forward: through an evaluation the state of a wire moves
//! along `Unset`, `LinkedTo`, `Bound` and never back, until the wire is
//! retired and its slot emptied. A slot that was emptied stays empty.

use vstd::prelude::*;

use super::machine::End;
use super::machine::Equation;
use super::machine::Frame;
use super::machine::Machine;
use super::machine::annihilates;
use super::machine::erase_rule;
use super::machine::flush;
use super::machine::lemma_machine_stopped;
use super::machine::lemma_run_stopped;
use super::machine::lemma_task_takes_steps;
use super::machine::lemma_walk_stopped;
use super::machine::order;
use super::machine::resolve;
use super::machine::rule;
use super::machine::unreadable;
use super::stats::Counter;
use super::stats::Tally;
use super::store::Arena;
use super::store::FREE_PTRS_SIZE;
use super::store::Ptr;
use super::term::Cell;
use super::term::Term;
use super::term::TermPtr;
use super::var::Var;
use super::var::VarValue;
use super::var::lemma_decode_encode;
use super::var::rank;

verus! {

/// The state of the wire in a slot, if the slot holds a wire.
pub open spec fn wire_state(arena: Arena, ptr: Ptr) -> Option<Option<VarValue>> {
    if arena.holds(ptr) && arena.at(ptr).unwrap() is Var {
        Some(arena.at(ptr).unwrap()->Var_0.value())
    } else {
        None
    }
}

/// The slot is in the buffer of released slots of the frame or of a task
/// that waits.
pub open spec fn retired(frame: Frame, ptr: Ptr) -> bool {
    frame.free.contains(ptr) || exists|i: int|
        0 <= i < frame.scope.len() && (#[trigger] frame.scope[i]).free.contains(ptr)
}

/// Between two frames a slot that held a wire has been emptied, has been
/// retired, or holds a wire that is as far or further along `Unset`,
/// `LinkedTo`, `Bound`.
pub open spec fn advanced(before: Frame, after: Frame, ptr: Ptr) -> bool {
    ||| after.arena.has(ptr) && after.arena.at(ptr).is_none()
    ||| retired(after, ptr)
    ||| wire_state(after.arena, ptr).is_some() && rank(wire_state(after.arena, ptr).unwrap())
        >= rank(wire_state(before.arena, ptr).unwrap())
}

/// A write into a wire changes that slot only. An assignment never takes
/// the wire back; a link takes it back only if the wire was bound.
pub proof fn lemma_swap_monotone(frame: Frame, var_ptr: Ptr, value: VarValue, ptr: Ptr)
    requires
        frame.fault.is_none(),
        frame.swap(var_ptr, value).0.fault.is_none(),
    ensures
        frame.swap(var_ptr, value).0.arena.slots.len() == frame.arena.slots.len(),
        ptr != var_ptr && frame.arena.has(ptr) ==> frame.swap(var_ptr, value).0.arena.at(ptr)
            == frame.arena.at(ptr),
        wire_state(frame.arena, var_ptr) == Some(frame.swap(var_ptr, value).1),
        wire_state(frame.swap(var_ptr, value).0.arena, var_ptr) == Some(Some(value)),
        !(value is Var) || rank(frame.swap(var_ptr, value).1) <= 1 ==> rank(Some(value)) >= rank(
            frame.swap(var_ptr, value).1,
        ),
{
    lemma_decode_encode(Some(value));
}

/// A slot that is empty stays empty through a walk, and a walk hands out
/// no slot.
pub proof fn lemma_walk_keeps_empty(
    frame: Frame,
    var_ptr: Ptr,
    previous: Option<Ptr>,
    value: VarValue,
    ptr: Ptr,
)
    requires
        frame.arena.has(ptr),
        frame.arena.at(ptr).is_none(),
    ensures
        frame.walk(var_ptr, previous, value).0.arena.has(ptr),
        frame.walk(var_ptr, previous, value).0.arena.at(ptr).is_none(),
    decreases frame.arena.live,
{
    let (swapped, prior) = frame.swap(var_ptr, value);
    if swapped.fault.is_none() {
        match prior {
            Some(VarValue::Var(other)) => {
                if Some(other) != previous && swapped.arena.live != 0 && other != var_ptr {
                    lemma_walk_keeps_empty(
                        swapped.release(var_ptr),
                        other,
                        Some(var_ptr),
                        value,
                        ptr,
                    );
                }
            },
            _ => {},
        }
    }
}

/// Through a walk every wire goes forward: a slot that held a wire is
/// emptied, is retired, or holds a wire that is as far or further along
/// `Unset`, `LinkedTo`, `Bound`.
pub proof fn lemma_walk_advances(
    frame: Frame,
    var_ptr: Ptr,
    previous: Option<Ptr>,
    value: VarValue,
    ptr: Ptr,
)
    requires
        frame.fault.is_none(),
        wire_state(frame.arena, ptr).is_some(),
    ensures
        frame.walk(var_ptr, previous, value).0.fault.is_none() ==> advanced(
            frame,
            frame.walk(var_ptr, previous, value).0,
            ptr,
        ),
        frame.walk(var_ptr, previous, value).0.scope == frame.scope,
        forall|p: Ptr|
            frame.free.contains(p) ==> frame.walk(var_ptr, previous, value).0.free.contains(p),
    decreases frame.arena.live,
{
    let (swapped, prior) = frame.swap(var_ptr, value);
    let after = frame.walk(var_ptr, previous, value).0;
    if swapped.fault.is_none() {
        lemma_swap_monotone(frame, var_ptr, value, ptr);
        match prior {
            None => {},
            Some(VarValue::Var(other)) => {
                if Some(other) == previous {
                } else if swapped.arena.live == 0 {
                } else {
                    let released = swapped.release(var_ptr);
                    if other != var_ptr {
                        if ptr == var_ptr {
                            lemma_walk_keeps_empty(released, other, Some(var_ptr), value, ptr);
                            lemma_walk_advances_free(released, other, Some(var_ptr), value);
                        } else {
                            lemma_walk_advances(released, other, Some(var_ptr), value, ptr);
                        }
                    }
                }
            },
            Some(bound) => {
                let retired = swapped.retire(var_ptr);
                if swapped.free.len() < FREE_PTRS_SIZE {
                    assert(retired.free.last() == var_ptr);
                    assert forall|p: Ptr| swapped.free.contains(p) implies retired.free.contains(
                        p,
                    ) by {
                        let i = choose|i: int| 0 <= i < swapped.free.len() && swapped.free[i] == p;
                        assert(retired.free[i] == p);
                    }
                }
            },
        }
    }
}

/// A walk takes nothing out of the buffer of released slots, leaves the
/// queue as it is, and hands out no slot.
pub proof fn lemma_walk_advances_free(
    frame: Frame,
    var_ptr: Ptr,
    previous: Option<Ptr>,
    value: VarValue,
)
    ensures
        frame.walk(var_ptr, previous, value).0.scope == frame.scope,
        frame.walk(var_ptr, previous, value).0.arena.slots.len() == frame.arena.slots.len(),
        forall|p: Ptr|
            frame.free.contains(p) ==> frame.walk(var_ptr, previous, value).0.free.contains(p),
    decreases frame.arena.live,
{
    let (swapped, prior) = frame.swap(var_ptr, value);
    if swapped.fault.is_none() {
        match prior {
            None => {},
            Some(VarValue::Var(other)) => {
                if Some(other) != previous && swapped.arena.live != 0 && other != var_ptr {
                    lemma_walk_advances_free(swapped.release(var_ptr), other, Some(var_ptr), value);
                }
            },
            Some(bound) => {
                let retired = swapped.retire(var_ptr);
                if swapped.free.len() < FREE_PTRS_SIZE {
                    assert forall|p: Ptr| swapped.free.contains(p) implies retired.free.contains(
                        p,
                    ) by {
                        let i = choose|i: int| 0 <= i < swapped.free.len() && swapped.free[i] == p;
                        assert(retired.free[i] == p);
                    }
                }
            },
        }
    }
}

/// The slot has been handed out and is empty.
pub open spec fn emptied(frame: Frame, ptr: Ptr) -> bool {
    frame.arena.has(ptr) && frame.arena.at(ptr).is_none()
}

/// From one frame to a later one the slot is in order: if it was handed
/// out it still is, if it was empty it is empty, if it was retired it is
/// retired or empty, if it held a wire it holds a wire or is empty and the
/// wire has gone forward, and if it held an agent it holds an agent or is
/// empty.
pub open spec fn in_order(before: Frame, after: Frame, ptr: Ptr) -> bool {
    &&& before.arena.has(ptr) ==> after.arena.has(ptr)
    &&& emptied(before, ptr) ==> emptied(after, ptr)
    &&& retired(before, ptr) ==> retired(after, ptr) || emptied(after, ptr)
    &&& before.arena.holds_var(ptr) ==> (after.arena.holds_var(ptr) || emptied(after, ptr))
        && advanced(before, after, ptr)
    &&& before.arena.holds_cell(ptr) ==> after.arena.holds_cell(ptr) || emptied(after, ptr)
}

/// Being in order carries over from step to step.
pub proof fn lemma_in_order_trans(first: Frame, second: Frame, third: Frame, ptr: Ptr)
    requires
        in_order(first, second, ptr),
        in_order(second, third, ptr),
    ensures
        in_order(first, third, ptr),
{
}

/// A walk leaves the agents as they are, and a slot that holds a wire
/// holds a wire or is empty after it.
pub proof fn lemma_walk_kinds(
    frame: Frame,
    var_ptr: Ptr,
    previous: Option<Ptr>,
    value: VarValue,
    ptr: Ptr,
)
    ensures
        frame.arena.holds_cell(ptr) ==> frame.walk(var_ptr, previous, value).0.arena.at(ptr)
            == frame.arena.at(ptr),
        frame.arena.holds_var(ptr) ==> frame.walk(var_ptr, previous, value).0.arena.holds_var(ptr)
            || frame.walk(var_ptr, previous, value).0.arena.at(ptr).is_none(),
    decreases frame.arena.live,
{
    let (swapped, prior) = frame.swap(var_ptr, value);
    if swapped.fault.is_none() {
        match prior {
            Some(VarValue::Var(other)) => {
                if Some(other) != previous && swapped.arena.live != 0 && other != var_ptr {
                    let released = swapped.release(var_ptr);
                    lemma_walk_kinds(released, other, Some(var_ptr), value, ptr);
                    if ptr == var_ptr {
                        lemma_walk_keeps_empty(released, other, Some(var_ptr), value, ptr);
                    }
                }
            },
            _ => {},
        }
    }
}

/// Every slot is in order through a walk.
pub proof fn lemma_walk_in_order(
    frame: Frame,
    var_ptr: Ptr,
    previous: Option<Ptr>,
    value: VarValue,
    ptr: Ptr,
)
    requires
        frame.fault.is_none(),
    ensures
        frame.walk(var_ptr, previous, value).0.fault.is_none() ==> in_order(
            frame,
            frame.walk(var_ptr, previous, value).0,
            ptr,
        ),
{
    if emptied(frame, ptr) {
        lemma_walk_keeps_empty(frame, var_ptr, previous, value, ptr);
    }
    lemma_walk_advances_free(frame, var_ptr, previous, value);
    lemma_walk_kinds(frame, var_ptr, previous, value, ptr);
    if wire_state(frame.arena, ptr).is_some() {
        lemma_walk_advances(frame, var_ptr, previous, value, ptr);
    }
}

/// Every slot is in order through a binding.
pub proof fn lemma_bind_in_order(
    frame: Frame,
    var_ptr: Ptr,
    previous: Option<Ptr>,
    value: VarValue,
    ptr: Ptr,
)
    requires
        frame.fault.is_none(),
    ensures
        frame.bind(var_ptr, previous, value).0.fault.is_none() ==> in_order(
            frame,
            frame.bind(var_ptr, previous, value).0,
            ptr,
        ),
{
    let counted = frame.count(Counter::Binds);
    if counted.fault.is_none() {
        lemma_walk_in_order(counted, var_ptr, previous, value, ptr);
    } else {
        lemma_walk_stopped(counted, var_ptr, previous, value);
    }
}

/// A walk that ends on a wire leaves the value it carried in that wire,
/// unless the wire was emptied; and whatever it wrote, it wrote that value.
pub proof fn lemma_walk_writes(
    frame: Frame,
    var_ptr: Ptr,
    previous: Option<Ptr>,
    value: VarValue,
    ptr: Ptr,
)
    requires
        frame.fault.is_none(),
    ensures
        ({
            let (after, found) = frame.walk(var_ptr, previous, value);
            &&& after.fault.is_none() && found is Var && after.arena.holds(found->Var_0)
                ==> wire_state(after.arena, found->Var_0) == Some(Some(value))
            &&& after.fault.is_none() && wire_state(after.arena, ptr).is_some() ==> wire_state(
                after.arena,
                ptr,
            ) == wire_state(frame.arena, ptr) || wire_state(after.arena, ptr) == Some(Some(value))
        }),
    decreases frame.arena.live,
{
    let (swapped, prior) = frame.swap(var_ptr, value);
    if swapped.fault.is_none() {
        lemma_swap_monotone(frame, var_ptr, value, ptr);
        match prior {
            None => {},
            Some(VarValue::Var(other)) => {
                if Some(other) != previous && swapped.arena.live != 0 && other != var_ptr {
                    let released = swapped.release(var_ptr);
                    lemma_walk_writes(released, other, Some(var_ptr), value, ptr);
                    if ptr == var_ptr {
                        lemma_walk_keeps_empty(released, other, Some(var_ptr), value, ptr);
                    }
                }
            },
            Some(bound) => {},
        }
    }
}

/// Every slot is in order through a connection.
pub proof fn lemma_connect_in_order(frame: Frame, left: Ptr, right: Ptr, ptr: Ptr)
    requires
        frame.fault.is_none(),
    ensures
        frame.connect(left, right).0.fault.is_none() ==> in_order(
            frame,
            frame.connect(left, right).0,
            ptr,
        ),
{
    let counted = frame.count(Counter::Connects);
    if counted.fault.is_some() {
        lemma_walk_stopped(counted, right, None, VarValue::Var(left));
    } else {
        let (right_walked, right_found) = counted.walk(right, None, VarValue::Var(left));
        lemma_walk_in_order(counted, right, None, VarValue::Var(left), ptr);
        if right_walked.fault.is_none() {
            match right_found {
                VarValue::Var(right_end) => {
                    if right_walked.arena.holds(right_end) {
                        let link = VarValue::Var(right_end);
                        let (left_walked, left_found) = right_walked.walk(left, None, link);
                        lemma_walk_in_order(right_walked, left, None, link, ptr);
                        if left_walked.fault.is_none() {
                            lemma_in_order_trans(counted, right_walked, left_walked, ptr);
                            match left_found {
                                VarValue::Var(left_end) => {
                                    if left_end != left && left_walked.arena.holds(left_end) {
                                        let fixed = left_walked.swap(
                                            right_end,
                                            VarValue::Var(left_end),
                                        ).0;
                                        if fixed.fault.is_none() {
                                            lemma_walk_writes(
                                                counted,
                                                right,
                                                None,
                                                VarValue::Var(left),
                                                right_end,
                                            );
                                            lemma_walk_writes(
                                                right_walked,
                                                left,
                                                None,
                                                link,
                                                right_end,
                                            );
                                            lemma_swap_monotone(
                                                left_walked,
                                                right_end,
                                                VarValue::Var(left_end),
                                                ptr,
                                            );
                                            assert(in_order(left_walked, fixed, ptr));
                                            lemma_in_order_trans(counted, left_walked, fixed, ptr);
                                        }
                                    }
                                },
                                _ => {
                                    lemma_bind_in_order(
                                        left_walked,
                                        right_end,
                                        Some(left),
                                        left_found,
                                        ptr,
                                    );
                                    let bound = left_walked.bind(right_end, Some(left), left_found).0;
                                    if bound.fault.is_none() {
                                        lemma_in_order_trans(counted, left_walked, bound, ptr);
                                    }
                                },
                            }
                        }
                    }
                },
                _ => {
                    lemma_bind_in_order(right_walked, left, None, right_found, ptr);
                    let bound = right_walked.bind(left, None, right_found).0;
                    if bound.fault.is_none() {
                        lemma_in_order_trans(counted, right_walked, bound, ptr);
                    }
                },
            }
        }
    }
}

/// Every slot is in order when an event is counted.
pub proof fn lemma_count_in_order(frame: Frame, counter: Counter, ptr: Ptr)
    ensures
        in_order(frame, frame.count(counter), ptr),
{
}

/// Every slot is in order when a slot is retired.
pub proof fn lemma_retire_in_order(frame: Frame, slot: Ptr, ptr: Ptr)
    ensures
        in_order(frame, frame.retire(slot), ptr),
{
    let after = frame.retire(slot);
    if frame.fault.is_none() && frame.free.len() < FREE_PTRS_SIZE {
        assert(after.free.last() == slot);
        if frame.free.contains(ptr) {
            let i = choose|i: int| 0 <= i < frame.free.len() && frame.free[i] == ptr;
            assert(after.free[i] == ptr);
        }
    }
}

/// Every slot is in order when a task is spawned: a slot that was in the
/// buffer stays there or goes with the new task.
pub proof fn lemma_spawn_in_order(frame: Frame, left: TermPtr, right: TermPtr, n: u8, ptr: Ptr)
    requires
        n > 0,
    ensures
        in_order(frame, frame.spawn(left, right, n), ptr),
{
    let after = frame.spawn(left, right, n);
    if frame.fault.is_none() {
        let cut = frame.free.len() as int / n as int;
        assert(0 <= cut <= frame.free.len()) by (nonlinear_arith)
            requires
                cut == frame.free.len() as int / n as int,
                n > 0,
        ;
        let job = after.scope.last();
        if frame.free.contains(ptr) {
            let i = choose|i: int| 0 <= i < frame.free.len() && frame.free[i] == ptr;
            if i < cut {
                assert(after.free[i] == ptr);
            } else {
                assert(job.free[i - cut] == ptr);
                assert(after.scope[after.scope.len() - 1].free.contains(ptr));
            }
        }
        if exists|i: int| 0 <= i < frame.scope.len() && (#[trigger] frame.scope[i]).free.contains(ptr) {
            let i = choose|i: int|
                0 <= i < frame.scope.len() && (#[trigger] frame.scope[i]).free.contains(ptr);
            assert(after.scope[i].free.contains(ptr));
        }
    }
}

/// Every slot is in order when a slot is handed out.
pub proof fn lemma_allocate_in_order(frame: Frame, counter: Counter, term: Term, ptr: Ptr)
    ensures
        in_order(frame, frame.allocate(counter, term).0, ptr),
        forall|p: Ptr|
            frame.arena.holds(p) ==> frame.allocate(counter, term).0.arena.holds(p)
                && frame.allocate(counter, term).0.arena.at(p) == frame.arena.at(p),
{
}

/// Every slot is in order when the slot of an agent is overwritten with an
/// agent.
pub proof fn lemma_reuse_in_order(frame: Frame, slot: Ptr, cell: Cell, ptr: Ptr)
    requires
        frame.arena.holds(slot),
        frame.arena.at(slot).unwrap() is Cell,
    ensures
        in_order(frame, frame.reuse_cell(slot, cell), ptr),
        forall|p: Ptr|
            frame.arena.holds(p) ==> frame.reuse_cell(slot, cell).arena.holds(p) && (p != slot
                ==> frame.reuse_cell(slot, cell).arena.at(p) == frame.arena.at(p)),
        frame.reuse_cell(slot, cell).arena.at(slot).unwrap() is Cell,
{
}

/// Every slot is in order through the rewrite of an eraser against an
/// agent.
pub proof fn lemma_erase_in_order(frame: Frame, cell_ptr: Ptr, cell: Cell, ptr: Ptr)
    ensures
        in_order(frame, frame.erase(cell_ptr, cell).0, ptr),
{
    let counted = frame.count(erase_rule(cell));
    let retired = counted.retire(cell_ptr);
    lemma_count_in_order(frame, erase_rule(cell), ptr);
    lemma_retire_in_order(counted, cell_ptr, ptr);
    lemma_in_order_trans(frame, counted, retired, ptr);
    match cell.spec_ports() {
        Some((port_0, port_1)) => {
            lemma_spawn_in_order(retired, TermPtr::Era, port_0, 2, ptr);
            lemma_in_order_trans(frame, retired, retired.spawn(TermPtr::Era, port_0, 2), ptr);
        },
        None => {},
    }
}

/// Every slot is in order through an annihilation.
pub proof fn lemma_annihilate_in_order(
    frame: Frame,
    counter: Counter,
    left_ptr: Ptr,
    left_ports: Option<(TermPtr, TermPtr)>,
    right_ptr: Ptr,
    right_ports: Option<(TermPtr, TermPtr)>,
    ptr: Ptr,
)
    ensures
        in_order(
            frame,
            frame.annihilate(counter, left_ptr, left_ports, right_ptr, right_ports).0,
            ptr,
        ),
{
    let counted = frame.count(counter);
    let first = counted.retire(left_ptr);
    let second = first.retire(right_ptr);
    lemma_count_in_order(frame, counter, ptr);
    lemma_retire_in_order(counted, left_ptr, ptr);
    lemma_retire_in_order(first, right_ptr, ptr);
    lemma_in_order_trans(frame, counted, first, ptr);
    lemma_in_order_trans(frame, first, second, ptr);
    match (left_ports, right_ports) {
        (Some((left_0, left_1)), Some((right_0, right_1))) => {
            lemma_spawn_in_order(second, left_0, right_0, 2, ptr);
            lemma_in_order_trans(frame, second, second.spawn(left_0, right_0, 2), ptr);
        },
        _ => {},
    }
}

/// Every slot is in order through a commutation of two agents that are in
/// their slots.
pub proof fn lemma_commute_in_order(
    frame: Frame,
    left_ptr: Ptr,
    left: Cell,
    right_ptr: Ptr,
    right: Cell,
    ptr: Ptr,
)
    requires
        frame.arena.holds(left_ptr),
        frame.arena.at(left_ptr).unwrap() is Cell,
        frame.arena.holds(right_ptr),
        frame.arena.at(right_ptr).unwrap() is Cell,
    ensures
        in_order(frame, frame.commute(left_ptr, left, right_ptr, right).0, ptr),
{
    if left.spec_ports().is_none() && right.spec_ports().is_none() {
        let first = frame.retire(left_ptr);
        lemma_retire_in_order(frame, left_ptr, ptr);
        lemma_retire_in_order(first, right_ptr, ptr);
        lemma_in_order_trans(frame, first, first.retire(right_ptr), ptr);
    } else {
        let wire = Term::Var(Var::holding(None));
        let (f1, x1) = frame.alloc_var();
        let (f2, x2) = f1.alloc_var();
        let (f3, x3) = f2.alloc_var();
        let (f4, x4) = f3.alloc_var();
        let (x1, x2, x3, x4) = (TermPtr::Ptr(x1), TermPtr::Ptr(x2), TermPtr::Ptr(x3), TermPtr::Ptr(x4));
        let f5 = f4.reuse_cell(left_ptr, left.spec_with_ports(x1, x3));
        let (f6, left_1) = f5.alloc_cell(left.spec_with_ports(x4, x2));
        let f7 = f6.reuse_cell(right_ptr, right.spec_with_ports(x1, x4));
        let (f8, right_1) = f7.alloc_cell(right.spec_with_ports(x3, x2));
        lemma_allocate_in_order(frame, Counter::AllocVars, wire, ptr);
        lemma_allocate_in_order(f1, Counter::AllocVars, wire, ptr);
        lemma_allocate_in_order(f2, Counter::AllocVars, wire, ptr);
        lemma_allocate_in_order(f3, Counter::AllocVars, wire, ptr);
        lemma_in_order_trans(frame, f1, f2, ptr);
        lemma_in_order_trans(frame, f2, f3, ptr);
        lemma_in_order_trans(frame, f3, f4, ptr);
        lemma_reuse_in_order(f4, left_ptr, left.spec_with_ports(x1, x3), ptr);
        lemma_in_order_trans(frame, f4, f5, ptr);
        lemma_allocate_in_order(
            f5,
            Counter::AllocCells,
            Term::Cell(left.spec_with_ports(x4, x2)),
            ptr,
        );
        lemma_in_order_trans(frame, f5, f6, ptr);
        lemma_reuse_in_order(f6, right_ptr, right.spec_with_ports(x1, x4), ptr);
        lemma_in_order_trans(frame, f6, f7, ptr);
        lemma_allocate_in_order(
            f7,
            Counter::AllocCells,
            Term::Cell(right.spec_with_ports(x3, x2)),
            ptr,
        );
        lemma_in_order_trans(frame, f7, f8, ptr);
        let (left_0, left_1, right_0, right_1) = (
            TermPtr::Ptr(left_ptr),
            TermPtr::Ptr(left_1),
            TermPtr::Ptr(right_ptr),
            TermPtr::Ptr(right_1),
        );
        match (left.spec_ports(), right.spec_ports()) {
            (Some((left_p0, left_p1)), Some((right_p0, right_p1))) => {
                let g1 = f8.spawn(right_0, left_p0, 4);
                let g2 = g1.spawn(right_1, left_p1, 3);
                let g3 = g2.spawn(left_0, right_p0, 2);
                lemma_spawn_in_order(f8, right_0, left_p0, 4, ptr);
                lemma_spawn_in_order(g1, right_1, left_p1, 3, ptr);
                lemma_spawn_in_order(g2, left_0, right_p0, 2, ptr);
                lemma_in_order_trans(frame, f8, g1, ptr);
                lemma_in_order_trans(frame, g1, g2, ptr);
                lemma_in_order_trans(frame, g2, g3, ptr);
            },
            (None, Some((right_p0, right_p1))) => {
                let g1 = f8.spawn(left_0, right_p0, 3);
                let g2 = g1.spawn(left_1, right_p1, 2);
                lemma_spawn_in_order(f8, left_0, right_p0, 3, ptr);
                lemma_spawn_in_order(g1, left_1, right_p1, 2, ptr);
                lemma_in_order_trans(frame, f8, g1, ptr);
                lemma_in_order_trans(frame, g1, g2, ptr);
            },
            (Some((left_p0, left_p1)), None) => {
                let g1 = f8.spawn(right_0, left_p0, 3);
                let g2 = g1.spawn(right_1, left_p1, 2);
                lemma_spawn_in_order(f8, right_0, left_p0, 3, ptr);
                lemma_spawn_in_order(g1, right_1, left_p1, 2, ptr);
                lemma_in_order_trans(frame, f8, g1, ptr);
                lemma_in_order_trans(frame, g1, g2, ptr);
            },
            (None, None) => {},
        }
    }
}

/// Wire monotonicity and slot typing of a step: through the evaluation of
/// an equation every slot is in order. A slot that holds a wire is emptied,
/// is retired, or holds a wire that is as far or further along `Unset`,
/// `LinkedTo`, `Bound`; a slot that holds an agent holds an agent or is
/// emptied.
pub proof fn lemma_step_in_order(frame: Frame, left: TermPtr, right: TermPtr, ptr: Ptr)
    requires
        frame.fault.is_none(),
    ensures
        frame.step(left, right).0.fault.is_none() ==> in_order(
            frame,
            frame.step(left, right).0,
            ptr,
        ),
{
    reveal(Frame::step);
    match (resolve(frame.arena, left), resolve(frame.arena, right)) {
        (End::Broken(_), _) => {},
        (_, End::Broken(_)) => {},
        (End::Era, End::Era) => {},
        (End::Era, End::Cell(cell_ptr, cell)) => {
            lemma_erase_in_order(frame, cell_ptr, cell, ptr);
        },
        (End::Cell(cell_ptr, cell), End::Era) => {
            lemma_erase_in_order(frame, cell_ptr, cell, ptr);
        },
        (End::Era, End::Var(var)) => {
            lemma_bind_in_order(frame, var, None, VarValue::Era, ptr);
        },
        (End::Var(var), End::Era) => {
            lemma_bind_in_order(frame, var, None, VarValue::Era, ptr);
        },
        (End::Cell(cell_ptr, _), End::Var(var)) => {
            lemma_bind_in_order(frame, var, None, VarValue::Cell(cell_ptr), ptr);
        },
        (End::Var(var), End::Cell(cell_ptr, _)) => {
            lemma_bind_in_order(frame, var, None, VarValue::Cell(cell_ptr), ptr);
        },
        (End::Var(left_var), End::Var(right_var)) => {
            lemma_connect_in_order(frame, left_var, right_var, ptr);
        },
        (End::Cell(left_ptr, left_cell), End::Cell(right_ptr, right_cell)) => {
            let counter = rule(left_cell, right_cell);
            let counted = frame.count(counter);
            lemma_count_in_order(frame, counter, ptr);
            if annihilates(left_cell, right_cell) {
                lemma_annihilate_in_order(
                    frame,
                    counter,
                    left_ptr,
                    left_cell.spec_ports(),
                    right_ptr,
                    right_cell.spec_ports(),
                    ptr,
                );
            } else if order(left_cell) <= order(right_cell) {
                lemma_commute_in_order(counted, left_ptr, left_cell, right_ptr, right_cell, ptr);
                lemma_in_order_trans(
                    frame,
                    counted,
                    counted.commute(left_ptr, left_cell, right_ptr, right_cell).0,
                    ptr,
                );
            } else {
                lemma_commute_in_order(counted, right_ptr, right_cell, left_ptr, left_cell, ptr);
                lemma_in_order_trans(
                    frame,
                    counted,
                    counted.commute(right_ptr, right_cell, left_ptr, left_cell).0,
                    ptr,
                );
            }
        },
    }
}

/// Every slot is in order through the steps of a task.
pub proof fn lemma_run_in_order(frame: Frame, equation: Option<Equation>, steps: nat, ptr: Ptr)
    requires
        frame.fault.is_none(),
    ensures
        frame.run(equation, steps).0.fault.is_none() ==> in_order(
            frame,
            frame.run(equation, steps).0,
            ptr,
        ),
    decreases steps,
{
    match equation {
        None => {},
        Some((left, right)) => {
            if steps > 0 {
                let (stepped, next) = frame.step(left, right);
                lemma_step_in_order(frame, left, right, ptr);
                if stepped.fault.is_none() {
                    lemma_run_in_order(stepped, next, (steps - 1) as nat, ptr);
                    if stepped.run(next, (steps - 1) as nat).0.fault.is_none() {
                        lemma_in_order_trans(
                            frame,
                            stepped,
                            stepped.run(next, (steps - 1) as nat).0,
                            ptr,
                        );
                    }
                } else {
                    lemma_run_stopped(stepped, next, (steps - 1) as nat);
                }
            }
        },
    }
}

/// A flush that ends without a fault leaves the buffer empty, has emptied
/// every slot that was in it, and has left every other slot as it was.
pub proof fn lemma_flush_slots(arena: Arena, free: Seq<Ptr>, ptr: Ptr)
    ensures
        ({
            let (after, rest, fault) = flush(arena, free);
            fault.is_none() ==> {
                &&& rest.len() == 0
                &&& after.slots.len() == arena.slots.len()
                &&& free.contains(ptr) ==> after.has(ptr) && after.at(ptr).is_none()
                &&& !free.contains(ptr) && arena.has(ptr) ==> after.at(ptr) == arena.at(ptr)
            }
        }),
    decreases free.len(),
{
    if free.len() > 0 {
        let last = free.last();
        if unreadable(arena, last).is_none() {
            lemma_flush_slots(arena.free(last), free.drop_last(), ptr);
            if free.contains(ptr) && ptr != last {
                let i = choose|i: int| 0 <= i < free.len() && free[i] == ptr;
                assert(free.drop_last()[i] == ptr);
            }
            if free.drop_last().contains(ptr) {
                let i = choose|i: int| 0 <= i < free.drop_last().len() && free.drop_last()[i] == ptr;
                assert(free[i] == ptr);
            }
        }
    }
}

/// Every slot is in order through the flush at the end of a task.
pub proof fn lemma_flush_in_order(frame: Frame, ptr: Ptr)
    ensures
        frame.flush().fault.is_none() ==> in_order(frame, frame.flush(), ptr),
{
    lemma_flush_slots(frame.arena, frame.free, ptr);
}

impl Machine {
    /// The machine between two tasks, seen as the frame of a task with an
    /// empty buffer.
    pub open spec fn between(self) -> Frame {
        Frame {
            arena: self.arena,
            free: Seq::empty(),
            tally: self.tally,
            scope: self.scope,
            fault: self.fault,
        }
    }
}

/// Every slot is in order through a task: its steps and its flush.
pub proof fn lemma_task_in_order(machine: Machine, steps: nat, ptr: Ptr)
    requires
        machine.fault.is_none(),
        machine.scope.len() > 0,
    ensures
        machine.task(steps).0.fault.is_none() ==> in_order(
            machine.between(),
            machine.task(steps).0.between(),
            ptr,
        ),
{
    reveal(Machine::task);
    let job = machine.scope.last();
    let frame = Frame {
        arena: machine.arena,
        free: job.free,
        tally: Tally::zero(),
        scope: machine.scope.drop_last(),
        fault: None,
    };
    let (ran, left) = frame.run(Some((job.left, job.right)), steps);
    let flushed = ran.flush();
    lemma_run_in_order(frame, Some((job.left, job.right)), steps, ptr);
    lemma_flush_in_order(ran, ptr);
    lemma_flush_slots(ran.arena, ran.free, ptr);
    if flushed.fault.is_none() {
        lemma_in_order_trans(frame, ran, flushed, ptr);
        let before = machine.between();
        let after = machine.task(steps).0.between();
        // a slot that waits in the queue is retired in the frame of the task
        if retired(before, ptr) {
            let i = choose|i: int|
                0 <= i < before.scope.len() && (#[trigger] before.scope[i]).free.contains(ptr);
            if i < before.scope.len() - 1 {
                assert(frame.scope[i].free.contains(ptr));
            }
            assert(retired(frame, ptr));
        }
        // the buffer is empty when the task is done
        assert(flushed.free.len() == 0);
        assert(retired(flushed, ptr) ==> retired(after, ptr));
    }
}

/// Wire monotonicity and slot typing of an evaluation: through a run of the
/// machine every slot is in order. A slot that holds a wire is emptied,
/// waits in a task's buffer to be emptied, or holds a wire that is as far or
/// further along `Unset`, `LinkedTo`, `Bound`; a slot that holds an agent
/// holds an agent or is emptied; a slot that was emptied stays empty.
pub proof fn lemma_machine_in_order(machine: Machine, steps: nat, ptr: Ptr)
    ensures
        machine.run(steps).fault.is_none() ==> in_order(
            machine.between(),
            machine.run(steps).between(),
            ptr,
        ),
    decreases steps,
{
    if machine.fault.is_none() && machine.scope.len() > 0 && steps > 0 {
        let (next, left) = machine.task(steps);
        lemma_task_takes_steps(machine, steps);
        lemma_task_in_order(machine, steps, ptr);
        if next.fault.is_none() {
            lemma_machine_in_order(next, left, ptr);
            if next.run(left).fault.is_none() {
                lemma_in_order_trans(
                    machine.between(),
                    next.between(),
                    next.run(left).between(),
                    ptr,
                );
            }
        } else {
            lemma_machine_stopped(next, left);
        }
    }
}

impl Frame {
    /// The wires that a walk visits, in the order in which it writes into
    /// them.
    pub open spec fn trail(self, var_ptr: Ptr, previous: Option<Ptr>, value: VarValue) -> Seq<Ptr>
        decreases self.arena.live,
    {
        let (swapped, prior) = self.swap(var_ptr, value);
        if swapped.fault.is_some() {
            seq![var_ptr]
        } else {
            match prior {
                Some(VarValue::Var(other)) => if Some(other) == previous || swapped.arena.live == 0
                    || other == var_ptr {
                    seq![var_ptr]
                } else {
                    seq![var_ptr] + swapped.release(var_ptr).trail(other, Some(var_ptr), value)
                },
                _ => seq![var_ptr],
            }
        }
    }
}

/// The state in which a walk finds the last wire of its trail ends it: the
/// wire is unset, or linked back to the wire before it or to itself, or
/// bound.
pub open spec fn ends_walk(state: Option<VarValue>, at: Ptr, before: Option<Ptr>) -> bool {
    match state {
        Some(VarValue::Var(other)) => Some(other) == before || other == at,
        _ => true,
    }
}

/// The walk of a chain of wires. When a walk ends without a fault, its
/// trail is a chain in the frame it started from: every wire on it but the
/// last was linked to the next, and the last ends the walk. Every wire
/// that was walked past is emptied. If the last wire was unset or linked
/// back, the walk returns it and it holds the value; if it was linked to
/// itself, the walk returns it and it is emptied; if it was bound, the walk
/// returns what it was bound to and the wire is retired. No wire on the
/// trail is unset afterwards, and no slot off the trail has changed.
pub proof fn lemma_walk_trail(frame: Frame, var_ptr: Ptr, previous: Option<Ptr>, value: VarValue)
    requires
        frame.fault.is_none(),
        frame.walk(var_ptr, previous, value).0.fault.is_none(),
    ensures
        ({
            let (after, found) = frame.walk(var_ptr, previous, value);
            let trail = frame.trail(var_ptr, previous, value);
            let last = trail.last();
            let was = wire_state(frame.arena, last);
            let before = if trail.len() == 1 {
                previous
            } else {
                Some(trail[trail.len() - 2])
            };
            &&& trail.len() >= 1
            &&& trail[0] == var_ptr
            &&& forall|i: int| 0 <= i < trail.len() ==> (#[trigger] wire_state(
                frame.arena,
                trail[i],
            )).is_some()
            &&& forall|i: int|
                0 <= i < trail.len() - 1 ==> wire_state(frame.arena, #[trigger] trail[i]) == Some(
                    Some(VarValue::Var(trail[i + 1])),
                ) && emptied(after, trail[i])
            &&& was.is_some() && ends_walk(was.unwrap(), last, before)
            &&& match was.unwrap() {
                None => found == VarValue::Var(last) && wire_state(after.arena, last) == Some(
                    Some(value),
                ),
                Some(VarValue::Var(other)) => found == VarValue::Var(last) && if Some(other)
                    == before {
                    wire_state(after.arena, last) == Some(Some(value))
                } else {
                    emptied(after, last)
                },
                Some(bound) => found == bound && (after.free.contains(last) || emptied(
                    after,
                    last,
                )),
            }
            &&& forall|i: int|
                0 <= i < trail.len() ==> emptied(after, #[trigger] trail[i]) || (wire_state(
                    after.arena,
                    trail[i],
                ).is_some() && wire_state(after.arena, trail[i]).unwrap().is_some())
            &&& forall|ptr: Ptr|
                frame.arena.has(ptr) && !trail.contains(ptr) ==> #[trigger] after.arena.at(ptr)
                    == frame.arena.at(ptr)
        }),
    decreases frame.arena.live,
{
    let (after, found) = frame.walk(var_ptr, previous, value);
    let trail = frame.trail(var_ptr, previous, value);
    let (swapped, prior) = frame.swap(var_ptr, value);
    lemma_decode_encode(Some(value));
    assert(trail[0] == var_ptr);
    match prior {
        Some(VarValue::Var(other)) => {
            if Some(other) == previous {
                assert(trail =~= seq![var_ptr]);
                assert forall|ptr: Ptr| frame.arena.has(ptr) && !trail.contains(ptr) implies
                    #[trigger] after.arena.at(ptr) == frame.arena.at(ptr) by {
                    assert(trail[0] == var_ptr);
                }
            } else if swapped.arena.live == 0 {
            } else if other == var_ptr {
                assert(trail =~= seq![var_ptr]);
                assert forall|ptr: Ptr| frame.arena.has(ptr) && !trail.contains(ptr) implies
                    #[trigger] after.arena.at(ptr) == frame.arena.at(ptr) by {
                    assert(trail[0] == var_ptr);
                }
            } else {
                let released = swapped.release(var_ptr);
                let tail = released.trail(other, Some(var_ptr), value);
                lemma_walk_trail(released, other, Some(var_ptr), value);
                lemma_walk_keeps_empty(released, other, Some(var_ptr), value, var_ptr);
                assert(trail =~= seq![var_ptr] + tail);
                assert(wire_state(released.arena, var_ptr).is_none());
                assert forall|i: int| 0 <= i < tail.len() implies tail[i] != var_ptr && wire_state(
                    frame.arena,
                    #[trigger] tail[i],
                ) == wire_state(released.arena, tail[i]) by {
                    assert(wire_state(released.arena, tail[i]).is_some());
                }
                assert forall|i: int| 0 <= i < trail.len() implies (#[trigger] wire_state(
                    frame.arena,
                    trail[i],
                )).is_some() by {
                    if i > 0 {
                        assert(trail[i] == tail[i - 1]);
                    }
                }
                assert forall|i: int| 0 <= i < trail.len() - 1 implies wire_state(
                    frame.arena,
                    #[trigger] trail[i],
                ) == Some(Some(VarValue::Var(trail[i + 1]))) && emptied(after, trail[i]) by {
                    assert(trail[i + 1] == tail[i]);
                    if i > 0 {
                        assert(trail[i] == tail[i - 1]);
                    }
                }
                assert(trail.last() == tail.last());
                if tail.len() >= 2 {
                    assert(trail[trail.len() - 2] == tail[tail.len() - 2]);
                }
                assert forall|i: int| 0 <= i < trail.len() implies emptied(
                    after,
                    #[trigger] trail[i],
                ) || (wire_state(after.arena, trail[i]).is_some() && wire_state(
                    after.arena,
                    trail[i],
                ).unwrap().is_some()) by {
                    if i > 0 {
                        assert(trail[i] == tail[i - 1]);
                    }
                }
                assert forall|ptr: Ptr| frame.arena.has(ptr) && !trail.contains(ptr) implies
                    #[trigger] after.arena.at(ptr) == frame.arena.at(ptr) by {
                    assert(trail[0] == var_ptr);
                    if tail.contains(ptr) {
                        let j = choose|j: int| 0 <= j < tail.len() && tail[j] == ptr;
                        assert(trail[j + 1] == ptr);
                    }
                    assert(released.arena.at(ptr) == frame.arena.at(ptr));
                }
            }
        },
        Some(bound) => {
            assert(trail =~= seq![var_ptr]);
            assert forall|ptr: Ptr| frame.arena.has(ptr) && !trail.contains(ptr) implies
                #[trigger] after.arena.at(ptr) == frame.arena.at(ptr) by {
                assert(trail[0] == var_ptr);
            }
            if swapped.free.len() < FREE_PTRS_SIZE {
                assert(swapped.retire(var_ptr).free.last() == var_ptr);
            }
        },
        None => {
            assert(trail =~= seq![var_ptr]);
            assert forall|ptr: Ptr| frame.arena.has(ptr) && !trail.contains(ptr) implies
                #[trigger] after.arena.at(ptr) == frame.arena.at(ptr) by {
                assert(trail[0] == var_ptr);
            }
        },
    }
}

} // verus!
