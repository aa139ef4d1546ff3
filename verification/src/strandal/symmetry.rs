//! An equation is evaluated in the same way whichever of its ends is
//! written first.

use vstd::prelude::*;

use super::cables::answered;
use super::cables::binds;
use super::cables::cabled;
use super::cables::far_end;
use super::cables::lemma_cabled_counted;
use super::cables::lemma_met_cabled;
use super::cables::lemma_walk_settles;
use super::cables::lemma_walk_shape;
use super::cables::live_wire;
use super::cables::ready;
use super::linear::lemma_cabled_answered;
use super::linear::lemma_right_walked;
use super::linear::lemma_walk_effect;
use super::machine::Class;
use super::machine::End;
use super::machine::Frame;
use super::machine::annihilates;
use super::machine::classify;
use super::machine::order;
use super::machine::resolve;
use super::machine::rule;
use super::stats::Counter;
use super::store::Arena;
use super::store::Ptr;
use super::term::Cell;
use super::term::Term;
use super::term::TermPtr;
use super::var::Var;
use super::var::VarValue;
use super::wires::wire_state;

verus! {

/// The kind of an equation does not depend on which end is written first.
pub proof fn lemma_classify_symmetric(arena: Arena, left: TermPtr, right: TermPtr)
    ensures
        classify(arena, left, right) == classify(arena, right, left),
{
}

/// The rule for two agents does not depend on which is written first.
pub proof fn lemma_rule_symmetric(left: Cell, right: Cell)
    ensures
        rule(left, right) == rule(right, left),
        annihilates(left, right) == annihilates(right, left),
{
}

/// An equation that erases, binds, or commutes two agents of different
/// kinds is evaluated to the same frame and the same next equation
/// whichever end is written first.
pub proof fn lemma_step_symmetric(frame: Frame, left: TermPtr, right: TermPtr)
    requires
        match classify(frame.arena, left, right) {
            Class::Connect => false,
            Class::Interact => order(resolve(frame.arena, left)->Cell_1) != order(
                resolve(frame.arena, right)->Cell_1,
            ),
            _ => true,
        },
    ensures
        frame.step(left, right) == frame.step(right, left),
{
    reveal(Frame::step);
}

/// The wire is bound.
pub open spec fn is_bound(frame: Frame, ptr: Ptr) -> bool {
    match wire_state(frame.arena, ptr) {
        Some(Some(value)) => binds(value),
        _ => false,
    }
}

/// What a connection counts: the connection, and a binding if either wire
/// is bound.
pub open spec fn connect_counted(frame: Frame, left: Ptr, right: Ptr) -> Frame {
    if is_bound(frame, left) || is_bound(frame, right) {
        frame.count(Counter::Connects).count(Counter::Binds)
    } else {
        frame.count(Counter::Connects)
    }
}

/// A connection between two live wires of a cabled frame counts the
/// connection, and one binding if either wire is bound; it reports a fault
/// only if one of these two counters is at its maximum.
pub proof fn lemma_connect_counts(frame: Frame, left: Ptr, right: Ptr)
    requires
        frame.fault.is_none(),
        frame.arena.wf(),
        cabled(frame),
        live_wire(frame, left),
        live_wire(frame, right),
        left == right ==> wire_state(frame.arena, left) == Some(None::<VarValue>),
    ensures
        frame.connect(left, right).0.tally == connect_counted(frame, left, right).tally,
        frame.connect(left, right).0.fault == connect_counted(frame, left, right).fault,
{
    let counted = frame.count(Counter::Connects);
    lemma_cabled_counted(frame, Counter::Connects);
    if counted.fault.is_none() {
        let link = VarValue::Var(left);
        lemma_cabled_answered(counted, right);
        lemma_cabled_answered(counted, left);
        if is_bound(frame, right) {
            lemma_met_cabled(counted, right, link);
            let (walked, found) = counted.walk(right, None, link);
            lemma_walk_shape(counted, right, None, link);
            let again = walked.count(Counter::Binds);
            lemma_cabled_counted(walked, Counter::Binds);
            if again.fault.is_none() {
                lemma_walk_settles(again, left, found);
            }
        } else {
            lemma_right_walked(counted, left, right);
            let right_end = far_end(counted, right);
            let back = VarValue::Var(right_end);
            let first = counted.walk(right, None, link).0;
            lemma_walk_shape(counted, right, None, link);
            lemma_walk_shape(first, left, None, back);
            lemma_walk_effect(first, left, None, back, right_end);
            let (second, left_found) = first.walk(left, None, back);
            match left_found {
                VarValue::Var(left_end) => {},
                bound => {
                    let again = second.count(Counter::Binds);
                    if again.fault.is_none() {
                        assert(answered(again, right_end, Some(left)));
                        lemma_walk_shape(again, right_end, Some(left), bound);
                    }
                },
            }
        }
    }
}

/// The counters do not depend on which end of an equation is written
/// first: where the equation can be evaluated in a cabled frame, the step
/// counts the same events and reports the same fault or none either way
/// round.
pub proof fn lemma_step_counts_symmetric(frame: Frame, left: TermPtr, right: TermPtr)
    requires
        frame.fault.is_none(),
        frame.arena.wf(),
        cabled(frame),
        ready(frame, left, right),
    ensures
        ready(frame, right, left),
        classify(frame.arena, left, right) == classify(frame.arena, right, left),
        frame.step(left, right).0.tally == frame.step(right, left).0.tally,
        frame.step(left, right).0.fault == frame.step(right, left).0.fault,
{
    match (resolve(frame.arena, left), resolve(frame.arena, right)) {
        (End::Var(left_var), End::Var(right_var)) => {
            reveal(Frame::step);
            lemma_connect_counts(frame, left_var, right_var);
            lemma_connect_counts(frame, right_var, left_var);
        },
        (End::Cell(left_ptr, left_cell), End::Cell(right_ptr, right_cell)) => {
            if order(left_cell) != order(right_cell) {
                lemma_step_symmetric(frame, left, right);
            } else {
                reveal(Frame::step);
                lemma_interact_symmetric(frame, left_ptr, left_cell, right_ptr, right_cell);
            }
        },
        _ => {
            lemma_step_symmetric(frame, left, right);
        },
    }
}

/// Two agents of one rank count the same events and report the same fault
/// or none whichever stands on the left.
pub proof fn lemma_interact_symmetric(
    frame: Frame,
    left_ptr: Ptr,
    left: Cell,
    right_ptr: Ptr,
    right: Cell,
)
    requires
        frame.fault.is_none(),
        frame.arena.wf(),
        frame.arena.holds(left_ptr),
        frame.arena.holds(right_ptr),
        left_ptr != right_ptr,
        order(left) == order(right),
    ensures
        frame.interact(left_ptr, left, right_ptr, right).0.tally == frame.interact(
            right_ptr,
            right,
            left_ptr,
            left,
        ).0.tally,
        frame.interact(left_ptr, left, right_ptr, right).0.fault == frame.interact(
            right_ptr,
            right,
            left_ptr,
            left,
        ).0.fault,
{
    let counter = rule(left, right);
    let counted = frame.count(counter);
    if counted.fault.is_none() {
        if annihilates(left, right) {
            frame.arena.lemma_free_wf(left_ptr);
            frame.arena.lemma_free_wf(right_ptr);
        } else {
            lemma_commute_tally(counted, left_ptr, left, right_ptr, right);
            lemma_commute_tally(counted, right_ptr, right, left_ptr, left);
        }
    }
}

/// What a commutation counts: nothing, if neither agent has ports; if one
/// has, four wires and two agents, as far as the counters and the arena
/// have room.
pub open spec fn commute_counted(frame: Frame, bare: bool) -> Frame {
    if bare {
        frame
    } else {
        let wire = Term::Var(Var::holding(None));
        let cell = Term::Cell(Cell::Lam(None));
        frame.allocate(Counter::AllocVars, wire).0.allocate(Counter::AllocVars, wire).0.allocate(
            Counter::AllocVars,
            wire,
        ).0.allocate(Counter::AllocVars, wire).0.allocate(Counter::AllocCells, cell).0.allocate(
            Counter::AllocCells,
            cell,
        ).0
    }
}

/// The counters and the fault of a commutation of two agents that are in
/// two slots are those of the slots it hands out.
pub proof fn lemma_commute_tally(frame: Frame, left_ptr: Ptr, left: Cell, right_ptr: Ptr, right: Cell)
    requires
        frame.fault.is_none(),
        frame.arena.wf(),
        frame.arena.holds(left_ptr),
        frame.arena.holds(right_ptr),
        left_ptr != right_ptr,
    ensures
        ({
            let bare = left.spec_ports().is_none() && right.spec_ports().is_none();
            &&& frame.commute(left_ptr, left, right_ptr, right).0.tally == commute_counted(
                frame,
                bare,
            ).tally
            &&& frame.commute(left_ptr, left, right_ptr, right).0.fault == commute_counted(
                frame,
                bare,
            ).fault
        }),
{
    if left.spec_ports().is_none() && right.spec_ports().is_none() {
        frame.arena.lemma_free_wf(left_ptr);
        frame.arena.lemma_free_wf(right_ptr);
    } else {
        let wire = Term::Var(Var::holding(None));
        let any = Term::Cell(Cell::Lam(None));
        let (f1, x1) = frame.alloc_var();
        let (f2, x2) = f1.alloc_var();
        let (f3, x3) = f2.alloc_var();
        let (f4, x4) = f3.alloc_var();
        let (x1, x2, x3, x4) = (TermPtr::Ptr(x1), TermPtr::Ptr(x2), TermPtr::Ptr(x3), TermPtr::Ptr(x4));
        let f5 = f4.reuse_cell(left_ptr, left.spec_with_ports(x1, x3));
        let (f6, left_1) = f5.alloc_cell(left.spec_with_ports(x4, x2));
        let f7 = f6.reuse_cell(right_ptr, right.spec_with_ports(x1, x4));
        let (f8, right_1) = f7.alloc_cell(right.spec_with_ports(x3, x2));
        let g4 = frame.allocate(Counter::AllocVars, wire).0.allocate(Counter::AllocVars, wire).0.allocate(
            Counter::AllocVars,
            wire,
        ).0.allocate(Counter::AllocVars, wire).0;
        let g5 = g4.allocate(Counter::AllocCells, any).0;
        let g6 = g5.allocate(Counter::AllocCells, any).0;
        assert(f4 == g4);
        assert(f6.tally == g5.tally && f6.fault == g5.fault && f6.arena.slots.len()
            == g5.arena.slots.len() && f6.arena.capacity == g5.arena.capacity);
        assert(f8.tally == g6.tally && f8.fault == g6.fault);
    }
}

} // verus!
