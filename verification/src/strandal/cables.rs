//! Cables: the wire protocol keeps linked wires in pairs.
//!
//! A wire that is linked and not retired names a wire that is linked back
//! to it. Such a pair is a cable: each of its two wires has one end left.
//! A binding or a connection that arrives at one end of a cable empties
//! that wire and goes on at the other, which ends the walk. So a walk
//! takes two writes at most, no link is left dangling, and the protocol
//! reports no fault but that of a counter.

use vstd::prelude::*;

use super::machine::annihilates;
use super::machine::erase_rule;
use super::machine::order;
use super::machine::resolve;
use super::machine::rule;
use super::machine::End;
use super::machine::Frame;
use super::slots::lemma_step_wf;
use super::term::Cell;
use super::term::TermPtr;
use super::stats::Counter;
use super::store::Ptr;
use super::store::FREE_PTRS_SIZE;
use super::term::Term;
use super::var::lemma_decode_encode;
use super::var::Var;
use super::var::VarValue;
use super::wires::retired;
use super::wires::wire_state;
use crate::fault::Fault;

verus! {

/// The slot holds a wire that has not been retired.
pub open spec fn live_wire(frame: Frame, ptr: Ptr) -> bool {
    wire_state(frame.arena, ptr).is_some() && !retired(frame, ptr)
}

/// The slot holds a live wire in the given state.
pub open spec fn live_in(frame: Frame, ptr: Ptr, state: Option<VarValue>) -> bool {
    live_wire(frame, ptr) && wire_state(frame.arena, ptr) == Some(state)
}

/// Every live wire that is linked names another live wire that is linked
/// back to it.
pub open spec fn cabled(frame: Frame) -> bool {
    forall|ptr: Ptr, other: Ptr|
        #![trigger live_in(frame, ptr, Some(VarValue::Var(other)))]
        live_in(frame, ptr, Some(VarValue::Var(other))) ==> other != ptr && live_in(
            frame,
            other,
            Some(VarValue::Var(ptr)),
        )
}

/// The frame has stopped with no fault, or with that of a counter.
pub open spec fn sound(frame: Frame) -> bool {
    frame.fault.is_none() || frame.fault == Some(Fault::CounterOverflow)
}

/// The value binds: it is the eraser or an agent, not a link.
pub open spec fn binds(value: VarValue) -> bool {
    !(value is Var)
}

/// A walk that starts on a live wire of a cabled frame, from no wire, ends
/// without a fault. If the wire was unset the value rests in it. If it was
/// linked it is emptied and the value rests in the other wire of its
/// cable. If it was bound it is retired and the walk returns what it was
/// bound to.
pub proof fn lemma_walk_cabled(frame: Frame, var_ptr: Ptr, value: VarValue)
    requires
        frame.fault.is_none(),
        frame.arena.wf(),
        cabled(frame),
        live_wire(frame, var_ptr),
    ensures
        ({
            let (after, found) = frame.walk(var_ptr, None, value);
            let holding = Some(Term::Var(Var::holding(Some(value))));
            match wire_state(frame.arena, var_ptr).unwrap() {
                None => {
                    &&& after == Frame { arena: frame.arena.set(var_ptr, holding.unwrap()), ..frame }
                    &&& found == VarValue::Var(var_ptr)
                },
                Some(VarValue::Var(other)) => {
                    &&& after == Frame {
                        arena: frame.arena.set(var_ptr, holding.unwrap()).free(var_ptr).set(
                            other,
                            holding.unwrap(),
                        ),
                        ..frame
                    }
                    &&& found == VarValue::Var(other)
                },
                Some(bound) => {
                    &&& after == Frame {
                        arena: frame.arena.set(var_ptr, holding.unwrap()),
                        ..frame
                    }.retire(var_ptr)
                    &&& after.fault.is_none()
                    &&& found == bound
                },
            }
        }),
{
    reveal_with_fuel(Frame::walk, 2);
    lemma_decode_encode(Some(value));
    let (swapped, prior) = frame.swap(var_ptr, value);
    frame.arena.lemma_set_wf(var_ptr, Term::Var(Var::holding(Some(value))));
    match prior {
        Some(VarValue::Var(other)) => {
            assert(live_in(frame, var_ptr, Some(VarValue::Var(other))));
            swapped.arena.lemma_free_wf(var_ptr);
            let released = swapped.release(var_ptr);
            let (last, before) = released.swap(other, value);
            assert(before == Some(VarValue::Var(var_ptr)));
        },
        _ => {},
    }
}

/// Retiring a slot retires that slot and no other, or empties it if the
/// buffer is full.
pub proof fn lemma_retire_retires(frame: Frame, slot: Ptr, ptr: Ptr)
    requires
        frame.fault.is_none(),
        frame.arena.holds(slot),
    ensures
        frame.retire(slot).fault.is_none(),
        frame.retire(slot).scope == frame.scope,
        ptr != slot ==> retired(frame.retire(slot), ptr) == retired(frame, ptr),
        ptr != slot && frame.arena.has(ptr) ==> frame.retire(slot).arena.at(ptr) == frame.arena.at(
            ptr,
        ),
        frame.retire(slot).arena.slots.len() == frame.arena.slots.len(),
        retired(frame.retire(slot), slot) || frame.retire(slot).arena.at(slot).is_none(),
{
    let after = frame.retire(slot);
    if frame.free.len() < FREE_PTRS_SIZE {
        assert(after.free.last() == slot);
        if frame.free.contains(ptr) {
            let i = choose|i: int| 0 <= i < frame.free.len() && frame.free[i] == ptr;
            assert(after.free[i] == ptr);
        }
        if after.free.contains(ptr) && ptr != slot {
            let i = choose|i: int| 0 <= i < after.free.len() && after.free[i] == ptr;
            assert(frame.free[i] == ptr);
        }
    }
}

/// The wire protocol of a binding: on a live wire of a cabled frame a
/// binding reports no fault but that of a counter, and leaves the frame
/// cabled and its arena well formed. If the wire was unset, or linked, the
/// value rests at the end of its cable and no equation follows. If the wire
/// was bound, it is retired and the two values meet in the equation that
/// follows.
pub proof fn lemma_bind_cabled(frame: Frame, var_ptr: Ptr, value: VarValue)
    requires
        frame.fault.is_none(),
        frame.arena.wf(),
        cabled(frame),
        live_wire(frame, var_ptr),
        binds(value),
    ensures
        sound(frame.bind(var_ptr, None, value).0),
        frame.bind(var_ptr, None, value).0.arena.wf(),
        frame.bind(var_ptr, None, value).0.fault.is_none() ==> cabled(
            frame.bind(var_ptr, None, value).0,
        ),
        frame.bind(var_ptr, None, value).0.fault.is_none() ==> (match wire_state(
            frame.arena,
            var_ptr,
        ).unwrap() {
            None => frame.bind(var_ptr, None, value).1.is_none() && live_in(
                frame.bind(var_ptr, None, value).0,
                var_ptr,
                Some(value),
            ),
            Some(VarValue::Var(other)) => frame.bind(var_ptr, None, value).1.is_none() && live_in(
                frame.bind(var_ptr, None, value).0,
                other,
                Some(value),
            ) && frame.bind(var_ptr, None, value).0.arena.at(var_ptr).is_none(),
            Some(bound) => frame.bind(var_ptr, None, value).1 == Some(
                (super::machine::term_of(value), super::machine::term_of(bound)),
            ) && !live_wire(frame.bind(var_ptr, None, value).0, var_ptr),
        }),
{
    let counted = frame.count(Counter::Binds);
    if counted.fault.is_none() {
        assert(cabled(counted)) by {
            assert forall|ptr: Ptr, other: Ptr| #![trigger live_in(counted, ptr, Some(VarValue::Var(other)))]
                live_in(counted, ptr, Some(VarValue::Var(other))) implies other != ptr && live_in(
                counted,
                other,
                Some(VarValue::Var(ptr)),
            ) by {
                assert(live_in(frame, ptr, Some(VarValue::Var(other))));
            }
        }
        lemma_walk_settles(counted, var_ptr, value);
    }
}

/// A walk with a value that binds, on a live wire of a cabled frame, leaves
/// the frame cabled and its arena well formed.
pub proof fn lemma_walk_settles(frame: Frame, var_ptr: Ptr, value: VarValue)
    requires
        frame.fault.is_none(),
        frame.arena.wf(),
        cabled(frame),
        live_wire(frame, var_ptr),
        binds(value),
    ensures
        frame.walk(var_ptr, None, value).0.fault.is_none(),
        frame.walk(var_ptr, None, value).0.arena.wf(),
        frame.walk(var_ptr, None, value).0.tally == frame.tally,
        cabled(frame.walk(var_ptr, None, value).0),
        match wire_state(frame.arena, var_ptr).unwrap() {
            None => frame.walk(var_ptr, None, value).1 == VarValue::Var(var_ptr) && live_in(
                frame.walk(var_ptr, None, value).0,
                var_ptr,
                Some(value),
            ),
            Some(VarValue::Var(other)) => frame.walk(var_ptr, None, value).1 == VarValue::Var(other)
                && live_in(frame.walk(var_ptr, None, value).0, other, Some(value)) && frame.walk(
                var_ptr,
                None,
                value,
            ).0.arena.at(var_ptr).is_none(),
            Some(bound) => frame.walk(var_ptr, None, value).1 == bound && !live_wire(
                frame.walk(var_ptr, None, value).0,
                var_ptr,
            ),
        },
{
    lemma_walk_cabled(frame, var_ptr, value);
    lemma_decode_encode(Some(value));
    let (after, found) = frame.walk(var_ptr, None, value);
    let term = Term::Var(Var::holding(Some(value)));
    frame.arena.lemma_set_wf(var_ptr, term);
    let swapped = Frame { arena: frame.arena.set(var_ptr, term), ..frame };
    match wire_state(frame.arena, var_ptr).unwrap() {
        None => {
            assert forall|ptr: Ptr, other: Ptr| #![trigger live_in(after, ptr, Some(VarValue::Var(other)))]
                live_in(after, ptr, Some(VarValue::Var(other))) implies other != ptr && live_in(
                after,
                other,
                Some(VarValue::Var(ptr)),
            ) by {
                assert(live_in(frame, ptr, Some(VarValue::Var(other))));
            }
        },
        Some(VarValue::Var(partner)) => {
            assert(live_in(frame, var_ptr, Some(VarValue::Var(partner))));
            swapped.arena.lemma_free_wf(var_ptr);
            swapped.arena.free(var_ptr).lemma_set_wf(partner, term);
            assert forall|ptr: Ptr, other: Ptr| #![trigger live_in(after, ptr, Some(VarValue::Var(other)))]
                live_in(after, ptr, Some(VarValue::Var(other))) implies other != ptr && live_in(
                after,
                other,
                Some(VarValue::Var(ptr)),
            ) by {
                assert(live_in(frame, ptr, Some(VarValue::Var(other))));
                assert(live_in(frame, other, Some(VarValue::Var(ptr))));
            }
        },
        Some(bound) => {
            assert forall|ptr: Ptr, other: Ptr| #![trigger live_in(after, ptr, Some(VarValue::Var(other)))]
                live_in(after, ptr, Some(VarValue::Var(other))) implies other != ptr && live_in(
                after,
                other,
                Some(VarValue::Var(ptr)),
            ) by {
                lemma_retire_retires(swapped, var_ptr, ptr);
                lemma_retire_retires(swapped, var_ptr, other);
                assert(live_in(frame, ptr, Some(VarValue::Var(other))));
                assert(live_in(frame, other, Some(VarValue::Var(ptr))));
            }
            lemma_retire_retires(swapped, var_ptr, var_ptr);
            if swapped.free.len() >= FREE_PTRS_SIZE {
                swapped.arena.lemma_free_wf(var_ptr);
            }
        },
    }
}

/// What a walk does where it starts on a wire whose link, if it has one
/// that leads on, is answered by the wire it names.
pub open spec fn walked(frame: Frame, var_ptr: Ptr, previous: Option<Ptr>, value: VarValue) -> (
    Frame,
    VarValue,
) {
    let term = Term::Var(Var::holding(Some(value)));
    let swapped = Frame { arena: frame.arena.set(var_ptr, term), ..frame };
    match wire_state(frame.arena, var_ptr).unwrap() {
        None => (swapped, VarValue::Var(var_ptr)),
        Some(VarValue::Var(other)) => if Some(other) == previous {
            (swapped, VarValue::Var(var_ptr))
        } else if other == var_ptr {
            (Frame { arena: swapped.arena.free(var_ptr), ..frame }, VarValue::Var(var_ptr))
        } else {
            (
                Frame { arena: swapped.arena.free(var_ptr).set(other, term), ..frame },
                VarValue::Var(other),
            )
        },
        Some(bound) => (swapped.retire(var_ptr), bound),
    }
}

/// The wire's link, if it has one that leads on, is answered: the wire it
/// names is linked back.
pub open spec fn answered(frame: Frame, var_ptr: Ptr, previous: Option<Ptr>) -> bool {
    match wire_state(frame.arena, var_ptr) {
        Some(Some(VarValue::Var(other))) => Some(other) == previous || other == var_ptr
            || wire_state(frame.arena, other) == Some(Some(VarValue::Var(var_ptr))),
        Some(_) => true,
        None => false,
    }
}

/// A walk from a wire whose link is answered takes two writes at most and
/// ends without a fault.
pub proof fn lemma_walk_shape(frame: Frame, var_ptr: Ptr, previous: Option<Ptr>, value: VarValue)
    requires
        frame.fault.is_none(),
        frame.arena.wf(),
        answered(frame, var_ptr, previous),
    ensures
        frame.walk(var_ptr, previous, value) == walked(frame, var_ptr, previous, value),
        walked(frame, var_ptr, previous, value).0.fault.is_none(),
        walked(frame, var_ptr, previous, value).0.arena.wf(),
        walked(frame, var_ptr, previous, value).0.tally == frame.tally,
        walked(frame, var_ptr, previous, value).0.scope == frame.scope,
        walked(frame, var_ptr, previous, value).0.arena.slots.len() == frame.arena.slots.len(),
{
    reveal_with_fuel(Frame::walk, 2);
    lemma_decode_encode(Some(value));
    let term = Term::Var(Var::holding(Some(value)));
    let (swapped, prior) = frame.swap(var_ptr, value);
    frame.arena.lemma_set_wf(var_ptr, term);
    match prior {
        Some(VarValue::Var(other)) => {
            if Some(other) != previous {
                swapped.arena.lemma_free_wf(var_ptr);
                let released = swapped.release(var_ptr);
                if other != var_ptr {
                    released.arena.lemma_set_wf(other, term);
                    let (last, before) = released.swap(other, value);
                    assert(before == Some(VarValue::Var(var_ptr)));
                }
            }
        },
        None => {},
        Some(bound) => {
            if swapped.free.len() >= FREE_PTRS_SIZE {
                swapped.arena.lemma_free_wf(var_ptr);
            }
        },
    }
}

/// A frame that differs from a cabled one in its counters only is
/// cabled.
pub proof fn lemma_cabled_counted(frame: Frame, counter: Counter)
    requires
        cabled(frame),
    ensures
        cabled(frame.count(counter)),
        forall|ptr: Ptr| live_wire(frame.count(counter), ptr) == live_wire(frame, ptr),
{
    let counted = frame.count(counter);
    assert forall|ptr: Ptr, other: Ptr| #![trigger live_in(counted, ptr, Some(VarValue::Var(other)))]
        live_in(counted, ptr, Some(VarValue::Var(other))) implies other != ptr && live_in(
        counted,
        other,
        Some(VarValue::Var(ptr)),
    ) by {
        assert(live_in(frame, ptr, Some(VarValue::Var(other))));
    }
}

/// The wire at the far end of the cable that the wire belongs to: the wire
/// it is linked to, or the wire itself.
pub open spec fn far_end(frame: Frame, ptr: Ptr) -> Ptr {
    match wire_state(frame.arena, ptr) {
        Some(Some(VarValue::Var(other))) => other,
        _ => ptr,
    }
}

/// The wire protocol of a connection: between two live wires of a cabled
/// frame, which are two wires or one wire that is unset, a connection
/// reports no fault but that of a counter, and leaves the frame cabled and
/// its arena well formed.
pub proof fn lemma_connect_cabled(frame: Frame, left: Ptr, right: Ptr)
    requires
        frame.fault.is_none(),
        frame.arena.wf(),
        cabled(frame),
        live_wire(frame, left),
        live_wire(frame, right),
        left == right ==> wire_state(frame.arena, left) == Some(None::<VarValue>),
    ensures
        sound(frame.connect(left, right).0),
        frame.connect(left, right).0.arena.wf(),
        frame.connect(left, right).0.fault.is_none() ==> cabled(frame.connect(left, right).0),
{
    let counted = frame.count(Counter::Connects);
    lemma_cabled_counted(frame, Counter::Connects);
    if counted.fault.is_none() {
        match wire_state(counted.arena, right).unwrap() {
            None => {
                lemma_connect_open(counted, left, right);
            },
            Some(VarValue::Var(_)) => {
                lemma_connect_open(counted, left, right);
            },
            Some(bound) => {
                lemma_connect_right_bound(counted, left, right);
            },
        }
    }
}

/// A connection of which the right wire is bound retires that wire and
/// binds the left wire to what it was bound to.
proof fn lemma_connect_right_bound(frame: Frame, left: Ptr, right: Ptr)
    requires
        frame.fault.is_none(),
        frame.arena.wf(),
        cabled(frame),
        live_wire(frame, left),
        live_wire(frame, right),
        left != right,
        wire_state(frame.arena, right).unwrap().is_some(),
        binds(wire_state(frame.arena, right).unwrap().unwrap()),
    ensures
        ({
            let link = VarValue::Var(left);
            let (walked, found) = frame.walk(right, None, link);
            &&& walked.fault.is_none()
            &&& binds(found)
            &&& sound(walked.bind(left, None, found).0)
            &&& walked.bind(left, None, found).0.arena.wf()
            &&& walked.bind(left, None, found).0.fault.is_none() ==> cabled(
                walked.bind(left, None, found).0,
            )
        }),
{
    let link = VarValue::Var(left);
    lemma_walk_shape(frame, right, None, link);
    lemma_decode_encode(Some(link));
    let (walked, found) = frame.walk(right, None, link);
    let swapped = Frame { arena: frame.arena.set(right, Term::Var(Var::holding(Some(link)))), ..frame };
    lemma_retire_retires(swapped, right, left);
    lemma_retire_retires(swapped, right, right);
    assert forall|ptr: Ptr, other: Ptr| #![trigger live_in(walked, ptr, Some(VarValue::Var(other)))]
        live_in(walked, ptr, Some(VarValue::Var(other))) implies other != ptr && live_in(
        walked,
        other,
        Some(VarValue::Var(ptr)),
    ) by {
        lemma_retire_retires(swapped, right, ptr);
        lemma_retire_retires(swapped, right, other);
        assert(live_in(frame, ptr, Some(VarValue::Var(other))));
        assert(live_in(frame, other, Some(VarValue::Var(ptr))));
    }
    lemma_bind_cabled(walked, left, found);
}

/// A connection of which the right wire is unset or linked links the far
/// ends of the two wires to each other, binds the far end of the right wire
/// if the left wire is bound, or empties both wires if they close a loop.
proof fn lemma_connect_open(frame: Frame, left: Ptr, right: Ptr)
    requires
        frame.fault.is_none(),
        frame.arena.wf(),
        cabled(frame),
        live_wire(frame, left),
        live_wire(frame, right),
        left == right ==> wire_state(frame.arena, left) == Some(None::<VarValue>),
        match wire_state(frame.arena, right).unwrap() {
            None => true,
            Some(VarValue::Var(_)) => true,
            _ => false,
        },
    ensures
        sound(connect_walks(frame, left, right).0),
        connect_walks(frame, left, right).0.arena.wf(),
        connect_walks(frame, left, right).0.fault.is_none() ==> cabled(
            connect_walks(frame, left, right).0,
        ),
{
    let link = VarValue::Var(left);
    let right_end = far_end(frame, right);
    if right_end != right {
        assert(live_in(frame, right, Some(VarValue::Var(right_end))));
    }
    lemma_walk_shape(frame, right, None, link);
    lemma_decode_encode(Some(link));
    let (first, right_found) = frame.walk(right, None, link);
    assert(right_found == VarValue::Var(right_end));
    let back = VarValue::Var(right_end);
    lemma_decode_encode(Some(back));
    if wire_state(frame.arena, left).unwrap() is Some && wire_state(
        frame.arena,
        left,
    ).unwrap().unwrap() is Var {
        assert(live_in(frame, left, Some(VarValue::Var(far_end(frame, left)))));
    }
    if first.arena.holds(right_end) {
        assert(answered(first, left, None));
        lemma_walk_shape(first, left, None, back);
        let (second, left_found) = first.walk(left, None, back);
        match left_found {
            VarValue::Var(left_end) => {
                if left_end != left && second.arena.holds(left_end) {
                    let fix = VarValue::Var(left_end);
                    lemma_decode_encode(Some(fix));
                    second.arena.lemma_set_wf(right_end, Term::Var(Var::holding(Some(fix))));
                    let last = second.swap(right_end, fix).0;
                    assert forall|ptr: Ptr, other: Ptr| #![trigger live_in(last, ptr, Some(VarValue::Var(other)))]
                        live_in(last, ptr, Some(VarValue::Var(other))) implies other != ptr
                        && live_in(last, other, Some(VarValue::Var(ptr))) by {
                        if ptr != left_end && ptr != right_end {
                            assert(live_in(frame, ptr, Some(VarValue::Var(other))));
                            assert(live_in(frame, other, Some(VarValue::Var(ptr))));
                        }
                    }
                } else {
                    assert forall|ptr: Ptr, other: Ptr| #![trigger live_in(second, ptr, Some(VarValue::Var(other)))]
                        live_in(second, ptr, Some(VarValue::Var(other))) implies other != ptr
                        && live_in(second, other, Some(VarValue::Var(ptr))) by {
                        if ptr != left && ptr != right_end {
                            assert(live_in(frame, ptr, Some(VarValue::Var(other))));
                            assert(live_in(frame, other, Some(VarValue::Var(ptr))));
                        }
                    }
                }
            },
            bound => {
                let swapped = Frame {
                    arena: first.arena.set(left, Term::Var(Var::holding(Some(back)))),
                    ..first
                };
                lemma_retire_retires(swapped, left, right_end);
                lemma_retire_retires(swapped, left, left);
                let counted = second.count(Counter::Binds);
                if counted.fault.is_none() {
                    assert(answered(counted, right_end, Some(left)));
                    lemma_walk_shape(counted, right_end, Some(left), bound);
                    lemma_decode_encode(Some(bound));
                    let last = counted.walk(right_end, Some(left), bound).0;
                    assert forall|ptr: Ptr, other: Ptr| #![trigger live_in(last, ptr, Some(VarValue::Var(other)))]
                        live_in(last, ptr, Some(VarValue::Var(other))) implies other != ptr
                        && live_in(last, other, Some(VarValue::Var(ptr))) by {
                        lemma_retire_retires(swapped, left, ptr);
                        lemma_retire_retires(swapped, left, other);
                        if ptr != left && ptr != right_end {
                            assert(live_in(frame, ptr, Some(VarValue::Var(other))));
                            assert(live_in(frame, other, Some(VarValue::Var(ptr))));
                        }
                    }
                }
            },
        }
    } else {
        assert forall|ptr: Ptr, other: Ptr| #![trigger live_in(first, ptr, Some(VarValue::Var(other)))]
            live_in(first, ptr, Some(VarValue::Var(other))) implies other != ptr && live_in(
            first,
            other,
            Some(VarValue::Var(ptr)),
        ) by {
            assert(live_in(frame, ptr, Some(VarValue::Var(other))));
            assert(live_in(frame, other, Some(VarValue::Var(ptr))));
        }
    }
}

/// What a connection does once it is counted: the two walks and what
/// follows them.
pub open spec fn connect_walks(frame: Frame, left: Ptr, right: Ptr) -> (
    Frame,
    Option<super::machine::Equation>,
) {
    let (right_walked, right_found) = frame.walk(right, None, VarValue::Var(left));
    if right_walked.fault.is_some() {
        (right_walked, None)
    } else {
        match right_found {
            VarValue::Var(right_end) => if !right_walked.arena.holds(right_end) {
                (right_walked, None)
            } else {
                let (left_walked, left_found) = right_walked.walk(
                    left,
                    None,
                    VarValue::Var(right_end),
                );
                if left_walked.fault.is_some() {
                    (left_walked, None)
                } else {
                    match left_found {
                        VarValue::Var(left_end) => if left_end != left && left_walked.arena.holds(
                            left_end,
                        ) {
                            (left_walked.swap(right_end, VarValue::Var(left_end)).0, None)
                        } else {
                            (left_walked, None)
                        },
                        _ => left_walked.bind(right_end, Some(left), left_found),
                    }
                }
            },
            _ => right_walked.bind(left, None, right_found),
        }
    }
}

/// A connection of two unset wires links each to the other.
pub proof fn lemma_connect_fresh(frame: Frame, left: Ptr, right: Ptr)
    requires
        frame.fault.is_none(),
        frame.arena.wf(),
        frame.tally.get(Counter::Connects) < usize::MAX,
        live_in(frame, left, None),
        live_in(frame, right, None),
        left != right,
    ensures
        frame.connect(left, right).1.is_none(),
        frame.connect(left, right).0.fault.is_none(),
        live_in(frame.connect(left, right).0, left, Some(VarValue::Var(right))),
        live_in(frame.connect(left, right).0, right, Some(VarValue::Var(left))),
{
    let counted = frame.count(Counter::Connects);
    lemma_decode_encode(Some(VarValue::Var(left)));
    lemma_decode_encode(Some(VarValue::Var(right)));
    lemma_walk_shape(counted, right, None, VarValue::Var(left));
    let first = counted.walk(right, None, VarValue::Var(left)).0;
    lemma_walk_shape(first, left, None, VarValue::Var(right));
}

/// A connection of an unset wire with itself closes a loop: the wire is
/// emptied.
pub proof fn lemma_connect_loop(frame: Frame, wire: Ptr)
    requires
        frame.fault.is_none(),
        frame.arena.wf(),
        frame.tally.get(Counter::Connects) < usize::MAX,
        live_in(frame, wire, None),
    ensures
        frame.connect(wire, wire).1.is_none(),
        frame.connect(wire, wire).0.fault.is_none(),
        frame.connect(wire, wire).0.arena.at(wire).is_none(),
{
    let counted = frame.count(Counter::Connects);
    lemma_decode_encode(Some(VarValue::Var(wire)));
    lemma_walk_shape(counted, wire, None, VarValue::Var(wire));
    let first = counted.walk(wire, None, VarValue::Var(wire)).0;
    lemma_walk_shape(first, wire, None, VarValue::Var(wire));
}

/// From one frame to a later one the wires are the same: every wire is in
/// the state it was in and retired if and only if it was, and a wire that
/// is new is unset.
pub open spec fn same_wires(before: Frame, after: Frame) -> bool {
    &&& forall|ptr: Ptr| #![trigger wire_state(after.arena, ptr)]
        wire_state(before.arena, ptr).is_some() ==> wire_state(after.arena, ptr) == wire_state(
            before.arena,
            ptr,
        ) && retired(after, ptr) == retired(before, ptr)
    &&& forall|ptr: Ptr| #![trigger wire_state(after.arena, ptr)]
        wire_state(before.arena, ptr).is_none() && wire_state(after.arena, ptr).is_some()
            ==> wire_state(after.arena, ptr) == Some(None::<VarValue>)
}

/// A frame with the same wires as a cabled frame is cabled.
pub proof fn lemma_same_wires_cabled(before: Frame, after: Frame)
    requires
        cabled(before),
        same_wires(before, after),
    ensures
        cabled(after),
{
    assert forall|ptr: Ptr, other: Ptr| #![trigger live_in(after, ptr, Some(VarValue::Var(other)))]
        live_in(after, ptr, Some(VarValue::Var(other))) implies other != ptr && live_in(
        after,
        other,
        Some(VarValue::Var(ptr)),
    ) by {
        assert(wire_state(after.arena, ptr).is_some());
        assert(wire_state(before.arena, ptr).is_some());
        assert(live_in(before, ptr, Some(VarValue::Var(other))));
        assert(live_in(before, other, Some(VarValue::Var(ptr))));
        assert(wire_state(after.arena, other).is_some());
    }
}

/// Having the same wires carries over from step to step.
pub proof fn lemma_same_wires_trans(first: Frame, second: Frame, third: Frame)
    requires
        same_wires(first, second),
        same_wires(second, third),
    ensures
        same_wires(first, third),
{
    assert forall|ptr: Ptr| #![trigger wire_state(third.arena, ptr)]
        wire_state(first.arena, ptr).is_some() implies wire_state(third.arena, ptr) == wire_state(
        first.arena,
        ptr,
    ) && retired(third, ptr) == retired(first, ptr) by {
        assert(wire_state(second.arena, ptr) == wire_state(first.arena, ptr));
    }
    assert forall|ptr: Ptr| #![trigger wire_state(third.arena, ptr)]
        wire_state(first.arena, ptr).is_none() && wire_state(third.arena, ptr).is_some()
        implies wire_state(third.arena, ptr) == Some(None::<VarValue>) by {
        if wire_state(second.arena, ptr).is_some() {
            assert(wire_state(second.arena, ptr) == Some(None::<VarValue>));
        }
    }
}

/// The wires are the same after an event is counted, after the slot of an
/// agent is retired or reused, after a task is spawned, and after a slot is
/// handed out for an agent or for an unset wire.
pub proof fn lemma_ops_same_wires(
    frame: Frame,
    agent: Ptr,
    cell: Cell,
    counter: Counter,
    left: TermPtr,
    right: TermPtr,
    n: u8,
)
    requires
        frame.arena.holds(agent),
        frame.arena.at(agent).unwrap() is Cell,
        n > 0,
    ensures
        same_wires(frame, frame.count(counter)),
        same_wires(frame, frame.retire(agent)),
        same_wires(frame, frame.reuse_cell(agent, cell)),
        frame.reuse_cell(agent, cell).arena.holds(agent),
        frame.reuse_cell(agent, cell).arena.at(agent).unwrap() is Cell,
        same_wires(frame, frame.spawn(left, right, n)),
        same_wires(frame, frame.alloc_var().0),
        same_wires(frame, frame.alloc_cell(cell).0),
        forall|ptr: Ptr|
            frame.arena.holds(ptr) ==> {
                &&& #[trigger] frame.alloc_var().0.arena.holds(ptr)
                &&& frame.alloc_var().0.arena.at(ptr) == frame.arena.at(ptr)
                &&& #[trigger] frame.alloc_cell(cell).0.arena.holds(ptr)
                &&& frame.alloc_cell(cell).0.arena.at(ptr) == frame.arena.at(ptr)
                &&& #[trigger] frame.spawn(left, right, n).arena.holds(ptr)
                &&& #[trigger] frame.count(counter).arena.holds(ptr)
                &&& frame.count(counter).arena.at(ptr) == frame.arena.at(ptr)
            },
{
    lemma_decode_encode(None);
    if frame.fault.is_none() {
        let after = frame.retire(agent);
        assert forall|ptr: Ptr| #![trigger wire_state(after.arena, ptr)]
            wire_state(frame.arena, ptr).is_some() implies wire_state(after.arena, ptr)
            == wire_state(frame.arena, ptr) && retired(after, ptr) == retired(frame, ptr) by {
            lemma_retire_retires(frame, agent, ptr);
        }
        let spawned = frame.spawn(left, right, n);
        assert forall|ptr: Ptr| #![trigger wire_state(spawned.arena, ptr)]
            wire_state(frame.arena, ptr).is_some() implies retired(spawned, ptr) == retired(
            frame,
            ptr,
        ) by {
            lemma_spawn_retired(frame, left, right, n, ptr);
        }
    }
}

/// A slot is retired after a task is spawned if and only if it was
/// before: it stays in the buffer or goes with the new task.
pub proof fn lemma_spawn_retired(
    frame: Frame,
    left: TermPtr,
    right: TermPtr,
    n: u8,
    ptr: Ptr,
)
    requires
        frame.fault.is_none(),
        n > 0,
    ensures
        retired(frame.spawn(left, right, n), ptr) == retired(frame, ptr),
{
    let after = frame.spawn(left, right, n);
    let cut = frame.free.len() as int / n as int;
    assert(0 <= cut <= frame.free.len()) by (nonlinear_arith)
        requires
            cut == frame.free.len() as int / n as int,
            n > 0,
    ;
    let job = after.scope.last();
    if frame.free.contains(ptr) {
        let i = choose|i: int| 0 <= i < frame.free.len() && frame.free[i] == ptr;
        if i < cut {
            assert(after.free[i] == ptr);
        } else {
            assert(job.free[i - cut] == ptr);
            assert(after.scope[after.scope.len() - 1].free.contains(ptr));
        }
    }
    if exists|i: int| 0 <= i < frame.scope.len() && (#[trigger] frame.scope[i]).free.contains(ptr) {
        let i = choose|i: int|
            0 <= i < frame.scope.len() && (#[trigger] frame.scope[i]).free.contains(ptr);
        assert(after.scope[i].free.contains(ptr));
    }
    if after.free.contains(ptr) {
        let i = choose|i: int| 0 <= i < after.free.len() && after.free[i] == ptr;
        assert(frame.free[i] == ptr);
    }
    if exists|i: int| 0 <= i < after.scope.len() && (#[trigger] after.scope[i]).free.contains(ptr) {
        let i = choose|i: int|
            0 <= i < after.scope.len() && (#[trigger] after.scope[i]).free.contains(ptr);
        if i < frame.scope.len() {
            assert(frame.scope[i].free.contains(ptr));
        } else {
            let k = choose|k: int| 0 <= k < job.free.len() && job.free[k] == ptr;
            assert(frame.free[cut + k] == ptr);
        }
    }
}

/// The equation can be evaluated: both its ends can be read, an end that
/// is a wire is a live wire, two ends that are one wire are an unset wire,
/// and two ends that are agents are two agents.
pub open spec fn ready(frame: Frame, left: TermPtr, right: TermPtr) -> bool {
    match (resolve(frame.arena, left), resolve(frame.arena, right)) {
        (End::Broken(_), _) => false,
        (_, End::Broken(_)) => false,
        (End::Var(left_var), End::Var(right_var)) => live_wire(frame, left_var) && live_wire(
            frame,
            right_var,
        ) && (left_var == right_var ==> wire_state(frame.arena, left_var) == Some(
            None::<VarValue>,
        )),
        (End::Var(var), _) => live_wire(frame, var),
        (_, End::Var(var)) => live_wire(frame, var),
        (End::Cell(left_ptr, _), End::Cell(right_ptr, _)) => left_ptr != right_ptr,
        _ => true,
    }
}

/// The frame has stopped with no fault, or because a counter or the arena
/// is full.
pub open spec fn out_of_room(frame: Frame) -> bool {
    sound(frame) || frame.fault == Some(Fault::ArenaExhausted)
}

/// The wires are the same after a commutation of two agents that are in
/// two slots.
pub proof fn lemma_commute_same_wires(
    frame: Frame,
    left_ptr: Ptr,
    left: Cell,
    right_ptr: Ptr,
    right: Cell,
)
    requires
        frame.arena.holds(left_ptr),
        frame.arena.at(left_ptr).unwrap() is Cell,
        frame.arena.holds(right_ptr),
        frame.arena.at(right_ptr).unwrap() is Cell,
        left_ptr != right_ptr,
    ensures
        same_wires(frame, frame.commute(left_ptr, left, right_ptr, right).0),
        out_of_room(frame) ==> out_of_room(frame.commute(left_ptr, left, right_ptr, right).0),
{
    let era = TermPtr::Era;
    let c = Counter::Binds;
    if left.spec_ports().is_none() && right.spec_ports().is_none() {
        let first = frame.retire(left_ptr);
        lemma_ops_same_wires(frame, left_ptr, left, c, era, era, 1);
        if frame.fault.is_none() {
            lemma_retire_retires(frame, left_ptr, right_ptr);
        }
        lemma_ops_same_wires(first, right_ptr, left, c, era, era, 1);
        lemma_same_wires_trans(frame, first, first.retire(right_ptr));
        if first.fault.is_none() {
            lemma_retire_retires(first, right_ptr, right_ptr);
        }
    } else {
        let (f1, x1) = frame.alloc_var();
        let (f2, x2) = f1.alloc_var();
        let (f3, x3) = f2.alloc_var();
        let (f4, x4) = f3.alloc_var();
        let (x1, x2, x3, x4) = (TermPtr::Ptr(x1), TermPtr::Ptr(x2), TermPtr::Ptr(x3), TermPtr::Ptr(x4));
        let f5 = f4.reuse_cell(left_ptr, left.spec_with_ports(x1, x3));
        let (f6, left_1) = f5.alloc_cell(left.spec_with_ports(x4, x2));
        let f7 = f6.reuse_cell(right_ptr, right.spec_with_ports(x1, x4));
        let (f8, right_1) = f7.alloc_cell(right.spec_with_ports(x3, x2));
        lemma_ops_same_wires(frame, left_ptr, left, c, era, era, 1);
        lemma_ops_same_wires(f1, left_ptr, left, c, era, era, 1);
        lemma_same_wires_trans(frame, f1, f2);
        lemma_ops_same_wires(f2, left_ptr, left, c, era, era, 1);
        lemma_same_wires_trans(frame, f2, f3);
        lemma_ops_same_wires(f3, left_ptr, left, c, era, era, 1);
        lemma_same_wires_trans(frame, f3, f4);
        assert(f4.arena.holds(right_ptr) && f4.arena.at(right_ptr).unwrap() is Cell);
        lemma_ops_same_wires(f4, left_ptr, left.spec_with_ports(x1, x3), c, era, era, 1);
        lemma_same_wires_trans(frame, f4, f5);
        assert(f5.arena.holds(right_ptr) && f5.arena.at(right_ptr).unwrap() is Cell);
        lemma_ops_same_wires(f5, right_ptr, left.spec_with_ports(x4, x2), c, era, era, 1);
        lemma_same_wires_trans(frame, f5, f6);
        lemma_ops_same_wires(f6, right_ptr, right.spec_with_ports(x1, x4), c, era, era, 1);
        lemma_same_wires_trans(frame, f6, f7);
        lemma_ops_same_wires(f7, right_ptr, right.spec_with_ports(x3, x2), c, era, era, 1);
        lemma_same_wires_trans(frame, f7, f8);
        let (left_0, left_1, right_0, right_1) = (
            TermPtr::Ptr(left_ptr),
            TermPtr::Ptr(left_1),
            TermPtr::Ptr(right_ptr),
            TermPtr::Ptr(right_1),
        );
        match (left.spec_ports(), right.spec_ports()) {
            (Some((left_p0, left_p1)), Some((right_p0, right_p1))) => {
                let g1 = f8.spawn(right_0, left_p0, 4);
                let g2 = g1.spawn(right_1, left_p1, 3);
                let g3 = g2.spawn(left_0, right_p0, 2);
                lemma_ops_same_wires(f8, right_ptr, right, c, right_0, left_p0, 4);
                lemma_same_wires_trans(frame, f8, g1);
                lemma_ops_same_wires(g1, right_ptr, right, c, right_1, left_p1, 3);
                lemma_same_wires_trans(frame, g1, g2);
                lemma_ops_same_wires(g2, right_ptr, right, c, left_0, right_p0, 2);
                lemma_same_wires_trans(frame, g2, g3);
            },
            (None, Some((right_p0, right_p1))) => {
                let g1 = f8.spawn(left_0, right_p0, 3);
                let g2 = g1.spawn(left_1, right_p1, 2);
                lemma_ops_same_wires(f8, right_ptr, right, c, left_0, right_p0, 3);
                lemma_same_wires_trans(frame, f8, g1);
                lemma_ops_same_wires(g1, right_ptr, right, c, left_1, right_p1, 2);
                lemma_same_wires_trans(frame, g1, g2);
            },
            (Some((left_p0, left_p1)), None) => {
                let g1 = f8.spawn(right_0, left_p0, 3);
                let g2 = g1.spawn(right_1, left_p1, 2);
                lemma_ops_same_wires(f8, right_ptr, right, c, right_0, left_p0, 3);
                lemma_same_wires_trans(frame, f8, g1);
                lemma_ops_same_wires(g1, right_ptr, right, c, right_1, left_p1, 2);
                lemma_same_wires_trans(frame, g1, g2);
            },
            (None, None) => {},
        }
    }
}

/// Cables are kept by every step: where the equation can be evaluated in a
/// cabled frame, the step reports no fault but that a counter or the arena
/// is full, and leaves the frame cabled. No reference is found dangling and
/// no slot of the wrong kind.
pub proof fn lemma_step_cabled(frame: Frame, left: TermPtr, right: TermPtr)
    requires
        frame.fault.is_none(),
        frame.arena.wf(),
        cabled(frame),
        ready(frame, left, right),
    ensures
        out_of_room(frame.step(left, right).0),
        frame.step(left, right).0.arena.wf(),
        frame.step(left, right).0.fault.is_none() ==> cabled(frame.step(left, right).0),
{
    reveal(Frame::step);
    lemma_step_wf(frame, left, right);
    let era = TermPtr::Era;
    match (resolve(frame.arena, left), resolve(frame.arena, right)) {
        (End::Broken(_), _) => {},
        (_, End::Broken(_)) => {},
        (End::Era, End::Era) => {
            lemma_cabled_counted(frame, Counter::AnniEraEra);
        },
        (End::Era, End::Cell(ptr, cell)) => {
            lemma_erase_same_wires(frame, ptr, cell);
            lemma_same_wires_cabled(frame, frame.erase(ptr, cell).0);
        },
        (End::Cell(ptr, cell), End::Era) => {
            lemma_erase_same_wires(frame, ptr, cell);
            lemma_same_wires_cabled(frame, frame.erase(ptr, cell).0);
        },
        (End::Era, End::Var(var)) => {
            lemma_bind_cabled(frame, var, VarValue::Era);
        },
        (End::Var(var), End::Era) => {
            lemma_bind_cabled(frame, var, VarValue::Era);
        },
        (End::Cell(ptr, _), End::Var(var)) => {
            lemma_bind_cabled(frame, var, VarValue::Cell(ptr));
        },
        (End::Var(var), End::Cell(ptr, _)) => {
            lemma_bind_cabled(frame, var, VarValue::Cell(ptr));
        },
        (End::Var(left_var), End::Var(right_var)) => {
            lemma_connect_cabled(frame, left_var, right_var);
        },
        (End::Cell(left_ptr, left_cell), End::Cell(right_ptr, right_cell)) => {
            let counter = rule(left_cell, right_cell);
            let counted = frame.count(counter);
            lemma_ops_same_wires(frame, left_ptr, left_cell, counter, era, era, 1);
            if annihilates(left_cell, right_cell) {
                let first = counted.retire(left_ptr);
                let second = first.retire(right_ptr);
                lemma_ops_same_wires(counted, left_ptr, left_cell, counter, era, era, 1);
                if counted.fault.is_none() {
                    lemma_retire_retires(counted, left_ptr, right_ptr);
                }
                lemma_ops_same_wires(first, right_ptr, left_cell, counter, era, era, 1);
                lemma_same_wires_trans(frame, counted, first);
                lemma_same_wires_trans(frame, first, second);
                match (left_cell.spec_ports(), right_cell.spec_ports()) {
                    (Some((left_0, left_1)), Some((right_0, right_1))) => {
                        if second.fault.is_none() {
                            lemma_retire_retires(first, right_ptr, right_ptr);
                        }
                        lemma_spawn_same_wires(second, left_0, right_0, 2);
                        lemma_same_wires_trans(frame, second, second.spawn(left_0, right_0, 2));
                    },
                    _ => {},
                }
                lemma_same_wires_cabled(
                    frame,
                    frame.annihilate(
                        counter,
                        left_ptr,
                        left_cell.spec_ports(),
                        right_ptr,
                        right_cell.spec_ports(),
                    ).0,
                );
            } else if order(left_cell) <= order(right_cell) {
                lemma_commute_same_wires(counted, left_ptr, left_cell, right_ptr, right_cell);
                let after = counted.commute(left_ptr, left_cell, right_ptr, right_cell).0;
                lemma_same_wires_trans(frame, counted, after);
                lemma_same_wires_cabled(frame, after);
            } else {
                lemma_commute_same_wires(counted, right_ptr, right_cell, left_ptr, left_cell);
                let after = counted.commute(right_ptr, right_cell, left_ptr, left_cell).0;
                lemma_same_wires_trans(frame, counted, after);
                lemma_same_wires_cabled(frame, after);
            }
        },
    }
}

/// The wires are the same after a task is spawned.
pub proof fn lemma_spawn_same_wires(frame: Frame, left: TermPtr, right: TermPtr, n: u8)
    requires
        n > 0,
    ensures
        same_wires(frame, frame.spawn(left, right, n)),
{
    if frame.fault.is_none() {
        let spawned = frame.spawn(left, right, n);
        assert forall|ptr: Ptr| #![trigger wire_state(spawned.arena, ptr)]
            wire_state(frame.arena, ptr).is_some() implies retired(spawned, ptr) == retired(
            frame,
            ptr,
        ) by {
            lemma_spawn_retired(frame, left, right, n, ptr);
        }
    }
}

/// The wires are the same after an eraser is rewritten against an agent
/// that is in its slot, and no fault is reported but that of a counter.
pub proof fn lemma_erase_same_wires(frame: Frame, cell_ptr: Ptr, cell: Cell)
    requires
        frame.fault.is_none(),
        frame.arena.holds(cell_ptr),
        frame.arena.at(cell_ptr).unwrap() is Cell,
    ensures
        same_wires(frame, frame.erase(cell_ptr, cell).0),
        sound(frame.erase(cell_ptr, cell).0),
{
    let era = TermPtr::Era;
    let counted = frame.count(erase_rule(cell));
    let retired = counted.retire(cell_ptr);
    lemma_ops_same_wires(frame, cell_ptr, cell, erase_rule(cell), era, era, 1);
    lemma_ops_same_wires(counted, cell_ptr, cell, erase_rule(cell), era, era, 1);
    lemma_same_wires_trans(frame, counted, retired);
    if counted.fault.is_none() {
        lemma_retire_retires(counted, cell_ptr, cell_ptr);
    }
    match cell.spec_ports() {
        Some((port_0, port_1)) => {
            lemma_spawn_same_wires(retired, era, port_0, 2);
            lemma_same_wires_trans(frame, retired, retired.spawn(era, port_0, 2));
        },
        None => {},
    }
}

/// A walk that starts on a live wire that is bound retires that wire and
/// leaves the other wires as they are: the frame stays cabled.
pub proof fn lemma_met_cabled(frame: Frame, var_ptr: Ptr, value: VarValue)
    requires
        frame.fault.is_none(),
        frame.arena.wf(),
        cabled(frame),
        live_wire(frame, var_ptr),
        wire_state(frame.arena, var_ptr).unwrap().is_some(),
        binds(wire_state(frame.arena, var_ptr).unwrap().unwrap()),
    ensures
        frame.walk(var_ptr, None, value).0.fault.is_none(),
        frame.walk(var_ptr, None, value).0.arena.wf(),
        cabled(frame.walk(var_ptr, None, value).0),
        frame.walk(var_ptr, None, value).1 == wire_state(frame.arena, var_ptr).unwrap().unwrap(),
        !live_wire(frame.walk(var_ptr, None, value).0, var_ptr),
        forall|ptr: Ptr|
            ptr != var_ptr ==> #[trigger] live_wire(frame.walk(var_ptr, None, value).0, ptr)
                == live_wire(frame, ptr) && wire_state(
                frame.walk(var_ptr, None, value).0.arena,
                ptr,
            ) == wire_state(frame.arena, ptr),
{
    lemma_walk_shape(frame, var_ptr, None, value);
    lemma_decode_encode(Some(value));
    let walked = frame.walk(var_ptr, None, value).0;
    let swapped = Frame {
        arena: frame.arena.set(var_ptr, Term::Var(Var::holding(Some(value)))),
        ..frame
    };
    lemma_retire_retires(swapped, var_ptr, var_ptr);
    assert forall|ptr: Ptr| ptr != var_ptr implies #[trigger] live_wire(walked, ptr) == live_wire(
        frame,
        ptr,
    ) && wire_state(walked.arena, ptr) == wire_state(frame.arena, ptr) by {
        lemma_retire_retires(swapped, var_ptr, ptr);
    }
    assert forall|ptr: Ptr, other: Ptr| #![trigger live_in(walked, ptr, Some(VarValue::Var(other)))]
        live_in(walked, ptr, Some(VarValue::Var(other))) implies other != ptr && live_in(
        walked,
        other,
        Some(VarValue::Var(ptr)),
    ) by {
        lemma_retire_retires(swapped, var_ptr, ptr);
        lemma_retire_retires(swapped, var_ptr, other);
        assert(live_in(frame, ptr, Some(VarValue::Var(other))));
        assert(live_in(frame, other, Some(VarValue::Var(ptr))));
    }
}

} // verus!
