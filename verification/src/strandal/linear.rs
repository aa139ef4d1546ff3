//! Linear nets: every agent is referenced once and every wire twice.
//!
//! References are counted where they stand: at the ends of the equations
//! that wait, in the ports of the agents, and in the wires that are bound.
//! A net is linear if no slot is referenced more often than what it holds
//! allows: an agent and a wire that is linked or bound once, an unset wire
//! twice, an empty or retired slot not at all. The evaluation of a linear
//! net finds every reference it follows in place: it reports no fault but
//! that the arena, a counter or its steps have run out.

use vstd::prelude::*;

use super::cables::answered;
use super::cables::binds;
use super::cables::cabled;
use super::cables::far_end;
use super::cables::lemma_cabled_counted;
use super::cables::lemma_step_cabled;
use super::cables::out_of_room;
use super::cables::lemma_met_cabled;
use super::cables::live_in;
use super::cables::live_wire;
use super::cables::lemma_walk_shape;
use super::cables::ready;
use super::machine::annihilates;
use super::machine::erase_rule;
use super::machine::order;
use super::machine::resolve;
use super::machine::rule;
use super::machine::lemma_machine_stopped;
use super::machine::lemma_run_stopped;
use super::machine::lemma_task_takes_steps;
use super::machine::End;
use super::machine::Machine;
use super::machine::term_of;
use super::machine::Equation;
use super::machine::Frame;
use super::machine::Job;
use super::stats::Counter;
use super::stats::Tally;
use crate::fault::Fault;
use super::store::Arena;
use super::store::Ptr;
use super::store::FREE_PTRS_SIZE;
use super::term::Cell;
use super::term::Term;
use super::term::TermPtr;
use super::var::lemma_decode_encode;
use super::var::Var;
use super::var::VarValue;
use super::var::rank;
use super::wires::lemma_machine_in_order;
use super::wires::retired;
use super::wires::wire_state;

verus! {

/// The sum of the numbers.
pub open spec fn sum(numbers: Seq<nat>) -> nat
    decreases numbers.len(),
{
    if numbers.len() == 0 {
        0
    } else {
        sum(numbers.drop_last()) + numbers.last()
    }
}

/// One more number adds to the sum.
pub proof fn lemma_sum_push(numbers: Seq<nat>, number: nat)
    ensures
        sum(numbers.push(number)) == sum(numbers) + number,
{
    assert(numbers.push(number).drop_last() =~= numbers);
}

/// A number that is replaced changes the sum by the difference.
pub proof fn lemma_sum_update(numbers: Seq<nat>, at: int, number: nat)
    requires
        0 <= at < numbers.len(),
    ensures
        sum(numbers.update(at, number)) + numbers[at] == sum(numbers) + number,
    decreases numbers.len(),
{
    let updated = numbers.update(at, number);
    if at == numbers.len() - 1 {
        assert(updated.drop_last() =~= numbers.drop_last());
    } else {
        lemma_sum_update(numbers.drop_last(), at, number);
        assert(updated.drop_last() =~= numbers.drop_last().update(at, number));
    }
}

/// A sum is at least each of its numbers, and is zero only if all are.
pub proof fn lemma_sum_bounds(numbers: Seq<nat>, at: int)
    requires
        0 <= at < numbers.len(),
    ensures
        sum(numbers) >= numbers[at],
    decreases numbers.len(),
{
    if at < numbers.len() - 1 {
        lemma_sum_bounds(numbers.drop_last(), at);
    }
}

/// A sum that is not zero has a number that is not zero.
pub proof fn lemma_sum_positive(numbers: Seq<nat>) -> (at: int)
    requires
        sum(numbers) > 0,
    ensures
        0 <= at < numbers.len(),
        numbers[at] > 0,
    decreases numbers.len(),
{
    if numbers.last() > 0 {
        numbers.len() - 1
    } else {
        lemma_sum_positive(numbers.drop_last())
    }
}

/// How often the slot stands in the list.
pub open spec fn occurrences(list: Seq<Ptr>, ptr: Ptr) -> nat
    decreases list.len(),
{
    if list.len() == 0 {
        0
    } else {
        occurrences(list.drop_last(), ptr) + if list.last() == ptr {
            1nat
        } else {
            0nat
        }
    }
}

/// A slot stands in a list if and only if it stands there at least once.
pub proof fn lemma_occurrences_contains(list: Seq<Ptr>, ptr: Ptr)
    ensures
        list.contains(ptr) <==> occurrences(list, ptr) >= 1,
    decreases list.len(),
{
    if list.len() > 0 {
        lemma_occurrences_contains(list.drop_last(), ptr);
        if list.contains(ptr) {
            let i = choose|i: int| 0 <= i < list.len() && list[i] == ptr;
            if i < list.len() - 1 {
                assert(list.drop_last()[i] == ptr);
            }
        }
        if list.drop_last().contains(ptr) {
            let i = choose|i: int| 0 <= i < list.drop_last().len() && list.drop_last()[i] == ptr;
            assert(list[i] == ptr);
        }
    }
}

/// One more slot at the end of a list stands there once more.
pub proof fn lemma_occurrences_push(list: Seq<Ptr>, last: Ptr, ptr: Ptr)
    ensures
        occurrences(list.push(last), ptr) == occurrences(list, ptr) + if last == ptr {
            1nat
        } else {
            0nat
        },
{
    assert(list.push(last).drop_last() =~= list);
}

/// A list that is cut in two has its slots in the one part or the other.
pub proof fn lemma_occurrences_cut(list: Seq<Ptr>, cut: int, ptr: Ptr)
    requires
        0 <= cut <= list.len(),
    ensures
        occurrences(list.subrange(0, cut), ptr) + occurrences(
            list.subrange(cut, list.len() as int),
            ptr,
        ) == occurrences(list, ptr),
    decreases list.len(),
{
    let head = list.subrange(0, cut);
    let tail = list.subrange(cut, list.len() as int);
    if cut == list.len() {
        assert(head =~= list);
        assert(tail.len() == 0);
    } else {
        lemma_occurrences_cut(list.drop_last(), cut, ptr);
        assert(list.drop_last().subrange(0, cut) =~= head);
        assert(list.drop_last().subrange(cut, list.len() - 1) =~= tail.drop_last());
    }
}

/// Whether the term names the slot: one if it does.
pub open spec fn hit(term: TermPtr, ptr: Ptr) -> nat {
    if term == TermPtr::Ptr(ptr) {
        1
    } else {
        0
    }
}

/// How often the two terms name the slot.
pub open spec fn pair_hits(left: TermPtr, right: TermPtr, ptr: Ptr) -> nat {
    hit(left, ptr) + hit(right, ptr)
}

/// How often the ports of the agent name the slot.
pub open spec fn cell_hits(cell: Cell, ptr: Ptr) -> nat {
    match cell.spec_ports() {
        Some((port_0, port_1)) => pair_hits(port_0, port_1, ptr),
        None => 0,
    }
}

/// How often what a slot holds names the slot `ptr`: the ports of an agent,
/// or the agent that a wire is bound to. A link does not count.
pub open spec fn content_hits(content: Option<Term>, ptr: Ptr) -> nat {
    match content {
        Some(Term::Cell(cell)) => cell_hits(cell, ptr),
        Some(Term::Var(var)) => match var.value() {
            Some(VarValue::Cell(bound)) => if bound == ptr {
                1
            } else {
                0
            },
            _ => 0,
        },
        None => 0,
    }
}

/// How often the slot of index `at` names the slot `ptr`. A slot that is
/// retired names nothing.
pub open spec fn slot_hits(frame: Frame, at: int, ptr: Ptr) -> nat {
    if retired(frame, Ptr(at as u32)) {
        0
    } else {
        content_hits(frame.arena.slots[at], ptr)
    }
}

/// How often each slot of the arena names the slot `ptr`.
pub open spec fn arena_column(frame: Frame, ptr: Ptr) -> Seq<nat> {
    Seq::new(frame.arena.slots.len(), |at: int| slot_hits(frame, at, ptr))
}

/// How often each task that waits names the slot `ptr`.
pub open spec fn scope_column(scope: Seq<Job>, ptr: Ptr) -> Seq<nat> {
    Seq::new(scope.len(), |at: int| pair_hits(scope[at].left, scope[at].right, ptr))
}

/// How often the equation in hand names the slot `ptr`.
pub open spec fn equation_hits(equation: Option<Equation>, ptr: Ptr) -> nat {
    match equation {
        Some((left, right)) => pair_hits(left, right, ptr),
        None => 0,
    }
}

/// How often the slot is referenced: by the equation in hand, by the tasks
/// that wait, by what the arena holds, and by the terms that an observer
/// holds.
pub open spec fn refs(heads: Seq<TermPtr>, frame: Frame, equation: Option<Equation>, ptr: Ptr) -> nat {
    equation_hits(equation, ptr) + sum(scope_column(frame.scope, ptr)) + sum(
        arena_column(frame, ptr),
    ) + sum(head_column(heads, ptr))
}

/// How often each of the terms that an observer holds names the slot `ptr`.
pub open spec fn head_column(heads: Seq<TermPtr>, ptr: Ptr) -> Seq<nat> {
    Seq::new(heads.len(), |at: int| hit(heads[at], ptr))
}

/// How often the slot may be referenced: an agent and a wire that is
/// linked or bound once, an unset wire twice, another slot not at all.
pub open spec fn cap(frame: Frame, ptr: Ptr) -> nat {
    if !frame.arena.holds(ptr) || retired(frame, ptr) {
        0
    } else {
        match frame.arena.at(ptr).unwrap() {
            Term::Cell(_) => 1,
            Term::Var(var) => if var.value().is_none() {
                2
            } else {
                1
            },
        }
    }
}

/// How often each task that waits lists the slot `ptr` in its buffer.
pub open spec fn listed_column(scope: Seq<Job>, ptr: Ptr) -> Seq<nat> {
    Seq::new(scope.len(), |at: int| occurrences(scope[at].free, ptr))
}

/// How often the slot is listed in the buffers of released slots.
pub open spec fn listed(frame: Frame, ptr: Ptr) -> nat {
    occurrences(frame.free, ptr) + sum(listed_column(frame.scope, ptr))
}

/// A slot is retired if and only if it is listed.
pub proof fn lemma_listed_retired(frame: Frame, ptr: Ptr)
    ensures
        retired(frame, ptr) <==> listed(frame, ptr) >= 1,
{
    lemma_occurrences_contains(frame.free, ptr);
    let column = listed_column(frame.scope, ptr);
    if exists|i: int| 0 <= i < frame.scope.len() && (#[trigger] frame.scope[i]).free.contains(ptr) {
        let i = choose|i: int|
            0 <= i < frame.scope.len() && (#[trigger] frame.scope[i]).free.contains(ptr);
        lemma_occurrences_contains(frame.scope[i].free, ptr);
        lemma_sum_bounds(column, i);
    }
    if sum(column) > 0 {
        let i = lemma_sum_positive(column);
        lemma_occurrences_contains(frame.scope[i].free, ptr);
    }
}

/// No slot is referenced more often than it may be.
pub open spec fn bounded(heads: Seq<TermPtr>, frame: Frame, equation: Option<Equation>) -> bool {
    forall|ptr: Ptr| #[trigger] refs(heads, frame, equation, ptr) <= cap(frame, ptr)
}

/// No slot is listed twice for release, and a slot that is listed is
/// occupied.
pub open spec fn listed_once(frame: Frame) -> bool {
    forall|ptr: Ptr|
        #[trigger] listed(frame, ptr) <= if frame.arena.holds(ptr) {
            1nat
        } else {
            0nat
        }
}

/// The later frame differs from the earlier one in what one slot holds,
/// or in nothing.
pub open spec fn changed_at(before: Frame, after: Frame, at: Ptr) -> bool {
    &&& before.arena.has(at)
    &&& after.arena.slots =~= before.arena.slots.update(at.0 as int, after.arena.at(at))
    &&& after.free == before.free
    &&& after.scope == before.scope
}

/// Where one slot changes, the references change by what that slot named
/// before and names after; nothing changes in what is listed.
pub proof fn lemma_effect_change(before: Frame, after: Frame, at: Ptr, ptr: Ptr)
    requires
        changed_at(before, after, at),
    ensures
        sum(arena_column(after, ptr)) + slot_hits(before, at.0 as int, ptr) == sum(
            arena_column(before, ptr),
        ) + slot_hits(after, at.0 as int, ptr),
        listed(after, ptr) == listed(before, ptr),
        retired(after, ptr) == retired(before, ptr),
        ptr != at ==> cap(after, ptr) == cap(before, ptr),
{
    let k = at.0 as int;
    let old = arena_column(before, ptr);
    let new = arena_column(after, ptr);
    assert(new =~= old.update(k, slot_hits(after, k, ptr))) by {
        assert forall|i: int| 0 <= i < new.len() implies new[i] == old.update(
            k,
            slot_hits(after, k, ptr),
        )[i] by {
            if i != k {
                assert(after.arena.slots[i] == before.arena.slots[i]);
            }
        }
    }
    lemma_sum_update(old, k, slot_hits(after, k, ptr));
    if ptr != at && before.arena.has(ptr) {
        assert(after.arena.slots[ptr.0 as int] == before.arena.slots[ptr.0 as int]);
    }
}

/// Where a slot is handed out, the references grow by what the new slot
/// names; nothing changes in what is listed.
pub proof fn lemma_effect_push(before: Frame, after: Frame, ptr: Ptr)
    requires
        after.arena.slots =~= before.arena.slots.push(after.arena.slots.last()),
        after.arena.slots.len() == before.arena.slots.len() + 1,
        after.arena.slots.len() <= u32::MAX,
        after.free == before.free,
        after.scope == before.scope,
    ensures
        sum(arena_column(after, ptr)) == sum(arena_column(before, ptr)) + slot_hits(
            after,
            before.arena.slots.len() as int,
            ptr,
        ),
        listed(after, ptr) == listed(before, ptr),
        retired(after, ptr) == retired(before, ptr),
        ptr != before.arena.next() ==> cap(after, ptr) == cap(before, ptr),
{
    let k = before.arena.slots.len() as int;
    let old = arena_column(before, ptr);
    let new = arena_column(after, ptr);
    assert(new =~= old.push(slot_hits(after, k, ptr))) by {
        assert forall|i: int| 0 <= i < new.len() implies new[i] == old.push(
            slot_hits(after, k, ptr),
        )[i] by {
            if i != k {
                assert(after.arena.slots[i] == before.arena.slots[i]);
            }
        }
    }
    lemma_sum_push(old, slot_hits(after, k, ptr));
    if ptr != before.arena.next() && before.arena.has(ptr) {
        assert(after.arena.slots[ptr.0 as int] == before.arena.slots[ptr.0 as int]);
    }
}

/// Where a slot is added to the buffer of released slots, it names
/// nothing any more and is listed once more.
pub proof fn lemma_effect_list(before: Frame, slot: Ptr, ptr: Ptr)
    requires
        before.arena.has(slot),
        before.arena.slots.len() <= u32::MAX,
        !retired(before, slot),
    ensures
        ({
            let after = Frame { free: before.free.push(slot), ..before };
            &&& sum(arena_column(after, ptr)) + slot_hits(before, slot.0 as int, ptr) == sum(
                arena_column(before, ptr),
            )
            &&& listed(after, ptr) == listed(before, ptr) + if ptr == slot {
                1nat
            } else {
                0nat
            }
            &&& retired(after, ptr) == (retired(before, ptr) || ptr == slot)
            &&& ptr != slot ==> cap(after, ptr) == cap(before, ptr)
            &&& cap(after, slot) == 0
        }),
{
    let after = Frame { free: before.free.push(slot), ..before };
    let k = slot.0 as int;
    let old = arena_column(before, ptr);
    let new = arena_column(after, ptr);
    lemma_occurrences_push(before.free, slot, ptr);
    lemma_listed_retired(before, ptr);
    lemma_listed_retired(after, ptr);
    lemma_listed_retired(after, slot);
    lemma_occurrences_push(before.free, slot, slot);
    assert(new =~= old.update(k, 0)) by {
        assert forall|i: int| 0 <= i < new.len() implies new[i] == old.update(k, 0)[i] by {
            let q = Ptr(i as u32);
            lemma_occurrences_push(before.free, slot, q);
            lemma_listed_retired(before, q);
            lemma_listed_retired(after, q);
        }
    }
    lemma_sum_update(old, k, 0);
}

/// Where a task is spawned, the references grow by what its equation
/// names; what is listed is listed as often as before.
pub proof fn lemma_effect_spawn(before: Frame, left: TermPtr, right: TermPtr, n: u8, ptr: Ptr)
    requires
        before.fault.is_none(),
        n > 0,
    ensures
        ({
            let after = before.spawn(left, right, n);
            &&& sum(arena_column(after, ptr)) == sum(arena_column(before, ptr))
            &&& sum(scope_column(after.scope, ptr)) == sum(scope_column(before.scope, ptr))
                + pair_hits(left, right, ptr)
            &&& listed(after, ptr) == listed(before, ptr)
            &&& retired(after, ptr) == retired(before, ptr)
            &&& cap(after, ptr) == cap(before, ptr)
        }),
{
    let after = before.spawn(left, right, n);
    let cut = before.free.len() as int / n as int;
    assert(0 <= cut <= before.free.len()) by (nonlinear_arith)
        requires
            cut == before.free.len() as int / n as int,
            n > 0,
    ;
    lemma_occurrences_cut(before.free, cut, ptr);
    let job = after.scope.last();
    assert(listed_column(after.scope, ptr) =~= listed_column(before.scope, ptr).push(
        occurrences(job.free, ptr),
    ));
    lemma_sum_push(listed_column(before.scope, ptr), occurrences(job.free, ptr));
    assert(scope_column(after.scope, ptr) =~= scope_column(before.scope, ptr).push(
        pair_hits(left, right, ptr),
    ));
    lemma_sum_push(scope_column(before.scope, ptr), pair_hits(left, right, ptr));
    lemma_listed_retired(before, ptr);
    lemma_listed_retired(after, ptr);
    assert(arena_column(after, ptr) =~= arena_column(before, ptr)) by {
        assert forall|i: int| 0 <= i < before.arena.slots.len() implies slot_hits(after, i, ptr)
            == slot_hits(before, i, ptr) by {
            let q = Ptr(i as u32);
            lemma_occurrences_cut(before.free, cut, q);
            assert(listed_column(after.scope, q) =~= listed_column(before.scope, q).push(
                occurrences(job.free, q),
            ));
            lemma_sum_push(listed_column(before.scope, q), occurrences(job.free, q));
            lemma_listed_retired(before, q);
            lemma_listed_retired(after, q);
        }
    }
}

/// The frame is linear with the equation in hand: its arena is well
/// formed, its wires are in cables, no slot is referenced more often than
/// it may be, and no slot is listed twice for release.
pub open spec fn linear(heads: Seq<TermPtr>, frame: Frame, equation: Option<Equation>) -> bool {
    &&& frame.arena.wf()
    &&& cabled(frame)
    &&& bounded(heads, frame, equation)
    &&& listed_once(frame)
}

/// A slot that is referenced may be referenced: it is occupied and not
/// retired.
pub proof fn lemma_referenced(heads: Seq<TermPtr>, frame: Frame, equation: Option<Equation>, ptr: Ptr)
    requires
        bounded(heads, frame, equation),
        refs(heads, frame, equation, ptr) >= 1,
    ensures
        frame.arena.holds(ptr),
        !retired(frame, ptr),
        cap(frame, ptr) >= 1,
{
    assert(refs(heads, frame, equation, ptr) <= cap(frame, ptr));
}

/// In a linear frame the equation in hand can be evaluated.
pub proof fn lemma_ready(heads: Seq<TermPtr>, frame: Frame, left: TermPtr, right: TermPtr)
    requires
        linear(heads, frame, Some((left, right))),
    ensures
        ready(frame, left, right),
{
    let equation = Some((left, right));
    match left {
        TermPtr::Ptr(ptr) => {
            assert(hit(left, ptr) == 1);
            lemma_referenced(heads, frame, equation, ptr);
        },
        TermPtr::Era => {},
    }
    match right {
        TermPtr::Ptr(ptr) => {
            assert(hit(right, ptr) == 1);
            lemma_referenced(heads, frame, equation, ptr);
        },
        TermPtr::Era => {},
    }
    match (left, right) {
        (TermPtr::Ptr(left_ptr), TermPtr::Ptr(right_ptr)) => {
            if left_ptr == right_ptr {
                assert(refs(heads, frame, equation, left_ptr) >= 2);
                assert(refs(heads, frame, equation, left_ptr) <= cap(frame, left_ptr));
            }
        },
        _ => {},
    }
}

/// What retiring an occupied slot that is not retired does: the slot names
/// nothing any more and may not be referenced; it is listed once, or it is
/// empty.
pub proof fn lemma_effect_retire(before: Frame, slot: Ptr, ptr: Ptr)
    requires
        before.fault.is_none(),
        before.arena.wf(),
        before.arena.holds(slot),
        !retired(before, slot),
    ensures
        ({
            let after = before.retire(slot);
            &&& after.fault.is_none()
            &&& after.arena.wf()
            &&& after.scope == before.scope
            &&& after.tally == before.tally
            &&& sum(arena_column(after, ptr)) + slot_hits(before, slot.0 as int, ptr) == sum(
                arena_column(before, ptr),
            )
            &&& cap(after, slot) == 0
            &&& ptr != slot ==> cap(after, ptr) == cap(before, ptr) && listed(after, ptr) == listed(
                before,
                ptr,
            ) && retired(after, ptr) == retired(before, ptr) && after.arena.holds(ptr)
                == before.arena.holds(ptr)
            &&& listed(after, slot) == if after.arena.holds(slot) {
                1nat
            } else {
                0nat
            }
        }),
{
    let after = before.retire(slot);
    lemma_listed_retired(before, slot);
    if before.free.len() < FREE_PTRS_SIZE {
        lemma_effect_list(before, slot, ptr);
        lemma_effect_list(before, slot, slot);
    } else {
        before.arena.lemma_free_wf(slot);
        lemma_effect_change(before, after, slot, ptr);
        lemma_effect_change(before, after, slot, slot);
    }
}

/// The slot is within its bounds: it is referenced no more often than it
/// may be, and listed for release once if it is occupied and not at all if
/// it is not.
pub open spec fn within(heads: Seq<TermPtr>, frame: Frame, equation: Option<Equation>, ptr: Ptr) -> bool {
    &&& refs(heads, frame, equation, ptr) <= cap(frame, ptr)
    &&& listed(frame, ptr) <= if frame.arena.holds(ptr) {
        1nat
    } else {
        0nat
    }
}

/// Every slot of a frame that is linear is within its bounds.
pub proof fn lemma_within(heads: Seq<TermPtr>, frame: Frame, equation: Option<Equation>, ptr: Ptr)
    requires
        bounded(heads, frame, equation),
        listed_once(frame),
    ensures
        within(heads, frame, equation, ptr),
{
    assert(refs(heads, frame, equation, ptr) <= cap(frame, ptr));
    assert(listed(frame, ptr) <= if frame.arena.holds(ptr) {
        1nat
    } else {
        0nat
    });
}

/// A frame of which every slot is within its bounds is bounded and lists
/// no slot twice.
pub proof fn lemma_all_within(heads: Seq<TermPtr>, frame: Frame, equation: Option<Equation>)
    requires
        forall|ptr: Ptr| within(heads, frame, equation, ptr),
    ensures
        bounded(heads, frame, equation),
        listed_once(frame),
{
    assert forall|ptr: Ptr| #[trigger] refs(heads, frame, equation, ptr) <= cap(frame, ptr) by {
        assert(within(heads, frame, equation, ptr));
    }
    assert forall|ptr: Ptr|
        #[trigger] listed(frame, ptr) <= if frame.arena.holds(ptr) {
            1nat
        } else {
            0nat
        } by {
        assert(within(heads, frame, equation, ptr));
    }
}

/// Counting an event changes neither the references nor what is listed.
pub proof fn lemma_effect_count(frame: Frame, counter: Counter, ptr: Ptr)
    ensures
        sum(scope_column(frame.count(counter).scope, ptr)) == sum(scope_column(frame.scope, ptr)),
        cap(frame.count(counter), ptr) == cap(frame, ptr),
        listed(frame.count(counter), ptr) == listed(frame, ptr),
        retired(frame.count(counter), ptr) == retired(frame, ptr),
        sum(arena_column(frame.count(counter), ptr)) == sum(arena_column(frame, ptr)),
{
    assert(arena_column(frame.count(counter), ptr) =~= arena_column(frame, ptr));
}

/// An eraser against an agent keeps the frame linear.
pub proof fn lemma_erase_linear(heads: Seq<TermPtr>, frame: Frame, cell_ptr: Ptr, cell: Cell, equation: Equation)
    requires
        frame.fault.is_none(),
        linear(heads, frame, Some(equation)),
        frame.arena.holds(cell_ptr),
        frame.arena.at(cell_ptr) == Some(Term::Cell(cell)),
        equation == (TermPtr::Era, TermPtr::Ptr(cell_ptr)) || equation == (
            TermPtr::Ptr(cell_ptr),
            TermPtr::Era,
        ),
    ensures
        frame.erase(cell_ptr, cell).0.fault.is_none() ==> bounded(
            heads,
            frame.erase(cell_ptr, cell).0,
            frame.erase(cell_ptr, cell).1,
        ) && listed_once(frame.erase(cell_ptr, cell).0),
{
    let (after, next) = frame.erase(cell_ptr, cell);
    let counted = frame.count(erase_rule(cell));
    if after.fault.is_none() {
        assert(hit(TermPtr::Ptr(cell_ptr), cell_ptr) == 1);
        lemma_referenced(heads, frame, Some(equation), cell_ptr);
        let gone = counted.retire(cell_ptr);
        assert forall|ptr: Ptr| within(heads, after, next, ptr) by {
            lemma_within(heads, frame, Some(equation), ptr);
            lemma_effect_count(frame, erase_rule(cell), ptr);
            lemma_effect_count(frame, erase_rule(cell), cell_ptr);
            lemma_effect_retire(counted, cell_ptr, ptr);
            match cell.spec_ports() {
                Some((port_0, port_1)) => {
                    lemma_effect_spawn(gone, TermPtr::Era, port_0, 2, ptr);
                },
                None => {},
            }
        }
        lemma_all_within(heads, after, next);
    }
}

/// Two agents that annihilate keep the frame linear.
pub proof fn lemma_annihilate_linear(heads: Seq<TermPtr>, frame: Frame,
    counter: Counter,
    left_ptr: Ptr,
    left: Cell,
    right_ptr: Ptr,
    right: Cell,
)
    requires
        frame.fault.is_none(),
        linear(heads, frame, Some((TermPtr::Ptr(left_ptr), TermPtr::Ptr(right_ptr)))),
        frame.arena.has(left_ptr),
        frame.arena.has(right_ptr),
        frame.arena.at(left_ptr) == Some(Term::Cell(left)),
        frame.arena.at(right_ptr) == Some(Term::Cell(right)),
    ensures
        ({
            let (after, next) = frame.annihilate(
                counter,
                left_ptr,
                left.spec_ports(),
                right_ptr,
                right.spec_ports(),
            );
            after.fault.is_none() ==> bounded(heads, after, next) && listed_once(after)
        }),
{
    let equation = Some((TermPtr::Ptr(left_ptr), TermPtr::Ptr(right_ptr)));
    let (after, next) = frame.annihilate(
        counter,
        left_ptr,
        left.spec_ports(),
        right_ptr,
        right.spec_ports(),
    );
    if after.fault.is_none() {
        let counted = frame.count(counter);
        let first = counted.retire(left_ptr);
        let second = first.retire(right_ptr);
        assert(hit(TermPtr::Ptr(left_ptr), left_ptr) == 1);
        assert(hit(TermPtr::Ptr(right_ptr), right_ptr) == 1);
        lemma_referenced(heads, frame, equation, left_ptr);
        lemma_referenced(heads, frame, equation, right_ptr);
        lemma_within(heads, frame, equation, left_ptr);
        assert(left_ptr != right_ptr);
        lemma_effect_count(frame, counter, left_ptr);
        lemma_effect_count(frame, counter, right_ptr);
        lemma_effect_retire(counted, left_ptr, right_ptr);
        assert forall|ptr: Ptr| within(heads, after, next, ptr) by {
            lemma_within(heads, frame, equation, ptr);
            lemma_effect_count(frame, counter, ptr);
            lemma_effect_retire(counted, left_ptr, ptr);
            lemma_effect_retire(first, right_ptr, ptr);
            match (left.spec_ports(), right.spec_ports()) {
                (Some((left_0, left_1)), Some((right_0, right_1))) => {
                    lemma_effect_spawn(second, left_0, right_0, 2, ptr);
                },
                _ => {},
            }
        }
        lemma_all_within(heads, after, next);
    }
}

/// What handing out a slot does: the new slot names what its content
/// names and may be referenced as its content allows.
pub proof fn lemma_effect_allocate(before: Frame, counter: Counter, term: Term, ptr: Ptr)
    requires
        before.fault.is_none(),
        before.arena.wf(),
        listed(before, before.arena.next()) == 0,
        before.allocate(counter, term).0.fault.is_none(),
    ensures
        ({
            let after = before.allocate(counter, term).0;
            let fresh = before.arena.next();
            &&& after.arena.wf()
            &&& after.scope == before.scope
            &&& after.free == before.free
            &&& after.arena.slots.len() == before.arena.slots.len() + 1
            &&& after.arena.at(fresh) == Some(term)
            &&& !before.arena.has(fresh)
            &&& after.arena.holds(fresh)
            &&& sum(arena_column(after, ptr)) == sum(arena_column(before, ptr)) + content_hits(
                Some(term),
                ptr,
            )
            &&& listed(after, ptr) == listed(before, ptr)
            &&& retired(after, ptr) == retired(before, ptr)
            &&& ptr != fresh ==> cap(after, ptr) == cap(before, ptr) && after.arena.holds(ptr)
                == before.arena.holds(ptr) && (before.arena.has(ptr) ==> after.arena.at(ptr)
                == before.arena.at(ptr))
            &&& cap(after, fresh) == match term {
                Term::Cell(_) => 1nat,
                Term::Var(var) => if var.value().is_none() {
                    2nat
                } else {
                    1nat
                },
            }
        }),
{
    let counted = before.count(counter);
    let after = before.allocate(counter, term).0;
    let fresh = before.arena.next();
    before.arena.lemma_allocate_wf(Some(term));
    lemma_effect_count(before, counter, ptr);
    lemma_effect_count(before, counter, fresh);
    lemma_effect_push(counted, after, ptr);
    lemma_effect_push(counted, after, fresh);
    lemma_listed_retired(before, fresh);
    if ptr != fresh && before.arena.has(ptr) {
        assert(after.arena.slots[ptr.0 as int] == before.arena.slots[ptr.0 as int]);
    }
}

/// What overwriting the slot of an agent with an agent does: the slot
/// names what the new agent names.
pub proof fn lemma_effect_reuse(before: Frame, slot: Ptr, old: Cell, cell: Cell, ptr: Ptr)
    requires
        before.fault.is_none(),
        before.arena.wf(),
        before.arena.has(slot),
        before.arena.at(slot) == Some(Term::Cell(old)),
        !retired(before, slot),
    ensures
        ({
            let after = before.reuse_cell(slot, cell);
            &&& after.fault.is_none()
            &&& after.arena.wf()
            &&& after.scope == before.scope
            &&& after.free == before.free
            &&& after.arena.slots.len() == before.arena.slots.len()
            &&& after.arena.at(slot) == Some(Term::Cell(cell))
            &&& sum(arena_column(after, ptr)) + cell_hits(old, ptr) == sum(
                arena_column(before, ptr),
            ) + cell_hits(cell, ptr)
            &&& listed(after, ptr) == listed(before, ptr)
            &&& retired(after, ptr) == retired(before, ptr)
            &&& cap(after, ptr) == cap(before, ptr)
            &&& after.arena.holds(ptr) == before.arena.holds(ptr)
            &&& ptr != slot && before.arena.has(ptr) ==> after.arena.at(ptr) == before.arena.at(ptr)
        }),
{
    let after = before.reuse_cell(slot, cell);
    before.arena.lemma_set_wf(slot, Term::Cell(cell));
    lemma_effect_change(before, after, slot, ptr);
    if ptr != slot && before.arena.has(ptr) {
        assert(after.arena.slots[ptr.0 as int] == before.arena.slots[ptr.0 as int]);
    }
}

/// The frame after four unset wires are handed out.
pub open spec fn with_wires(frame: Frame) -> Frame {
    frame.alloc_var().0.alloc_var().0.alloc_var().0.alloc_var().0
}

/// The slot `offset` slots after those that the frame has handed out.
pub open spec fn fresh(frame: Frame, offset: nat) -> Ptr {
    Ptr((frame.arena.slots.len() + offset) as u32)
}

/// Four unset wires that are handed out name nothing and may be named
/// twice each; nothing else changes.
pub proof fn lemma_wires_handed_out(frame: Frame, ptr: Ptr)
    requires
        frame.fault.is_none(),
        frame.arena.wf(),
        listed_once(frame),
        with_wires(frame).fault.is_none(),
    ensures
        ({
            let after = with_wires(frame);
            &&& after.arena.wf()
            &&& after.scope == frame.scope
            &&& after.free == frame.free
            &&& after.arena.slots.len() == frame.arena.slots.len() + 4
            &&& after.arena.capacity == frame.arena.capacity
            &&& frame.alloc_var().1 == fresh(frame, 0)
            &&& frame.alloc_var().0.alloc_var().1 == fresh(frame, 1)
            &&& frame.alloc_var().0.alloc_var().0.alloc_var().1 == fresh(frame, 2)
            &&& frame.alloc_var().0.alloc_var().0.alloc_var().0.alloc_var().1 == fresh(frame, 3)
            &&& sum(arena_column(after, ptr)) == sum(arena_column(frame, ptr))
            &&& listed(after, ptr) == listed(frame, ptr)
            &&& retired(after, ptr) == retired(frame, ptr)
            &&& frame.arena.has(ptr) ==> cap(after, ptr) == cap(frame, ptr) && after.arena.at(ptr)
                == frame.arena.at(ptr) && after.arena.has(ptr)
            &&& !frame.arena.has(ptr) && after.arena.has(ptr) ==> cap(after, ptr) == 2
                && after.arena.at(ptr) == Some(Term::Var(Var::holding(None)))
            &&& after.arena.has(ptr) <==> frame.arena.has(ptr) || ptr == fresh(frame, 0) || ptr
                == fresh(frame, 1) || ptr == fresh(frame, 2) || ptr == fresh(frame, 3)
        }),
{
    let wire = Term::Var(Var::holding(None));
    let vars = Counter::AllocVars;
    let f1 = frame.alloc_var().0;
    let f2 = f1.alloc_var().0;
    let f3 = f2.alloc_var().0;
    lemma_decode_encode(None);
    lemma_within_listed(frame, fresh(frame, 0));
    lemma_within_listed(frame, fresh(frame, 1));
    lemma_within_listed(frame, fresh(frame, 2));
    lemma_within_listed(frame, fresh(frame, 3));
    lemma_effect_allocate(frame, vars, wire, ptr);
    lemma_effect_allocate(frame, vars, wire, fresh(frame, 1));
    lemma_effect_allocate(f1, vars, wire, ptr);
    lemma_effect_allocate(frame, vars, wire, fresh(frame, 2));
    lemma_effect_allocate(f1, vars, wire, fresh(frame, 2));
    lemma_effect_allocate(f2, vars, wire, ptr);
    lemma_effect_allocate(frame, vars, wire, fresh(frame, 3));
    lemma_effect_allocate(f1, vars, wire, fresh(frame, 3));
    lemma_effect_allocate(f2, vars, wire, fresh(frame, 3));
    lemma_effect_allocate(f3, vars, wire, ptr);
}

/// A slot that is not occupied is not listed where no slot is listed twice.
pub proof fn lemma_within_listed(frame: Frame, ptr: Ptr)
    requires
        listed_once(frame),
    ensures
        !frame.arena.holds(ptr) ==> listed(frame, ptr) == 0 && !retired(frame, ptr),
        listed(frame, ptr) <= 1,
{
    assert(listed(frame, ptr) <= if frame.arena.holds(ptr) {
        1nat
    } else {
        0nat
    });
    lemma_listed_retired(frame, ptr);
}

/// The frame after the four copies of two agents are written: the slots
/// of the agents are reused for the first copy of each and two slots are
/// handed out for the second copies.
pub open spec fn with_copies(
    frame: Frame,
    left_ptr: Ptr,
    left_0: Cell,
    left_1: Cell,
    right_ptr: Ptr,
    right_0: Cell,
    right_1: Cell,
) -> Frame {
    frame.reuse_cell(left_ptr, left_0).alloc_cell(left_1).0.reuse_cell(right_ptr, right_0).alloc_cell(
        right_1,
    ).0
}

/// The four copies that are written name what their ports name in place of
/// what the ports of the two agents named; the two slots that are handed
/// out may be named once each; nothing else changes.
pub proof fn lemma_copies_written(frame: Frame,
    left_ptr: Ptr,
    left: Cell,
    left_0: Cell,
    left_1: Cell,
    right_ptr: Ptr,
    right: Cell,
    right_0: Cell,
    right_1: Cell,
    ptr: Ptr,
)
    requires
        frame.fault.is_none(),
        frame.arena.wf(),
        listed_once(frame),
        frame.arena.has(left_ptr),
        frame.arena.has(right_ptr),
        left_ptr != right_ptr,
        frame.arena.at(left_ptr) == Some(Term::Cell(left)),
        frame.arena.at(right_ptr) == Some(Term::Cell(right)),
        !retired(frame, left_ptr),
        !retired(frame, right_ptr),
        with_copies(frame, left_ptr, left_0, left_1, right_ptr, right_0, right_1).fault.is_none(),
    ensures
        ({
            let after = with_copies(frame, left_ptr, left_0, left_1, right_ptr, right_0, right_1);
            &&& after.arena.wf()
            &&& after.scope == frame.scope
            &&& after.free == frame.free
            &&& frame.reuse_cell(left_ptr, left_0).alloc_cell(left_1).1 == fresh(frame, 0)
            &&& frame.reuse_cell(left_ptr, left_0).alloc_cell(left_1).0.reuse_cell(
                right_ptr,
                right_0,
            ).alloc_cell(right_1).1 == fresh(frame, 1)
            &&& sum(arena_column(after, ptr)) + cell_hits(left, ptr) + cell_hits(right, ptr) == sum(
                arena_column(frame, ptr),
            ) + cell_hits(left_0, ptr) + cell_hits(left_1, ptr) + cell_hits(right_0, ptr)
                + cell_hits(right_1, ptr)
            &&& listed(after, ptr) == listed(frame, ptr)
            &&& retired(after, ptr) == retired(frame, ptr)
            &&& frame.arena.has(ptr) ==> cap(after, ptr) == cap(frame, ptr) && after.arena.holds(
                ptr,
            ) == frame.arena.holds(ptr)
            &&& ptr == fresh(frame, 0) || ptr == fresh(frame, 1) ==> cap(after, ptr) == 1
                && after.arena.holds(ptr)
            &&& after.arena.has(ptr) <==> frame.arena.has(ptr) || ptr == fresh(frame, 0) || ptr
                == fresh(frame, 1)
        }),
{
    let cells = Counter::AllocCells;
    let f1 = frame.reuse_cell(left_ptr, left_0);
    let f2 = f1.alloc_cell(left_1).0;
    let f3 = f2.reuse_cell(right_ptr, right_0);
    lemma_within_listed(frame, fresh(frame, 0));
    lemma_within_listed(frame, fresh(frame, 1));
    lemma_effect_reuse(frame, left_ptr, left, left_0, ptr);
    lemma_effect_reuse(frame, left_ptr, left, left_0, right_ptr);
    lemma_effect_reuse(frame, left_ptr, left, left_0, fresh(frame, 0));
    lemma_effect_reuse(frame, left_ptr, left, left_0, fresh(frame, 1));
    lemma_effect_allocate(f1, cells, Term::Cell(left_1), ptr);
    lemma_effect_allocate(f1, cells, Term::Cell(left_1), right_ptr);
    lemma_effect_allocate(f1, cells, Term::Cell(left_1), fresh(frame, 1));
    lemma_effect_reuse(f2, right_ptr, right, right_0, ptr);
    lemma_effect_reuse(f2, right_ptr, right, right_0, fresh(frame, 1));
    lemma_effect_allocate(f3, cells, Term::Cell(right_1), ptr);
}

/// Two agents that commute keep the frame linear: each of the four fresh
/// wires is named by two ports, each of the four copies by one equation,
/// and the ports of the two agents go from their slots to the equations.
#[verifier::rlimit(60)]
pub proof fn lemma_commute_linear(heads: Seq<TermPtr>, frame: Frame,
    left_ptr: Ptr,
    left: Cell,
    right_ptr: Ptr,
    right: Cell,
    equation: Equation,
)
    requires
        frame.fault.is_none(),
        linear(heads, frame, Some(equation)),
        frame.arena.has(left_ptr),
        frame.arena.has(right_ptr),
        frame.arena.at(left_ptr) == Some(Term::Cell(left)),
        frame.arena.at(right_ptr) == Some(Term::Cell(right)),
        equation == (TermPtr::Ptr(left_ptr), TermPtr::Ptr(right_ptr)) || equation == (
            TermPtr::Ptr(right_ptr),
            TermPtr::Ptr(left_ptr),
        ),
    ensures
        ({
            let (after, next) = frame.commute(left_ptr, left, right_ptr, right);
            after.fault.is_none() ==> bounded(heads, after, next) && listed_once(after)
        }),
{
    let current = Some(equation);
    let (after, next) = frame.commute(left_ptr, left, right_ptr, right);
    assert(hit(TermPtr::Ptr(left_ptr), left_ptr) == 1);
    assert(hit(TermPtr::Ptr(right_ptr), right_ptr) == 1);
    lemma_referenced(heads, frame, current, left_ptr);
    lemma_referenced(heads, frame, current, right_ptr);
    lemma_within(heads, frame, current, left_ptr);
    assert(left_ptr != right_ptr);
    if after.fault.is_none() {
        if left.spec_ports().is_none() && right.spec_ports().is_none() {
            let first = frame.retire(left_ptr);
            lemma_effect_retire(frame, left_ptr, right_ptr);
            assert forall|ptr: Ptr| within(heads, after, next, ptr) by {
                lemma_within(heads, frame, current, ptr);
                lemma_effect_retire(frame, left_ptr, ptr);
                lemma_effect_retire(first, right_ptr, ptr);
            }
        } else {
            let wired = with_wires(frame);
            let (x1, x2, x3, x4) = (
                TermPtr::Ptr(fresh(frame, 0)),
                TermPtr::Ptr(fresh(frame, 1)),
                TermPtr::Ptr(fresh(frame, 2)),
                TermPtr::Ptr(fresh(frame, 3)),
            );
            let left_0 = left.spec_with_ports(x1, x3);
            let left_1 = left.spec_with_ports(x4, x2);
            let right_0 = right.spec_with_ports(x1, x4);
            let right_1 = right.spec_with_ports(x3, x2);
            let built = with_copies(wired, left_ptr, left_0, left_1, right_ptr, right_0, right_1);
            lemma_wires_handed_out(frame, left_ptr);
            lemma_wires_handed_out(frame, right_ptr);
            assert forall|ptr: Ptr|
                #[trigger] listed(wired, ptr) <= if wired.arena.holds(ptr) {
                    1nat
                } else {
                    0nat
                } by {
                lemma_within(heads, frame, current, ptr);
                lemma_wires_handed_out(frame, ptr);
            }
            lemma_copies_written(wired,
                left_ptr,
                left,
                left_0,
                left_1,
                right_ptr,
                right,
                right_0,
                right_1,
                left_ptr,
            );
            let (l0, l1, r0, r1) = (
                TermPtr::Ptr(left_ptr),
                TermPtr::Ptr(fresh(frame, 4)),
                TermPtr::Ptr(right_ptr),
                TermPtr::Ptr(fresh(frame, 5)),
            );
            assert forall|ptr: Ptr| within(heads, after, next, ptr) by {
                lemma_commute_at(
                    heads,
                    frame,
                    left_ptr,
                    left,
                    right_ptr,
                    right,
                    equation,
                    ptr,
                );
            }
        }
        lemma_all_within(heads, after, next);
    }
}

/// After a commutation of two agents with ports, a slot is within its
/// bounds.
#[verifier::rlimit(80)]
proof fn lemma_commute_at(heads: Seq<TermPtr>, frame: Frame,
    left_ptr: Ptr,
    left: Cell,
    right_ptr: Ptr,
    right: Cell,
    equation: Equation,
    ptr: Ptr,
)
    requires
        frame.fault.is_none(),
        linear(heads, frame, Some(equation)),
        frame.arena.has(left_ptr),
        frame.arena.has(right_ptr),
        left_ptr != right_ptr,
        !retired(frame, left_ptr),
        !retired(frame, right_ptr),
        frame.arena.at(left_ptr) == Some(Term::Cell(left)),
        frame.arena.at(right_ptr) == Some(Term::Cell(right)),
        equation == (TermPtr::Ptr(left_ptr), TermPtr::Ptr(right_ptr)) || equation == (
            TermPtr::Ptr(right_ptr),
            TermPtr::Ptr(left_ptr),
        ),
        left.spec_ports().is_some() || right.spec_ports().is_some(),
        frame.commute(left_ptr, left, right_ptr, right).0.fault.is_none(),
    ensures
        within(
            heads,
            frame.commute(left_ptr, left, right_ptr, right).0,
            frame.commute(left_ptr, left, right_ptr, right).1,
            ptr,
        ),
{
    let current = Some(equation);
    let (after, next) = frame.commute(left_ptr, left, right_ptr, right);
    let wired = with_wires(frame);
    let (x1, x2, x3, x4) = (
        TermPtr::Ptr(fresh(frame, 0)),
        TermPtr::Ptr(fresh(frame, 1)),
        TermPtr::Ptr(fresh(frame, 2)),
        TermPtr::Ptr(fresh(frame, 3)),
    );
    let left_0 = left.spec_with_ports(x1, x3);
    let left_1 = left.spec_with_ports(x4, x2);
    let right_0 = right.spec_with_ports(x1, x4);
    let right_1 = right.spec_with_ports(x3, x2);
    let built = with_copies(wired, left_ptr, left_0, left_1, right_ptr, right_0, right_1);
    lemma_wires_handed_out(frame, left_ptr);
    lemma_wires_handed_out(frame, right_ptr);
    lemma_wires_handed_out(frame, ptr);
    assert forall|q: Ptr|
        #[trigger] listed(wired, q) <= if wired.arena.holds(q) {
            1nat
        } else {
            0nat
        } by {
        lemma_within(heads, frame, current, q);
        lemma_wires_handed_out(frame, q);
    }
    lemma_copies_written(wired,
        left_ptr,
        left,
        left_0,
        left_1,
        right_ptr,
        right,
        right_0,
        right_1,
        ptr,
    );
    lemma_within(heads, frame, current, ptr);
    let (l0, l1, r0, r1) = (
        TermPtr::Ptr(left_ptr),
        TermPtr::Ptr(fresh(frame, 4)),
        TermPtr::Ptr(right_ptr),
        TermPtr::Ptr(fresh(frame, 5)),
    );
    assert(fresh(wired, 0) == fresh(frame, 4));
    assert(fresh(wired, 1) == fresh(frame, 5));
    match (left.spec_ports(), right.spec_ports()) {
        (Some((left_p0, left_p1)), Some((right_p0, right_p1))) => {
            let g1 = built.spawn(r0, left_p0, 4);
            let g2 = g1.spawn(r1, left_p1, 3);
            lemma_effect_spawn(built, r0, left_p0, 4, ptr);
            lemma_effect_spawn(g1, r1, left_p1, 3, ptr);
            lemma_effect_spawn(g2, l0, right_p0, 2, ptr);
        },
        (None, Some((right_p0, right_p1))) => {
            let g1 = built.spawn(l0, right_p0, 3);
            lemma_effect_spawn(built, l0, right_p0, 3, ptr);
            lemma_effect_spawn(g1, l1, right_p1, 2, ptr);
        },
        (Some((left_p0, left_p1)), None) => {
            let g1 = built.spawn(r0, left_p0, 3);
            lemma_effect_spawn(built, r0, left_p0, 3, ptr);
            lemma_effect_spawn(g1, r1, left_p1, 2, ptr);
        },
        (None, None) => {},
    }
}

/// Whether the value names the slot: one if it binds to the agent in it.
pub open spec fn value_hits(value: VarValue, ptr: Ptr) -> nat {
    if value == VarValue::Cell(ptr) {
        1
    } else {
        0
    }
}

/// The wire that the walk goes on to from the wire it starts on, if it goes
/// on.
pub open spec fn onward(frame: Frame, var_ptr: Ptr, previous: Option<Ptr>) -> Option<Ptr> {
    match wire_state(frame.arena, var_ptr) {
        Some(Some(VarValue::Var(other))) => if Some(other) == previous || other == var_ptr {
            None
        } else {
            Some(other)
        },
        _ => None,
    }
}

/// What a walk does to the references. Where the value comes to rest, the
/// wire it rests in names what the value names. Where the walk meets a wire
/// that is bound, that wire is retired and names nothing any more. A wire
/// that the walk passes is emptied. No other slot changes.
pub proof fn lemma_walk_effect(
    frame: Frame,
    var_ptr: Ptr,
    previous: Option<Ptr>,
    value: VarValue,
    ptr: Ptr,
)
    requires
        frame.fault.is_none(),
        frame.arena.wf(),
        answered(frame, var_ptr, previous),
        !retired(frame, var_ptr),
        onward(frame, var_ptr, previous).is_some() ==> !retired(
            frame,
            onward(frame, var_ptr, previous).unwrap(),
        ),
    ensures
        ({
            let (after, found) = frame.walk(var_ptr, previous, value);
            let old = wire_state(frame.arena, var_ptr).unwrap();
            let on = onward(frame, var_ptr, previous);
            let rests = match on {
                Some(other) => other,
                None => var_ptr,
            };
            let passed = old is Some && old.unwrap() is Var && Some(old.unwrap()->Var_0) != previous;
            let met = old is Some && !(old.unwrap() is Var);
            &&& after.fault.is_none()
            &&& after.arena.wf()
            &&& after.scope == frame.scope
            &&& after.tally == frame.tally
            &&& after.arena.slots.len() == frame.arena.slots.len()
            &&& found == if met {
                old.unwrap()
            } else {
                VarValue::Var(rests)
            }
            &&& sum(arena_column(after, ptr)) + (if met {
                value_hits(old.unwrap(), ptr)
            } else {
                0
            }) == sum(arena_column(frame, ptr)) + if met || (passed && on.is_none()) {
                0
            } else {
                value_hits(value, ptr)
            }
            &&& ptr != var_ptr && Some(ptr) != on ==> {
                &&& cap(after, ptr) == cap(frame, ptr)
                &&& listed(after, ptr) == listed(frame, ptr)
                &&& retired(after, ptr) == retired(frame, ptr)
                &&& after.arena.holds(ptr) == frame.arena.holds(ptr)
                &&& frame.arena.has(ptr) ==> after.arena.at(ptr) == frame.arena.at(ptr)
            }
            &&& !met ==> after.free == frame.free
            &&& passed || met ==> cap(after, var_ptr) == 0
            &&& passed ==> after.arena.at(var_ptr).is_none() && listed(after, var_ptr) == listed(
                frame,
                var_ptr,
            )
            &&& met ==> listed(after, var_ptr) == (if after.arena.holds(var_ptr) {
                1nat
            } else {
                0nat
            })
            &&& !met && !(passed && on.is_none()) ==> {
                &&& wire_state(after.arena, rests) == Some(Some(value))
                &&& !retired(after, rests)
                &&& listed(after, rests) == listed(frame, rests)
            }
        }),
{
    lemma_walk_shape(frame, var_ptr, previous, value);
    lemma_decode_encode(Some(value));
    let term = Term::Var(Var::holding(Some(value)));
    let swapped = Frame { arena: frame.arena.set(var_ptr, term), ..frame };
    frame.arena.lemma_set_wf(var_ptr, term);
    lemma_effect_change(frame, swapped, var_ptr, ptr);
    lemma_effect_change(frame, swapped, var_ptr, var_ptr);
    lemma_listed_retired(frame, var_ptr);
    match wire_state(frame.arena, var_ptr).unwrap() {
        None => {},
        Some(VarValue::Var(other)) => {
            if Some(other) != previous {
                swapped.arena.lemma_free_wf(var_ptr);
                let emptied = Frame { arena: swapped.arena.free(var_ptr), ..frame };
                lemma_effect_change(swapped, emptied, var_ptr, ptr);
                lemma_effect_change(swapped, emptied, var_ptr, var_ptr);
                if other != var_ptr {
                    emptied.arena.lemma_set_wf(other, term);
                    let rested = Frame { arena: emptied.arena.set(other, term), ..frame };
                    lemma_effect_change(emptied, rested, other, ptr);
                    lemma_effect_change(emptied, rested, other, other);
                    lemma_effect_change(emptied, rested, other, var_ptr);
                    lemma_effect_change(frame, swapped, var_ptr, other);
                    lemma_effect_change(swapped, emptied, var_ptr, other);
                    lemma_listed_retired(frame, other);
                }
            }
        },
        Some(bound) => {
            lemma_effect_retire(swapped, var_ptr, ptr);
            lemma_effect_retire(swapped, var_ptr, var_ptr);
        },
    }
}

/// A live wire of a cabled frame has its link answered, and the wire it is
/// linked to is live.
pub proof fn lemma_cabled_answered(frame: Frame, var_ptr: Ptr)
    requires
        cabled(frame),
        live_wire(frame, var_ptr),
    ensures
        answered(frame, var_ptr, None),
        !retired(frame, var_ptr),
        onward(frame, var_ptr, None).is_some() ==> live_in(
            frame,
            onward(frame, var_ptr, None).unwrap(),
            Some(VarValue::Var(var_ptr)),
        ),
        match wire_state(frame.arena, var_ptr).unwrap() {
            Some(VarValue::Var(other)) => onward(frame, var_ptr, None) == Some(other),
            _ => onward(frame, var_ptr, None).is_none(),
        },
{
    match wire_state(frame.arena, var_ptr).unwrap() {
        Some(VarValue::Var(other)) => {
            assert(live_in(frame, var_ptr, Some(VarValue::Var(other))));
        },
        _ => {},
    }
}

/// A binding keeps the frame linear: the reference to the wire is used up,
/// and the reference to the value goes from the equation into the wire, or
/// into the equation that follows with what the wire was bound to.
pub proof fn lemma_bind_linear(heads: Seq<TermPtr>, frame: Frame, var_ptr: Ptr, value: VarValue, equation: Equation)
    requires
        frame.fault.is_none(),
        linear(heads, frame, Some(equation)),
        live_wire(frame, var_ptr),
        binds(value),
        equation == (term_of(value), TermPtr::Ptr(var_ptr)) || equation == (
            TermPtr::Ptr(var_ptr),
            term_of(value),
        ),
    ensures
        ({
            let (after, next) = frame.bind(var_ptr, None, value);
            after.fault.is_none() ==> bounded(heads, after, next) && listed_once(after)
        }),
{
    let (after, next) = frame.bind(var_ptr, None, value);
    let counted = frame.count(Counter::Binds);
    if after.fault.is_none() {
        lemma_cabled_counted(frame, Counter::Binds);
        lemma_cabled_answered(counted, var_ptr);
        assert forall|ptr: Ptr| within(heads, after, next, ptr) by {
            lemma_bind_at(heads, frame, var_ptr, value, equation, ptr);
        }
        lemma_all_within(heads, after, next);
    }
}

/// After a binding a slot is within its bounds.
proof fn lemma_bind_at(heads: Seq<TermPtr>, frame: Frame, var_ptr: Ptr, value: VarValue, equation: Equation, ptr: Ptr)
    requires
        frame.fault.is_none(),
        linear(heads, frame, Some(equation)),
        live_wire(frame, var_ptr),
        binds(value),
        equation == (term_of(value), TermPtr::Ptr(var_ptr)) || equation == (
            TermPtr::Ptr(var_ptr),
            term_of(value),
        ),
        frame.bind(var_ptr, None, value).0.fault.is_none(),
    ensures
        within(heads, frame.bind(var_ptr, None, value).0, frame.bind(var_ptr, None, value).1, ptr),
{
    let current = Some(equation);
    let (after, next) = frame.bind(var_ptr, None, value);
    let counted = frame.count(Counter::Binds);
    lemma_cabled_counted(frame, Counter::Binds);
    lemma_cabled_answered(counted, var_ptr);
    lemma_within(heads, frame, current, ptr);
    lemma_within(heads, frame, current, var_ptr);
    lemma_effect_count(frame, Counter::Binds, ptr);
    lemma_effect_count(frame, Counter::Binds, var_ptr);
    lemma_walk_effect(counted, var_ptr, None, value, ptr);
    lemma_walk_effect(counted, var_ptr, None, value, var_ptr);
    lemma_listed_retired(frame, var_ptr);
    lemma_decode_encode(Some(value));
    assert(hit(TermPtr::Ptr(var_ptr), var_ptr) == 1);
    match onward(counted, var_ptr, None) {
        Some(other) => {
            lemma_within(heads, frame, current, other);
            lemma_effect_count(frame, Counter::Binds, other);
            lemma_walk_effect(counted, var_ptr, None, value, other);
            lemma_listed_retired(frame, other);
        },
        None => {},
    }
}

/// A connection of which the right wire is bound keeps the frame linear:
/// the wire is retired and what it was bound to goes to the left wire.
pub proof fn lemma_connect_bound_linear(heads: Seq<TermPtr>, frame: Frame, left: Ptr, right: Ptr)
    requires
        frame.fault.is_none(),
        linear(heads, frame, Some((TermPtr::Ptr(left), TermPtr::Ptr(right)))),
        live_wire(frame, left),
        live_wire(frame, right),
        left != right,
        wire_state(frame.arena, right).unwrap().is_some(),
        binds(wire_state(frame.arena, right).unwrap().unwrap()),
    ensures
        ({
            let (after, next) = frame.connect(left, right);
            after.fault.is_none() ==> bounded(heads, after, next) && listed_once(after)
        }),
{
    let current = Some((TermPtr::Ptr(left), TermPtr::Ptr(right)));
    let (after, next) = frame.connect(left, right);
    let counted = frame.count(Counter::Connects);
    if after.fault.is_none() {
        let link = VarValue::Var(left);
        let bound = wire_state(frame.arena, right).unwrap().unwrap();
        lemma_cabled_counted(frame, Counter::Connects);
        lemma_met_cabled(counted, right, link);
        lemma_cabled_answered(counted, right);
        let walked = counted.walk(right, None, link).0;
        let onward_equation = (term_of(bound), TermPtr::Ptr(left));
        assert(hit(TermPtr::Ptr(right), right) == 1);
        assert forall|ptr: Ptr| within(heads, walked, Some(onward_equation), ptr) by {
            lemma_within(heads, frame, current, ptr);
            lemma_within(heads, frame, current, right);
            lemma_effect_count(frame, Counter::Connects, ptr);
            lemma_effect_count(frame, Counter::Connects, right);
            lemma_walk_effect(counted, right, None, link, ptr);
            lemma_walk_effect(counted, right, None, link, right);
            lemma_listed_retired(frame, right);
        }
        lemma_all_within(heads, walked, Some(onward_equation));
        lemma_bind_linear(heads, walked, left, bound, onward_equation);
    }
}

/// The right wire of the connection is unset or linked.
pub open spec fn right_open(frame: Frame, right: Ptr) -> bool {
    match wire_state(frame.arena, right) {
        Some(None) => true,
        Some(Some(VarValue::Var(_))) => true,
        _ => false,
    }
}

/// After the right walk of a connection of which the right wire is unset
/// or linked, the left wire can be walked: its link is answered, or names
/// the wire itself, and no wire on the way is retired.
pub proof fn lemma_right_walked(frame: Frame, left: Ptr, right: Ptr)
    requires
        frame.fault.is_none(),
        frame.arena.wf(),
        cabled(frame),
        live_wire(frame, left),
        live_wire(frame, right),
        left == right ==> wire_state(frame.arena, left) == Some(None::<VarValue>),
        right_open(frame, right),
    ensures
        ({
            let (first, found) = frame.walk(right, None, VarValue::Var(left));
            let right_end = far_end(frame, right);
            &&& first.fault.is_none()
            &&& first.arena.wf()
            &&& found == VarValue::Var(right_end)
            &&& first.arena.holds(right_end)
            &&& wire_state(first.arena, right_end) == Some(Some(VarValue::Var(left)))
            &&& !retired(first, right_end)
            &&& answered(first, left, None)
            &&& !retired(first, left)
            &&& onward(first, left, None).is_some() ==> !retired(
                first,
                onward(first, left, None).unwrap(),
            ) && onward(first, left, None) == onward(frame, left, None) && onward(
                first,
                left,
                None,
            ).unwrap() != right_end && onward(first, left, None).unwrap() != right
            &&& left == right_end ==> wire_state(first.arena, left) == Some(
                Some(VarValue::Var(left)),
            )
            &&& left != right_end ==> wire_state(first.arena, left) == wire_state(frame.arena, left)
        }),
{
    let link = VarValue::Var(left);
    let right_end = far_end(frame, right);
    lemma_cabled_answered(frame, right);
    lemma_cabled_answered(frame, left);
    lemma_walk_shape(frame, right, None, link);
    lemma_decode_encode(Some(link));
    lemma_walk_effect(frame, right, None, link, left);
    lemma_walk_effect(frame, right, None, link, right_end);
    if right_end != right {
        assert(live_in(frame, right, Some(VarValue::Var(right_end))));
    }
    match onward(frame, left, None) {
        Some(other) => {
            assert(live_in(frame, left, Some(VarValue::Var(other))));
            lemma_walk_effect(frame, right, None, link, other);
        },
        None => {},
    }
}

/// After a connection of which neither wire is bound a slot is within its
/// bounds: the far ends of the two wires name each other, and the wires
/// that were passed are emptied.
#[verifier::rlimit(80)]
proof fn lemma_connect_linked_at(heads: Seq<TermPtr>, frame: Frame, left: Ptr, right: Ptr, ptr: Ptr)
    requires
        frame.fault.is_none(),
        linear(heads, frame, Some((TermPtr::Ptr(left), TermPtr::Ptr(right)))),
        frame.tally.get(Counter::Connects) < usize::MAX,
        live_wire(frame, left),
        live_wire(frame, right),
        left == right ==> wire_state(frame.arena, left) == Some(None::<VarValue>),
        right_open(frame, right),
        !(wire_state(frame.arena, left).unwrap() is Some && binds(
            wire_state(frame.arena, left).unwrap().unwrap(),
        )),
    ensures
        frame.connect(left, right).0.fault.is_none(),
        within(heads, frame.connect(left, right).0, frame.connect(left, right).1, ptr),
{
    let current = Some((TermPtr::Ptr(left), TermPtr::Ptr(right)));
    let (after, next) = frame.connect(left, right);
    let counted = frame.count(Counter::Connects);
    let link = VarValue::Var(left);
    let right_end = far_end(frame, right);
    let back = VarValue::Var(right_end);
    lemma_cabled_counted(frame, Counter::Connects);
    lemma_right_walked(counted, left, right);
    lemma_cabled_answered(counted, right);
    lemma_cabled_answered(counted, left);
    let first = counted.walk(right, None, link).0;
    let (second, left_found) = first.walk(left, None, back);
    assert(hit(TermPtr::Ptr(left), left) == 1);
    assert(hit(TermPtr::Ptr(right), right) == 1);
    lemma_within(heads, frame, current, ptr);
    lemma_within(heads, frame, current, left);
    lemma_within(heads, frame, current, right);
    lemma_within(heads, frame, current, right_end);
    lemma_effect_count(frame, Counter::Connects, ptr);
    lemma_effect_count(frame, Counter::Connects, left);
    lemma_effect_count(frame, Counter::Connects, right);
    lemma_effect_count(frame, Counter::Connects, right_end);
    lemma_listed_retired(frame, left);
    lemma_listed_retired(frame, right);
    lemma_listed_retired(frame, right_end);
    lemma_walk_effect(counted, right, None, link, ptr);
    lemma_walk_effect(counted, right, None, link, left);
    lemma_walk_effect(counted, right, None, link, right);
    lemma_walk_effect(counted, right, None, link, right_end);
    lemma_walk_effect(first, left, None, back, ptr);
    lemma_walk_effect(first, left, None, back, left);
    lemma_walk_effect(first, left, None, back, right);
    lemma_walk_effect(first, left, None, back, right_end);
    lemma_decode_encode(Some(link));
    lemma_decode_encode(Some(back));
    match onward(first, left, None) {
        Some(left_end) => {
            lemma_within(heads, frame, current, left_end);
            lemma_effect_count(frame, Counter::Connects, left_end);
            lemma_listed_retired(frame, left_end);
            lemma_walk_effect(counted, right, None, link, left_end);
            lemma_walk_effect(first, left, None, back, left_end);
            let fix = VarValue::Var(left_end);
            lemma_decode_encode(Some(fix));
            let last = second.swap(right_end, fix).0;
            second.arena.lemma_set_wf(right_end, Term::Var(Var::holding(Some(fix))));
            lemma_effect_change(second, last, right_end, ptr);
            lemma_effect_change(second, last, right_end, right_end);
        },
        None => {},
    }
}

/// After a connection of which the left wire is bound, and the right wire
/// is not, a slot is within its bounds: the left wire is retired and the
/// far end of the right wire is bound to what the left wire was bound to.
#[verifier::rlimit(80)]
proof fn lemma_connect_met_at(heads: Seq<TermPtr>, frame: Frame, left: Ptr, right: Ptr, ptr: Ptr)
    requires
        frame.fault.is_none(),
        linear(heads, frame, Some((TermPtr::Ptr(left), TermPtr::Ptr(right)))),
        frame.tally.get(Counter::Connects) < usize::MAX,
        live_wire(frame, left),
        live_wire(frame, right),
        left != right,
        right_open(frame, right),
        wire_state(frame.arena, left).unwrap() is Some,
        binds(wire_state(frame.arena, left).unwrap().unwrap()),
        frame.connect(left, right).0.fault.is_none(),
    ensures
        within(heads, frame.connect(left, right).0, frame.connect(left, right).1, ptr),
{
    let current = Some((TermPtr::Ptr(left), TermPtr::Ptr(right)));
    let (after, next) = frame.connect(left, right);
    let counted = frame.count(Counter::Connects);
    let link = VarValue::Var(left);
    let right_end = far_end(frame, right);
    let back = VarValue::Var(right_end);
    let bound = wire_state(frame.arena, left).unwrap().unwrap();
    lemma_cabled_counted(frame, Counter::Connects);
    lemma_right_walked(counted, left, right);
    lemma_cabled_answered(counted, right);
    lemma_cabled_answered(counted, left);
    let first = counted.walk(right, None, link).0;
    let (second, left_found) = first.walk(left, None, back);
    assert(hit(TermPtr::Ptr(left), left) == 1);
    assert(hit(TermPtr::Ptr(right), right) == 1);
    lemma_within(heads, frame, current, ptr);
    lemma_within(heads, frame, current, left);
    lemma_within(heads, frame, current, right);
    lemma_within(heads, frame, current, right_end);
    lemma_effect_count(frame, Counter::Connects, ptr);
    lemma_effect_count(frame, Counter::Connects, left);
    lemma_effect_count(frame, Counter::Connects, right);
    lemma_effect_count(frame, Counter::Connects, right_end);
    lemma_listed_retired(frame, left);
    lemma_listed_retired(frame, right);
    lemma_listed_retired(frame, right_end);
    lemma_walk_effect(counted, right, None, link, ptr);
    lemma_walk_effect(counted, right, None, link, left);
    lemma_walk_effect(counted, right, None, link, right);
    lemma_walk_effect(counted, right, None, link, right_end);
    lemma_walk_effect(first, left, None, back, ptr);
    lemma_walk_effect(first, left, None, back, left);
    lemma_walk_effect(first, left, None, back, right);
    lemma_walk_effect(first, left, None, back, right_end);
    lemma_decode_encode(Some(link));
    lemma_decode_encode(Some(back));
    lemma_decode_encode(Some(bound));
    assert(left_found == bound);
    let third = second.count(Counter::Binds);
    lemma_effect_count(second, Counter::Binds, ptr);
    lemma_effect_count(second, Counter::Binds, left);
    lemma_effect_count(second, Counter::Binds, right);
    lemma_effect_count(second, Counter::Binds, right_end);
    assert(answered(third, right_end, Some(left)));
    lemma_walk_effect(third, right_end, Some(left), bound, ptr);
    lemma_walk_effect(third, right_end, Some(left), bound, left);
    lemma_walk_effect(third, right_end, Some(left), bound, right);
    lemma_walk_effect(third, right_end, Some(left), bound, right_end);
}

/// A connection keeps the frame linear: the two references to the wires
/// are used up and their far ends are joined.
pub proof fn lemma_connect_linear(heads: Seq<TermPtr>, frame: Frame, left: Ptr, right: Ptr)
    requires
        frame.fault.is_none(),
        linear(heads, frame, Some((TermPtr::Ptr(left), TermPtr::Ptr(right)))),
        live_wire(frame, left),
        live_wire(frame, right),
        left == right ==> wire_state(frame.arena, left) == Some(None::<VarValue>),
    ensures
        ({
            let (after, next) = frame.connect(left, right);
            after.fault.is_none() ==> bounded(heads, after, next) && listed_once(after)
        }),
{
    let (after, next) = frame.connect(left, right);
    if after.fault.is_none() {
        if right_open(frame, right) {
            if wire_state(frame.arena, left).unwrap() is Some && binds(
                wire_state(frame.arena, left).unwrap().unwrap(),
            ) {
                assert forall|ptr: Ptr| within(heads, after, next, ptr) by {
                    lemma_connect_met_at(heads, frame, left, right, ptr);
                }
            } else {
                assert forall|ptr: Ptr| within(heads, after, next, ptr) by {
                    lemma_connect_linked_at(heads, frame, left, right, ptr);
                }
            }
            lemma_all_within(heads, after, next);
        } else {
            lemma_connect_bound_linear(heads, frame, left, right);
        }
    }
}

/// A frame that is linear stays linear when an event is counted.
pub proof fn lemma_count_linear(heads: Seq<TermPtr>, frame: Frame, counter: Counter, equation: Option<Equation>)
    requires
        linear(heads, frame, equation),
    ensures
        linear(heads, frame.count(counter), equation),
{
    let counted = frame.count(counter);
    lemma_cabled_counted(frame, counter);
    assert forall|ptr: Ptr| within(heads, counted, equation, ptr) by {
        lemma_within(heads, frame, equation, ptr);
        lemma_effect_count(frame, counter, ptr);
    }
    lemma_all_within(heads, counted, equation);
}

/// Linearity is kept by every step, and a step in a linear frame finds
/// every reference in place: it reports no fault but that a counter or the
/// arena is full.
pub proof fn lemma_step_linear(heads: Seq<TermPtr>, frame: Frame, left: TermPtr, right: TermPtr)
    requires
        frame.fault.is_none(),
        linear(heads, frame, Some((left, right))),
    ensures
        out_of_room(frame.step(left, right).0),
        frame.step(left, right).0.fault.is_none() ==> linear(
            heads,
            frame.step(left, right).0,
            frame.step(left, right).1,
        ),
{
    lemma_ready(heads, frame, left, right);
    lemma_step_cabled(frame, left, right);
    reveal(Frame::step);
    let (after, next) = frame.step(left, right);
    if after.fault.is_none() {
        match (resolve(frame.arena, left), resolve(frame.arena, right)) {
            (End::Broken(_), _) => {},
            (_, End::Broken(_)) => {},
            (End::Era, End::Era) => {
                lemma_count_linear(heads, frame, Counter::AnniEraEra, Some((left, right)));
                assert forall|ptr: Ptr| within(heads, after, next, ptr) by {
                    lemma_within(heads, frame.count(Counter::AnniEraEra), Some((left, right)), ptr);
                }
                lemma_all_within(heads, after, next);
            },
            (End::Era, End::Cell(ptr, cell)) => {
                lemma_erase_linear(heads, frame, ptr, cell, (left, right));
            },
            (End::Cell(ptr, cell), End::Era) => {
                lemma_erase_linear(heads, frame, ptr, cell, (left, right));
            },
            (End::Era, End::Var(var)) => {
                lemma_bind_linear(heads, frame, var, VarValue::Era, (left, right));
            },
            (End::Var(var), End::Era) => {
                lemma_bind_linear(heads, frame, var, VarValue::Era, (left, right));
            },
            (End::Cell(ptr, _), End::Var(var)) => {
                lemma_bind_linear(heads, frame, var, VarValue::Cell(ptr), (left, right));
            },
            (End::Var(var), End::Cell(ptr, _)) => {
                lemma_bind_linear(heads, frame, var, VarValue::Cell(ptr), (left, right));
            },
            (End::Var(left_var), End::Var(right_var)) => {
                lemma_connect_linear(heads, frame, left_var, right_var);
            },
            (End::Cell(left_ptr, left_cell), End::Cell(right_ptr, right_cell)) => {
                let counter = rule(left_cell, right_cell);
                if annihilates(left_cell, right_cell) {
                    lemma_annihilate_linear(
                        heads,
                        frame,
                        counter,
                        left_ptr,
                        left_cell,
                        right_ptr,
                        right_cell,
                    );
                } else {
                    lemma_count_linear(heads, frame, counter, Some((left, right)));
                    let counted = frame.count(counter);
                    if order(left_cell) <= order(right_cell) {
                        lemma_commute_linear(
                            heads,
                            counted,
                            left_ptr,
                            left_cell,
                            right_ptr,
                            right_cell,
                            (left, right),
                        );
                    } else {
                        lemma_commute_linear(
                            heads,
                            counted,
                            right_ptr,
                            right_cell,
                            left_ptr,
                            left_cell,
                            (left, right),
                        );
                    }
                }
            },
        }
    }
}

/// The frame has stopped with no fault, or because a counter, the arena
/// or the steps have run out.
pub open spec fn ran_out(fault: Option<Fault>) -> bool {
    fault.is_none() || fault == Some(Fault::CounterOverflow) || fault == Some(
        Fault::ArenaExhausted,
    ) || fault == Some(Fault::StepLimit)
}

/// The steps of a task keep a linear frame linear and report no fault but
/// that a counter, the arena or the steps have run out.
pub proof fn lemma_run_linear(heads: Seq<TermPtr>, frame: Frame, equation: Option<Equation>, steps: nat)
    requires
        frame.fault.is_none(),
        linear(heads, frame, equation),
    ensures
        ran_out(frame.run(equation, steps).0.fault),
        frame.run(equation, steps).0.fault.is_none() ==> linear(
            heads,
            frame.run(equation, steps).0,
            None,
        ),
    decreases steps,
{
    match equation {
        None => {},
        Some((left, right)) => {
            if steps > 0 {
                let (stepped, next) = frame.step(left, right);
                lemma_step_linear(heads, frame, left, right);
                if stepped.fault.is_none() {
                    lemma_run_linear(heads, stepped, next, (steps - 1) as nat);
                } else {
                    lemma_run_stopped(stepped, next, (steps - 1) as nat);
                }
            }
        },
    }
}

/// Two frames with the same arena in which the same slots are listed as
/// often have the same slots retired, and the one is cabled if the other
/// is.
pub proof fn lemma_same_listing(before: Frame, after: Frame)
    requires
        after.arena.slots == before.arena.slots,
        forall|ptr: Ptr| #[trigger] listed(after, ptr) == listed(before, ptr),
        cabled(before),
    ensures
        cabled(after),
        forall|ptr: Ptr| #[trigger] retired(after, ptr) == retired(before, ptr),
{
    assert forall|ptr: Ptr| #[trigger] retired(after, ptr) == retired(before, ptr) by {
        assert(listed(after, ptr) == listed(before, ptr));
        lemma_listed_retired(before, ptr);
        lemma_listed_retired(after, ptr);
    }
    assert forall|ptr: Ptr, other: Ptr| #![trigger live_in(after, ptr, Some(VarValue::Var(other)))]
        live_in(after, ptr, Some(VarValue::Var(other))) implies other != ptr && live_in(
        after,
        other,
        Some(VarValue::Var(ptr)),
    ) by {
        assert(retired(after, ptr) == retired(before, ptr));
        assert(retired(after, other) == retired(before, other));
        assert(live_in(before, ptr, Some(VarValue::Var(other))));
        assert(live_in(before, other, Some(VarValue::Var(ptr))));
    }
}

/// The flush at the end of a task finds every slot in its buffer occupied:
/// it reports no fault, empties the buffer, and keeps the frame linear.
pub proof fn lemma_flush_linear(heads: Seq<TermPtr>, frame: Frame)
    requires
        frame.fault.is_none(),
        linear(heads, frame, None),
    ensures
        frame.flush().fault.is_none(),
        frame.flush().free.len() == 0,
        frame.flush().scope == frame.scope,
        frame.flush().tally == frame.tally,
        linear(heads, frame.flush(), None),
    decreases frame.free.len(),
{
    if frame.free.len() > 0 {
        let last = frame.free.last();
        lemma_occurrences_push(frame.free.drop_last(), last, last);
        assert(frame.free.drop_last().push(last) =~= frame.free);
        lemma_within(heads, frame, None, last);
        frame.arena.lemma_free_wf(last);
        let next = Frame { arena: frame.arena.free(last), free: frame.free.drop_last(), ..frame };
        assert forall|ptr: Ptr| within(heads, next, None, ptr) && retired(next, ptr) == (retired(
            frame,
            ptr,
        ) && ptr != last) by {
            lemma_flush_one(heads, frame, ptr);
        }
        lemma_all_within(heads, next, None);
        assert forall|ptr: Ptr, other: Ptr| #![trigger live_in(next, ptr, Some(VarValue::Var(other)))]
            live_in(next, ptr, Some(VarValue::Var(other))) implies other != ptr && live_in(
            next,
            other,
            Some(VarValue::Var(ptr)),
        ) by {
            lemma_flush_one(heads, frame, ptr);
            lemma_flush_one(heads, frame, other);
            lemma_listed_retired(frame, last);
            assert(live_in(frame, ptr, Some(VarValue::Var(other))));
            assert(live_in(frame, other, Some(VarValue::Var(ptr))));
        }
        lemma_flush_linear(heads, next);
    }
}

/// What the release of the last slot of the buffer does to a slot.
proof fn lemma_flush_one(heads: Seq<TermPtr>, frame: Frame, ptr: Ptr)
    requires
        frame.fault.is_none(),
        linear(heads, frame, None),
        frame.free.len() > 0,
    ensures
        ({
            let last = frame.free.last();
            let next = Frame {
                arena: frame.arena.free(last),
                free: frame.free.drop_last(),
                ..frame
            };
            &&& within(heads, next, None, ptr)
            &&& retired(next, ptr) == (retired(frame, ptr) && ptr != last)
            &&& ptr != last && frame.arena.has(ptr) ==> next.arena.at(ptr) == frame.arena.at(ptr)
            &&& next.arena.holds(ptr) == (frame.arena.holds(ptr) && ptr != last)
            &&& frame.arena.holds(last)
        }),
{
    let last = frame.free.last();
    let next = Frame { arena: frame.arena.free(last), free: frame.free.drop_last(), ..frame };
    let shorter = Frame { free: frame.free.drop_last(), ..frame };
    assert(frame.free.drop_last().push(last) =~= frame.free);
    lemma_occurrences_push(frame.free.drop_last(), last, last);
    lemma_occurrences_push(frame.free.drop_last(), last, ptr);
    lemma_within(heads, frame, None, last);
    lemma_within(heads, frame, None, ptr);
    lemma_listed_retired(frame, last);
    lemma_listed_retired(frame, ptr);
    lemma_listed_retired(next, ptr);
    lemma_listed_retired(next, last);
    // the slot was retired and named nothing; now it is empty and names nothing
    assert(arena_column(next, ptr) =~= arena_column(frame, ptr)) by {
        assert forall|i: int| 0 <= i < frame.arena.slots.len() implies slot_hits(next, i, ptr)
            == slot_hits(frame, i, ptr) by {
            let q = Ptr(i as u32);
            lemma_occurrences_push(frame.free.drop_last(), last, q);
            lemma_listed_retired(frame, q);
            lemma_listed_retired(next, q);
        }
    }
}

/// The machine is linear between two tasks.
pub open spec fn linear_machine(heads: Seq<TermPtr>, machine: Machine) -> bool {
    linear(heads, machine.between(), None)
}

/// A task keeps a linear machine linear and reports no fault but that a
/// counter, the arena or the steps have run out.
pub proof fn lemma_task_linear(heads: Seq<TermPtr>, machine: Machine, steps: nat)
    requires
        machine.fault.is_none(),
        machine.scope.len() > 0,
        linear_machine(heads, machine),
    ensures
        ran_out(machine.task(steps).0.fault),
        machine.task(steps).0.fault.is_none() ==> linear_machine(heads, machine.task(steps).0),
{
    reveal(Machine::task);
    let job = machine.scope.last();
    let before = machine.between();
    let frame = Frame {
        arena: machine.arena,
        free: job.free,
        tally: Tally::zero(),
        scope: machine.scope.drop_last(),
        fault: None,
    };
    let equation = Some((job.left, job.right));
    assert(machine.scope.drop_last().push(job) =~= machine.scope);
    assert forall|ptr: Ptr| #[trigger] listed(frame, ptr) == listed(before, ptr) by {
        assert(listed_column(before.scope, ptr) =~= listed_column(frame.scope, ptr).push(
            occurrences(job.free, ptr),
        ));
        lemma_sum_push(listed_column(frame.scope, ptr), occurrences(job.free, ptr));
    }
    lemma_same_listing(before, frame);
    assert forall|ptr: Ptr| within(heads, frame, equation, ptr) by {
        lemma_within(heads, before, None, ptr);
        assert(listed(frame, ptr) == listed(before, ptr));
        assert(retired(frame, ptr) == retired(before, ptr));
        assert(scope_column(before.scope, ptr) =~= scope_column(frame.scope, ptr).push(
            pair_hits(job.left, job.right, ptr),
        ));
        lemma_sum_push(scope_column(frame.scope, ptr), pair_hits(job.left, job.right, ptr));
        assert(arena_column(frame, ptr) =~= arena_column(before, ptr)) by {
            assert forall|i: int| 0 <= i < frame.arena.slots.len() implies slot_hits(frame, i, ptr)
                == slot_hits(before, i, ptr) by {
                assert(retired(frame, Ptr(i as u32)) == retired(before, Ptr(i as u32)));
            }
        }
    }
    lemma_all_within(heads, frame, equation);
    lemma_run_linear(heads, frame, equation, steps);
    let ran = frame.run(equation, steps).0;
    if ran.fault.is_none() {
        lemma_flush_linear(heads, ran);
        let flushed = ran.flush();
        let after = machine.task(steps).0;
        if after.fault.is_none() {
            let between = after.between();
            assert(flushed.free =~= Seq::<Ptr>::empty());
            assert forall|ptr: Ptr| #[trigger] listed(between, ptr) == listed(flushed, ptr) by {}
            lemma_same_listing(flushed, between);
            assert forall|ptr: Ptr| within(heads, between, None, ptr) by {
                lemma_within(heads, flushed, None, ptr);
                assert(retired(between, ptr) == retired(flushed, ptr));
                assert(arena_column(between, ptr) =~= arena_column(flushed, ptr)) by {
                    assert forall|i: int| 0 <= i < between.arena.slots.len() implies slot_hits(
                        between,
                        i,
                        ptr,
                    ) == slot_hits(flushed, i, ptr) by {
                        assert(retired(between, Ptr(i as u32)) == retired(
                            flushed,
                            Ptr(i as u32),
                        ));
                    }
                }
            }
            lemma_all_within(heads, between, None);
        }
    }
}

/// Evaluation is total over linear nets: a run of a machine that is linear
/// finds every reference that it follows in place. It reports no fault but
/// that a counter, the arena or the steps have run out, and if it reports
/// none the machine is linear when the run ends.
pub proof fn lemma_machine_linear(heads: Seq<TermPtr>, machine: Machine, steps: nat)
    requires
        machine.fault.is_none(),
        linear_machine(heads, machine),
    ensures
        ran_out(machine.run(steps).fault),
        machine.run(steps).fault.is_none() ==> linear_machine(heads, machine.run(steps)),
    decreases steps,
{
    if machine.scope.len() > 0 && steps > 0 {
        let (next, left) = machine.task(steps);
        lemma_task_takes_steps(machine, steps);
        lemma_task_linear(heads, machine, steps);
        if next.fault.is_none() {
            lemma_machine_linear(heads, next, left);
        } else {
            lemma_machine_stopped(next, left);
        }
    }
}

/// A slot that an observer holds is occupied and not retired in a linear
/// frame.
pub proof fn lemma_held(heads: Seq<TermPtr>, frame: Frame, equation: Option<Equation>, at: int)
    requires
        bounded(heads, frame, equation),
        0 <= at < heads.len(),
        heads[at] is Ptr,
    ensures
        frame.arena.holds(heads[at]->Ptr_0),
        !retired(frame, heads[at]->Ptr_0),
{
    let ptr = heads[at]->Ptr_0;
    lemma_sum_bounds(head_column(heads, ptr), at);
    lemma_referenced(heads, frame, equation, ptr);
}

/// Observable heads: when the evaluation of a linear net ends without a
/// fault, every slot that an observer holds is occupied. A wire among them
/// is still a wire, and as far or further along `Unset`, `LinkedTo`,
/// `Bound` than it was.
pub proof fn lemma_heads_survive(heads: Seq<TermPtr>, machine: Machine, steps: nat, at: int)
    requires
        machine.fault.is_none(),
        linear_machine(heads, machine),
        machine.run(steps).fault.is_none(),
        0 <= at < heads.len(),
        heads[at] is Ptr,
    ensures
        machine.arena.holds(heads[at]->Ptr_0),
        machine.run(steps).arena.holds(heads[at]->Ptr_0),
        machine.arena.holds_var(heads[at]->Ptr_0) ==> machine.run(steps).arena.holds_var(
            heads[at]->Ptr_0,
        ) && rank(wire_state(machine.run(steps).arena, heads[at]->Ptr_0).unwrap()) >= rank(
            wire_state(machine.arena, heads[at]->Ptr_0).unwrap(),
        ),
        machine.arena.holds_cell(heads[at]->Ptr_0) ==> machine.run(steps).arena.holds_cell(
            heads[at]->Ptr_0,
        ),
{
    let ptr = heads[at]->Ptr_0;
    lemma_held(heads, machine.between(), None, at);
    lemma_machine_linear(heads, machine, steps);
    lemma_held(heads, machine.run(steps).between(), None, at);
    lemma_machine_in_order(machine, steps, ptr);
}

/// The net of an eraser against a duplicator over two unset wires, both
/// of which an observer holds, is linear.
pub proof fn lemma_example_linear()
    ensures
        linear_machine(
            seq![TermPtr::Ptr(Ptr(0)), TermPtr::Ptr(Ptr(1))],
            Machine::load(
                Arena {
                    slots: seq![
                        Some(Term::Var(Var::holding(None))),
                        Some(Term::Var(Var::holding(None))),
                        Some(
                            Term::Cell(
                                Cell::Dup(Some((TermPtr::Ptr(Ptr(0)), TermPtr::Ptr(Ptr(1)))), None),
                            ),
                        ),
                    ],
                    live: 3,
                    capacity: 8,
                },
                seq![(TermPtr::Era, TermPtr::Ptr(Ptr(2)))],
                Tally::zero(),
            ),
        ),
{
    let wire = Some(Term::Var(Var::holding(None)));
    let dup = Some(Term::Cell(Cell::Dup(Some((TermPtr::Ptr(Ptr(0)), TermPtr::Ptr(Ptr(1)))), None)));
    let slots = seq![wire, wire, dup];
    let arena = Arena { slots, live: 3, capacity: 8 };
    let body = seq![(TermPtr::Era, TermPtr::Ptr(Ptr(2)))];
    let machine = Machine::load(arena, body, Tally::zero());
    let heads = seq![TermPtr::Ptr(Ptr(0)), TermPtr::Ptr(Ptr(1))];
    let frame = machine.between();
    lemma_decode_encode(None);
    reveal_with_fuel(sum, 5);
    reveal_with_fuel(occurrences, 2);
    reveal_with_fuel(crate::arena::occupied, 5);
    assert(slots.drop_last() =~= seq![wire, wire]);
    assert(slots.drop_last().drop_last() =~= seq![wire]);
    assert(slots.drop_last().drop_last().drop_last() =~= Seq::<Option<Term>>::empty());
    assert(arena.wf());
    assert(frame.scope.len() == 1);
    assert(frame.scope[0].free.len() == 0);
    assert forall|ptr: Ptr| !retired(frame, ptr) by {
        lemma_listed_retired(frame, ptr);
        assert(listed_column(frame.scope, ptr) =~= seq![0nat]);
        assert(seq![0nat].drop_last() =~= Seq::<nat>::empty());
    }
    assert forall|ptr: Ptr| within(heads, frame, None, ptr) by {
        lemma_listed_retired(frame, ptr);
        assert(listed_column(frame.scope, ptr) =~= seq![0nat]);
        assert(seq![0nat].drop_last() =~= Seq::<nat>::empty());
        let col = arena_column(frame, ptr);
        assert(col =~= seq![0nat, 0nat, slot_hits(frame, 2, ptr)]);
        assert(col.drop_last() =~= seq![0nat, 0nat]);
        assert(col.drop_last().drop_last() =~= seq![0nat]);
        assert(col.drop_last().drop_last().drop_last() =~= Seq::<nat>::empty());
        let held = head_column(heads, ptr);
        assert(held =~= seq![hit(TermPtr::Ptr(Ptr(0)), ptr), hit(TermPtr::Ptr(Ptr(1)), ptr)]);
        assert(held.drop_last() =~= seq![hit(TermPtr::Ptr(Ptr(0)), ptr)]);
        assert(held.drop_last().drop_last() =~= Seq::<nat>::empty());
        let jobs = scope_column(frame.scope, ptr);
        assert(jobs =~= seq![hit(TermPtr::Ptr(Ptr(2)), ptr)]);
        assert(jobs.drop_last() =~= Seq::<nat>::empty());
    }
    lemma_all_within(heads, frame, None);
    assert forall|ptr: Ptr, other: Ptr| #![trigger live_in(frame, ptr, Some(VarValue::Var(other)))]
        live_in(frame, ptr, Some(VarValue::Var(other))) implies other != ptr && live_in(
        frame,
        other,
        Some(VarValue::Var(ptr)),
    ) by {}
}

} // verus!
