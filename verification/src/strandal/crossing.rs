//! Two duplicators of different labels that cross: the whole evaluation of
//! a net that is one such equation over four unset wires.

use vstd::prelude::*;

use super::machine::Frame;
use super::machine::Job;
use super::machine::Machine;
use super::machine::lemma_machine_stopped;
use super::machine::lemma_machine_task;
use super::machine::lemma_run_step;
use super::stats::Counter;
use super::stats::Tally;
use super::store::Arena;
use super::store::FreePtrs;
use super::store::Ptr;
use super::term::Cell;
use super::term::Term;
use super::term::TermPtr;
use super::var::Var;
use super::var::VarValue;
use super::var::lemma_decode_encode;
use super::wires::wire_state;

verus! {

/// The arena after the unset wire at `var_ptr` is bound to the agent at
/// `cell_ptr`.
pub open spec fn bound_to(arena: Arena, var_ptr: Ptr, cell_ptr: Ptr) -> Arena {
    arena.set(var_ptr, Term::Var(Var::holding(Some(VarValue::Cell(cell_ptr)))))
}

/// An equation between an agent and an unset wire binds the wire to the
/// agent, counts one binding, and leaves nothing to go on with.
pub proof fn lemma_bind_unset(frame: Frame, cell_ptr: Ptr, var_ptr: Ptr)
    requires
        frame.fault.is_none(),
        frame.arena.holds_cell(cell_ptr),
        wire_state(frame.arena, var_ptr) == Some(None::<VarValue>),
        frame.tally.binds < usize::MAX,
    ensures
        frame.step(TermPtr::Ptr(cell_ptr), TermPtr::Ptr(var_ptr)) == (
            Frame {
                arena: bound_to(frame.arena, var_ptr, cell_ptr),
                tally: frame.tally.bump(Counter::Binds),
                ..frame
            },
            None::<(TermPtr, TermPtr)>,
        ),
{
    reveal(Frame::step);
    let counted = frame.count(Counter::Binds);
    assert(counted == Frame { tally: frame.tally.bump(Counter::Binds), ..frame });
    let (swapped, prior) = counted.swap(var_ptr, VarValue::Cell(cell_ptr));
    assert(prior.is_none());
    assert(counted.walk(var_ptr, None, VarValue::Cell(cell_ptr)) == (
        swapped,
        VarValue::Var(var_ptr),
    ));
}

/// A task that holds nothing in its buffer and starts on an equation
/// between an agent and an unset wire binds the wire in one step and ends.
pub proof fn lemma_bind_task(machine: Machine, steps: nat, cell_ptr: Ptr, var_ptr: Ptr)
    requires
        machine.fault.is_none(),
        machine.scope.len() > 0,
        machine.scope.last() == (Job {
            left: TermPtr::Ptr(cell_ptr),
            right: TermPtr::Ptr(var_ptr),
            free: Seq::empty(),
        }),
        machine.arena.holds_cell(cell_ptr),
        wire_state(machine.arena, var_ptr) == Some(None::<VarValue>),
        machine.tally.fits(Tally::zero().bump(Counter::Binds)),
        steps > 0,
    ensures
        machine.task(steps) == (
            Machine {
                arena: bound_to(machine.arena, var_ptr, cell_ptr),
                scope: machine.scope.drop_last(),
                tally: machine.tally.bump(Counter::Binds),
                fault: None,
            },
            (steps - 1) as nat,
        ),
{
    reveal(Machine::task);
    let frame = Frame {
        arena: machine.arena,
        free: Seq::empty(),
        tally: Tally::zero(),
        scope: machine.scope.drop_last(),
        fault: None,
    };
    lemma_bind_unset(frame, cell_ptr, var_ptr);
    lemma_run_step(frame, TermPtr::Ptr(cell_ptr), TermPtr::Ptr(var_ptr), steps);
    let (stepped, next) = frame.step(TermPtr::Ptr(cell_ptr), TermPtr::Ptr(var_ptr));
    assert(stepped.run(next, (steps - 1) as nat) == (stepped, (steps - 1) as nat));
    assert(stepped.flush() == stepped);
    assert(machine.tally.plus(stepped.tally) == machine.tally.bump(Counter::Binds));
}

/// Two duplicators and the four wires at their ports.
pub struct Crossing {
    pub left: Ptr,
    pub left_label: Option<Ptr>,
    pub right: Ptr,
    pub right_label: Option<Ptr>,
    pub a: Ptr,
    pub b: Ptr,
    pub c: Ptr,
    pub d: Ptr,
}

/// An unset wire as the content of a slot.
pub open spec fn unset() -> Term {
    Term::Var(Var::holding(None))
}

/// The reference to the slot at `index`.
pub open spec fn slot(index: int) -> TermPtr {
    TermPtr::Ptr(Ptr(index as u32))
}

impl Crossing {
    /// The duplicator on the left, over `a` and `b`.
    pub open spec fn left_cell(self) -> Cell {
        Cell::Dup(Some((TermPtr::Ptr(self.a), TermPtr::Ptr(self.b))), self.left_label)
    }

    /// The duplicator on the right, over `c` and `d`.
    pub open spec fn right_cell(self) -> Cell {
        Cell::Dup(Some((TermPtr::Ptr(self.c), TermPtr::Ptr(self.d))), self.right_label)
    }

    /// The two duplicators stand in the arena, their labels differ, their
    /// ports are four different wires, all unset, and the arena has room
    /// for six more slots.
    pub open spec fn stands_in(self, arena: Arena) -> bool {
        &&& arena.wf()
        &&& arena.has_room(6)
        &&& self.left_label != self.right_label
        &&& arena.has(self.left) && arena.at(self.left) == Some(Term::Cell(self.left_cell()))
        &&& arena.has(self.right) && arena.at(self.right) == Some(Term::Cell(self.right_cell()))
        &&& self.left != self.right
        &&& arena.has(self.a) && arena.at(self.a) == Some(unset())
        &&& arena.has(self.b) && arena.at(self.b) == Some(unset())
        &&& arena.has(self.c) && arena.at(self.c) == Some(unset())
        &&& arena.has(self.d) && arena.at(self.d) == Some(unset())
        &&& self.a != self.b && self.a != self.c && self.a != self.d
        &&& self.b != self.c && self.b != self.d && self.c != self.d
    }

    /// The arena after the rewrite: four fresh unset wires, the two
    /// duplicators overwritten by their first copies, and a fresh slot for
    /// the second copy of each.
    pub open spec fn copied(self, arena: Arena) -> Arena {
        let first = arena.slots.len() as int;
        arena.allocate(Some(unset())).allocate(Some(unset())).allocate(Some(unset())).allocate(
            Some(unset()),
        ).set(self.left, Term::Cell(Cell::Dup(Some((slot(first), slot(first + 2))), self.left_label))).allocate(
            Some(Term::Cell(Cell::Dup(Some((slot(first + 3), slot(first + 1))), self.left_label))),
        ).set(
            self.right,
            Term::Cell(Cell::Dup(Some((slot(first), slot(first + 3))), self.right_label)),
        ).allocate(
            Some(Term::Cell(Cell::Dup(Some((slot(first + 2), slot(first + 1))), self.right_label))),
        )
    }

    /// What the rewrite counts: the rule, four wires and two agents.
    pub open spec fn rewrite_tally() -> Tally {
        Tally { comm_dup_dup: 1, alloc_vars: 4, alloc_cells: 2, ..Tally::zero() }
    }
}

/// The rewrite of two duplicators that cross. The arena holds the four
/// copies over four fresh wires; the copies of the right duplicator wait to
/// meet `a` and `b`, the first copy of the left one waits to meet `c`, and
/// the task goes on with the second copy of the left one against `d`.
pub proof fn lemma_crossing_step(frame: Frame, crossing: Crossing)
    requires
        frame.fault.is_none(),
        frame.free == Seq::<Ptr>::empty(),
        frame.tally == Tally::zero(),
        crossing.stands_in(frame.arena),
    ensures
        ({
            let first = frame.arena.slots.len() as int;
            let waiting = |left: TermPtr, right: Ptr|
                Job { left, right: TermPtr::Ptr(right), free: Seq::empty() };
            frame.step(TermPtr::Ptr(crossing.left), TermPtr::Ptr(crossing.right)) == (
                Frame {
                    arena: crossing.copied(frame.arena),
                    free: Seq::empty(),
                    tally: Crossing::rewrite_tally(),
                    scope: frame.scope.push(waiting(TermPtr::Ptr(crossing.right), crossing.a)).push(
                        waiting(slot(first + 5), crossing.b),
                    ).push(waiting(TermPtr::Ptr(crossing.left), crossing.c)),
                    fault: None,
                },
                Some((slot(first + 4), TermPtr::Ptr(crossing.d))),
            )
        }),
{
    reveal(Frame::step);
    let left = crossing.left_cell();
    let right = crossing.right_cell();
    let first = frame.arena.slots.len() as int;
    let counted = frame.count(Counter::CommDupDup);
    assert(frame.step(TermPtr::Ptr(crossing.left), TermPtr::Ptr(crossing.right))
        == counted.commute(crossing.left, left, crossing.right, right));
    let (f1, x1) = counted.alloc_var();
    let (f2, x2) = f1.alloc_var();
    let (f3, x3) = f2.alloc_var();
    let (f4, x4) = f3.alloc_var();
    assert(f4.fault.is_none());
    assert(x1 == Ptr(first as u32) && x2 == Ptr((first + 1) as u32));
    assert(x3 == Ptr((first + 2) as u32) && x4 == Ptr((first + 3) as u32));
    let f5 = f4.reuse_cell(
        crossing.left,
        left.spec_with_ports(TermPtr::Ptr(x1), TermPtr::Ptr(x3)),
    );
    let (f6, left_1) = f5.alloc_cell(left.spec_with_ports(TermPtr::Ptr(x4), TermPtr::Ptr(x2)));
    let f7 = f6.reuse_cell(
        crossing.right,
        right.spec_with_ports(TermPtr::Ptr(x1), TermPtr::Ptr(x4)),
    );
    let (f8, right_1) = f7.alloc_cell(right.spec_with_ports(TermPtr::Ptr(x3), TermPtr::Ptr(x2)));
    assert(f8.fault.is_none());
    assert(left_1 == Ptr((first + 4) as u32) && right_1 == Ptr((first + 5) as u32));
    assert(f8.arena == crossing.copied(frame.arena));
    assert(f8.tally == Crossing::rewrite_tally());
    assert(FreePtrs::kept(Seq::<Ptr>::empty(), 4) =~= Seq::<Ptr>::empty());
    assert(FreePtrs::given(Seq::<Ptr>::empty(), 4) =~= Seq::<Ptr>::empty());
    assert(FreePtrs::kept(Seq::<Ptr>::empty(), 3) =~= Seq::<Ptr>::empty());
    assert(FreePtrs::given(Seq::<Ptr>::empty(), 3) =~= Seq::<Ptr>::empty());
    assert(FreePtrs::kept(Seq::<Ptr>::empty(), 2) =~= Seq::<Ptr>::empty());
    assert(FreePtrs::given(Seq::<Ptr>::empty(), 2) =~= Seq::<Ptr>::empty());
}

impl Crossing {
    /// The arena at the end of the evaluation: after the rewrite, `d` is
    /// bound to the second copy of the left duplicator, `c` to its first
    /// copy, `b` to the second copy of the right duplicator, and `a` to its
    /// first copy.
    pub open spec fn crossed(self, arena: Arena) -> Arena {
        let first = arena.slots.len() as int;
        bound_to(
            bound_to(
                bound_to(
                    bound_to(self.copied(arena), self.d, Ptr((first + 4) as u32)),
                    self.c,
                    self.left,
                ),
                self.b,
                Ptr((first + 5) as u32),
            ),
            self.a,
            self.right,
        )
    }

    /// What the whole evaluation counts: the rule, four wires, two agents
    /// and four bindings.
    pub open spec fn tally() -> Tally {
        Tally { comm_dup_dup: 1, alloc_vars: 4, alloc_cells: 2, binds: 4, ..Tally::zero() }
    }

    /// The net that is the one equation between the two duplicators.
    pub open spec fn body(self) -> Seq<(TermPtr, TermPtr)> {
        seq![(TermPtr::Ptr(self.left), TermPtr::Ptr(self.right))]
    }
}

/// What the slots hold after the rewrite: the copies stand over the four
/// fresh wires, which are unset, and every other slot is as it was.
pub proof fn lemma_copied_reads(crossing: Crossing, arena: Arena)
    requires
        crossing.stands_in(arena),
    ensures
        ({
            let first = arena.slots.len() as int;
            let after = crossing.copied(arena);
            &&& after.slots.len() == first + 6
            &&& after.capacity == arena.capacity
            &&& after.live == arena.live + 6
            &&& after.at(crossing.left) == Some(
                Term::Cell(Cell::Dup(Some((slot(first), slot(first + 2))), crossing.left_label)),
            )
            &&& after.at(crossing.right) == Some(
                Term::Cell(Cell::Dup(Some((slot(first), slot(first + 3))), crossing.right_label)),
            )
            &&& after.at(Ptr((first + 4) as u32)) == Some(
                Term::Cell(
                    Cell::Dup(Some((slot(first + 3), slot(first + 1))), crossing.left_label),
                ),
            )
            &&& after.at(Ptr((first + 5) as u32)) == Some(
                Term::Cell(
                    Cell::Dup(Some((slot(first + 2), slot(first + 1))), crossing.right_label),
                ),
            )
            &&& forall|i: int|
                first <= i < first + 4 ==> #[trigger] after.at(Ptr(i as u32)) == Some(unset())
            &&& forall|ptr: Ptr|
                arena.has(ptr) && ptr != crossing.left && ptr != crossing.right
                    ==> #[trigger] after.at(ptr) == arena.at(ptr)
        }),
{
}

/// What the slots hold at the end of the evaluation: each of the four
/// wires is bound to a copy of the duplicator on the other side, and every
/// other slot is as it was after the rewrite.
pub proof fn lemma_crossed_reads(crossing: Crossing, arena: Arena)
    requires
        crossing.stands_in(arena),
    ensures
        ({
            let first = arena.slots.len() as int;
            let after = crossing.crossed(arena);
            &&& after.slots.len() == first + 6
            &&& wire_state(after, crossing.a) == Some(Some(VarValue::Cell(crossing.right)))
            &&& wire_state(after, crossing.b) == Some(
                Some(VarValue::Cell(Ptr((first + 5) as u32))),
            )
            &&& wire_state(after, crossing.c) == Some(Some(VarValue::Cell(crossing.left)))
            &&& wire_state(after, crossing.d) == Some(
                Some(VarValue::Cell(Ptr((first + 4) as u32))),
            )
            &&& after.at(crossing.left) == Some(
                Term::Cell(Cell::Dup(Some((slot(first), slot(first + 2))), crossing.left_label)),
            )
            &&& after.at(crossing.right) == Some(
                Term::Cell(Cell::Dup(Some((slot(first), slot(first + 3))), crossing.right_label)),
            )
            &&& after.at(Ptr((first + 4) as u32)) == Some(
                Term::Cell(
                    Cell::Dup(Some((slot(first + 3), slot(first + 1))), crossing.left_label),
                ),
            )
            &&& after.at(Ptr((first + 5) as u32)) == Some(
                Term::Cell(
                    Cell::Dup(Some((slot(first + 2), slot(first + 1))), crossing.right_label),
                ),
            )
            &&& forall|i: int|
                first <= i < first + 4 ==> #[trigger] after.at(Ptr(i as u32)) == Some(unset())
            &&& forall|ptr: Ptr|
                after.has(ptr) && ptr != crossing.a && ptr != crossing.b && ptr != crossing.c && ptr
                    != crossing.d ==> #[trigger] after.at(ptr) == crossing.copied(arena).at(ptr)
        }),
{
    let first = arena.slots.len() as int;
    lemma_copied_reads(crossing, arena);
    lemma_decode_encode(Some(VarValue::Cell(crossing.right)));
    lemma_decode_encode(Some(VarValue::Cell(crossing.left)));
    lemma_decode_encode(Some(VarValue::Cell(Ptr((first + 4) as u32))));
    lemma_decode_encode(Some(VarValue::Cell(Ptr((first + 5) as u32))));
}

/// The task that starts on the equation between the two duplicators
/// rewrites them and binds `d`, in two steps.
pub proof fn lemma_crossing_task(crossing: Crossing, arena: Arena, tally: Tally, steps: nat)
    requires
        crossing.stands_in(arena),
        tally.fits(Crossing::tally()),
        steps >= 2,
    ensures
        ({
            let first = arena.slots.len() as int;
            let waiting = |left: TermPtr, right: Ptr|
                Job { left, right: TermPtr::Ptr(right), free: Seq::empty() };
            Machine::load(arena, crossing.body(), tally).task(steps) == (
                Machine {
                    arena: bound_to(crossing.copied(arena), crossing.d, Ptr((first + 4) as u32)),
                    scope: seq![
                        waiting(TermPtr::Ptr(crossing.right), crossing.a),
                        waiting(slot(first + 5), crossing.b),
                        waiting(TermPtr::Ptr(crossing.left), crossing.c),
                    ],
                    tally: tally.plus(Crossing::rewrite_tally().bump(Counter::Binds)),
                    fault: None,
                },
                (steps - 2) as nat,
            )
        }),
{
    reveal(Machine::task);
    let first = arena.slots.len() as int;
    let machine = Machine::load(arena, crossing.body(), tally);
    let job = machine.scope.last();
    assert(job == Job {
        left: TermPtr::Ptr(crossing.left),
        right: TermPtr::Ptr(crossing.right),
        free: Seq::empty(),
    });
    assert(machine.scope.drop_last() =~= Seq::<Job>::empty());
    let frame = Frame {
        arena,
        free: Seq::empty(),
        tally: Tally::zero(),
        scope: Seq::empty(),
        fault: None,
    };
    lemma_crossing_step(frame, crossing);
    lemma_run_step(frame, TermPtr::Ptr(crossing.left), TermPtr::Ptr(crossing.right), steps);
    let (rewritten, next) = frame.step(TermPtr::Ptr(crossing.left), TermPtr::Ptr(crossing.right));
    lemma_copied_reads(crossing, arena);
    lemma_decode_encode(None);
    assert(rewritten.arena.at(crossing.d) == arena.at(crossing.d));
    lemma_bind_unset(rewritten, Ptr((first + 4) as u32), crossing.d);
    lemma_run_step(rewritten, slot(first + 4), TermPtr::Ptr(crossing.d), (steps - 1) as nat);
    let (ended, last) = rewritten.step(slot(first + 4), TermPtr::Ptr(crossing.d));
    assert(ended.run(last, (steps - 2) as nat) == (ended, (steps - 2) as nat));
    assert(frame.run(Some((job.left, job.right)), steps) == (ended, (steps - 2) as nat));
    assert(ended.flush() == ended);
    assert(machine.tally.fits(ended.tally));
    assert(ended.scope =~= seq![
        Job { left: TermPtr::Ptr(crossing.right), right: TermPtr::Ptr(crossing.a), free: Seq::empty() },
        Job { left: slot(first + 5), right: TermPtr::Ptr(crossing.b), free: Seq::empty() },
        Job { left: TermPtr::Ptr(crossing.left), right: TermPtr::Ptr(crossing.c), free: Seq::empty() },
    ]);
}

/// The whole evaluation of two duplicators that cross, wherever they and
/// their wires stand in the arena. With five steps or more the evaluation
/// ends without a fault and with no task left. One rewrite is counted,
/// four wires and two agents are handed out, and four wires are bound:
/// `a` and `b` to the copies of the right duplicator, `c` and `d` to the
/// copies of the left one.
pub proof fn lemma_crossing_runs(crossing: Crossing, arena: Arena, tally: Tally, steps: nat)
    requires
        crossing.stands_in(arena),
        tally.fits(Crossing::tally()),
        steps >= 5,
    ensures
        Machine::load(arena, crossing.body(), tally).run(steps) == (Machine {
            arena: crossing.crossed(arena),
            scope: Seq::empty(),
            tally: tally.plus(Crossing::tally()),
            fault: None,
        }),
        Machine::load(arena, crossing.body(), tally).run(steps).tally.alloc_vars
            == tally.alloc_vars + 4,
{
    let first = arena.slots.len() as int;
    let start = Machine::load(arena, crossing.body(), tally);
    lemma_copied_reads(crossing, arena);
    lemma_decode_encode(None);
    lemma_machine_task(start, steps);
    lemma_crossing_task(crossing, arena, tally, steps);
    let (rewritten, after_rewrite) = start.task(steps);
    assert(rewritten.arena.at(crossing.left) == crossing.copied(arena).at(crossing.left));
    assert(rewritten.arena.at(crossing.c) == arena.at(crossing.c));
    assert(rewritten.scope.last() == Job {
        left: TermPtr::Ptr(crossing.left),
        right: TermPtr::Ptr(crossing.c),
        free: Seq::empty(),
    });
    lemma_machine_task(rewritten, after_rewrite);
    lemma_bind_task(rewritten, after_rewrite, crossing.left, crossing.c);
    let (third, after_third) = rewritten.task(after_rewrite);
    assert(third.arena.at(Ptr((first + 5) as u32)) == crossing.copied(arena).at(
        Ptr((first + 5) as u32),
    ));
    assert(third.arena.at(crossing.b) == arena.at(crossing.b));
    assert(third.scope.last() == Job {
        left: slot(first + 5),
        right: TermPtr::Ptr(crossing.b),
        free: Seq::empty(),
    });
    lemma_machine_task(third, after_third);
    lemma_bind_task(third, after_third, Ptr((first + 5) as u32), crossing.b);
    let (second, after_second) = third.task(after_third);
    assert(second.arena.at(crossing.right) == crossing.copied(arena).at(crossing.right));
    assert(second.arena.at(crossing.a) == arena.at(crossing.a));
    assert(second.scope.last() == Job {
        left: TermPtr::Ptr(crossing.right),
        right: TermPtr::Ptr(crossing.a),
        free: Seq::empty(),
    });
    lemma_machine_task(second, after_second);
    lemma_bind_task(second, after_second, crossing.right, crossing.a);
    let (ended, after_end) = second.task(after_second);
    assert(ended.scope =~= Seq::<Job>::empty());
    lemma_machine_stopped(ended, after_end);
    assert(ended.tally == tally.plus(Crossing::tally()));
}

} // verus!
