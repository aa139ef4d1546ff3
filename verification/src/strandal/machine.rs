//! The evaluator as a function on values: what each step of an evaluation
//! does to the arena, to the task's buffer of released slots, to its
//! counters and to the queue of tasks.

use vstd::prelude::*;

use crate::fault::Fault;
use super::stats::Counter;
use super::stats::Tally;
use super::store::Arena;
use super::store::FREE_PTRS_SIZE;
use super::store::FreePtrs;
use super::store::Ptr;
use super::term::Cell;
use super::term::Term;
use super::term::TermPtr;
use super::var::Var;
use super::var::VarValue;

verus! {

/// An equation between two term references.
pub type Equation = (TermPtr, TermPtr);

/// A task that waits in the queue: an equation, and the released slots that
/// the task was handed when it was spawned.
pub struct Job {
    pub left: TermPtr,
    pub right: TermPtr,
    pub free: Seq<Ptr>,
}

/// What a running task sees and changes. Once `fault` is set nothing
/// changes any more.
pub struct Frame {
    pub arena: Arena,
    pub free: Seq<Ptr>,
    pub tally: Tally,
    pub scope: Seq<Job>,
    pub fault: Option<Fault>,
}

/// What one end of an equation turns out to be.
#[derive(Debug, Clone, Copy, PartialEq, Eq)]
pub enum End {
    Era,
    Cell(Ptr, Cell),
    Var(Ptr),
    Broken(Fault),
}

/// The kinds of equation. The kind does not depend on which end is written
/// first.
#[derive(Debug, Clone, Copy, PartialEq, Eq, Structural)]
pub enum Class {
    /// Eraser against eraser.
    Void,
    /// Eraser against agent.
    Erase,
    /// Agent against agent.
    Interact,
    /// Wire against eraser.
    BindEra,
    /// Wire against agent.
    BindCell,
    /// Wire against wire.
    Connect,
    /// One end cannot be read.
    Broken(Fault),
}

/// The value that a term reference gives a wire that is bound to it.
pub open spec fn term_of(value: VarValue) -> TermPtr {
    match value {
        VarValue::Era => TermPtr::Era,
        VarValue::Cell(ptr) => TermPtr::Ptr(ptr),
        VarValue::Var(ptr) => TermPtr::Ptr(ptr),
    }
}

/// Why a slot cannot be read, if it cannot.
pub open spec fn unreadable(arena: Arena, ptr: Ptr) -> Option<Fault> {
    if !arena.has(ptr) {
        Some(Fault::OutOfBounds)
    } else if arena.at(ptr).is_none() {
        Some(Fault::EmptySlot)
    } else {
        None
    }
}

/// Reads one end of an equation.
pub open spec fn resolve(arena: Arena, term: TermPtr) -> End {
    match term {
        TermPtr::Era => End::Era,
        TermPtr::Ptr(ptr) => match unreadable(arena, ptr) {
            Some(fault) => End::Broken(fault),
            None => match arena.at(ptr).unwrap() {
                Term::Var(_) => End::Var(ptr),
                Term::Cell(cell) => End::Cell(ptr, cell),
            },
        },
    }
}

/// The fault of an equation of which both ends are broken: that a slot was
/// never handed out, if that holds of either end.
pub open spec fn worse(left: Fault, right: Fault) -> Fault {
    if left == Fault::OutOfBounds || right == Fault::OutOfBounds {
        Fault::OutOfBounds
    } else {
        left
    }
}

/// The kind of the equation between two ends.
pub open spec fn class_of(left: End, right: End) -> Class {
    match (left, right) {
        (End::Broken(left_fault), End::Broken(right_fault)) => Class::Broken(
            worse(left_fault, right_fault),
        ),
        (End::Broken(fault), _) => Class::Broken(fault),
        (_, End::Broken(fault)) => Class::Broken(fault),
        (End::Era, End::Era) => Class::Void,
        (End::Era, End::Cell(_, _)) => Class::Erase,
        (End::Cell(_, _), End::Era) => Class::Erase,
        (End::Era, End::Var(_)) => Class::BindEra,
        (End::Var(_), End::Era) => Class::BindEra,
        (End::Cell(_, _), End::Cell(_, _)) => Class::Interact,
        (End::Cell(_, _), End::Var(_)) => Class::BindCell,
        (End::Var(_), End::Cell(_, _)) => Class::BindCell,
        (End::Var(_), End::Var(_)) => Class::Connect,
    }
}

/// The kind of an equation in a given arena.
pub open spec fn classify(arena: Arena, left: TermPtr, right: TermPtr) -> Class {
    class_of(resolve(arena, left), resolve(arena, right))
}

/// The counter of the rule that rewrites an eraser against the agent.
pub open spec fn erase_rule(cell: Cell) -> Counter {
    match cell {
        Cell::Dup(_, _) => Counter::CommEraDup,
        Cell::App(_) => Counter::CommEraApp,
        Cell::Lam(_) => Counter::CommEraLam,
    }
}

/// The counter of the rule that rewrites the two agents.
pub open spec fn rule(left: Cell, right: Cell) -> Counter {
    match (left, right) {
        (Cell::App(_), Cell::App(_)) => Counter::AnniAppApp,
        (Cell::Lam(_), Cell::Lam(_)) => Counter::AnniLamLam,
        (Cell::Dup(_, l), Cell::Dup(_, r)) => if l == r {
            Counter::AnniDupDup
        } else {
            Counter::CommDupDup
        },
        (Cell::App(_), Cell::Dup(_, _)) => Counter::CommAppDup,
        (Cell::Dup(_, _), Cell::App(_)) => Counter::CommAppDup,
        (Cell::App(_), Cell::Lam(_)) => Counter::CommAppLam,
        (Cell::Lam(_), Cell::App(_)) => Counter::CommAppLam,
        (Cell::Lam(_), Cell::Dup(_, _)) => Counter::CommLamDup,
        (Cell::Dup(_, _), Cell::Lam(_)) => Counter::CommLamDup,
    }
}

/// The rule annihilates: the agents are of one kind and, for duplicators,
/// of one label.
pub open spec fn annihilates(left: Cell, right: Cell) -> bool {
    match (left, right) {
        (Cell::App(_), Cell::App(_)) => true,
        (Cell::Lam(_), Cell::Lam(_)) => true,
        (Cell::Dup(_, l), Cell::Dup(_, r)) => l == r,
        _ => false,
    }
}

/// Where an agent stands among the kinds: applications, then lambdas, then
/// duplicators.
pub open spec fn order(cell: Cell) -> nat {
    match cell {
        Cell::App(_) => 0,
        Cell::Lam(_) => 1,
        Cell::Dup(_, _) => 2,
    }
}

/// Empties the slots in a buffer of released slots, last first, until the
/// buffer is empty or a slot cannot be emptied. Returns the arena, what is
/// left in the buffer, and the fault if there was one.
pub open spec fn flush(arena: Arena, free: Seq<Ptr>) -> (Arena, Seq<Ptr>, Option<Fault>)
    decreases free.len(),
{
    if free.len() == 0 {
        (arena, free, None)
    } else {
        match unreadable(arena, free.last()) {
            Some(fault) => (arena, free.drop_last(), Some(fault)),
            None => flush(arena.free(free.last()), free.drop_last()),
        }
    }
}

impl Frame {
    /// The frame stopped with the given fault, unless it had stopped before.
    pub open spec fn fail(self, fault: Fault) -> Frame {
        if self.fault.is_some() {
            self
        } else {
            Frame { fault: Some(fault), ..self }
        }
    }

    /// Counts one event.
    pub open spec fn count(self, counter: Counter) -> Frame {
        if self.fault.is_some() {
            self
        } else if self.tally.get(counter) >= usize::MAX {
            self.fail(Fault::CounterOverflow)
        } else {
            Frame { tally: self.tally.bump(counter), ..self }
        }
    }

    /// Empties a slot.
    pub open spec fn release(self, ptr: Ptr) -> Frame {
        if self.fault.is_some() {
            self
        } else {
            match unreadable(self.arena, ptr) {
                Some(fault) => self.fail(fault),
                None => Frame { arena: self.arena.free(ptr), ..self },
            }
        }
    }

    /// Notes that the content of a slot has been consumed. The slot goes
    /// to the buffer of released slots; if the buffer is full the slot is
    /// emptied at once.
    pub open spec fn retire(self, ptr: Ptr) -> Frame {
        if self.fault.is_some() {
            self
        } else if self.free.len() < FREE_PTRS_SIZE {
            Frame { free: self.free.push(ptr), ..self }
        } else {
            self.release(ptr)
        }
    }

    /// Queues the equation as a new task, which takes its share of the
    /// buffer of released slots with it.
    pub open spec fn spawn(self, left: TermPtr, right: TermPtr, n: u8) -> Frame {
        if self.fault.is_some() {
            self
        } else {
            Frame {
                free: FreePtrs::kept(self.free, n),
                scope: self.scope.push(Job { left, right, free: FreePtrs::given(self.free, n) }),
                ..self
            }
        }
    }

    /// Writes a new state into a wire and returns the state it replaced.
    pub open spec fn swap(self, ptr: Ptr, value: VarValue) -> (Frame, Option<VarValue>) {
        if self.fault.is_some() {
            (self, None)
        } else {
            match resolve(self.arena, TermPtr::Ptr(ptr)) {
                End::Var(_) => (
                    Frame {
                        arena: self.arena.set(ptr, Term::Var(Var::holding(Some(value)))),
                        ..self
                    },
                    self.arena.at(ptr).unwrap()->Var_0.value(),
                ),
                End::Broken(fault) => (self.fail(fault), None),
                _ => (self.fail(Fault::KindMismatch), None),
            }
        }
    }

    /// Hands out a fresh slot with the given content.
    pub open spec fn allocate(self, counter: Counter, term: Term) -> (Frame, Ptr) {
        let counted = self.count(counter);
        if counted.fault.is_some() {
            (counted, self.arena.next())
        } else if !self.arena.has_room(1) {
            (counted.fail(Fault::ArenaExhausted), self.arena.next())
        } else {
            (Frame { arena: self.arena.allocate(Some(term)), ..counted }, self.arena.next())
        }
    }

    /// Hands out a fresh, unset wire.
    pub open spec fn alloc_var(self) -> (Frame, Ptr) {
        self.allocate(Counter::AllocVars, Term::Var(Var::holding(None)))
    }

    /// Hands out a fresh slot for the agent.
    pub open spec fn alloc_cell(self, cell: Cell) -> (Frame, Ptr) {
        self.allocate(Counter::AllocCells, Term::Cell(cell))
    }

    /// Overwrites the slot of a consumed agent with a new agent.
    pub open spec fn reuse_cell(self, ptr: Ptr, cell: Cell) -> Frame {
        if self.fault.is_some() {
            self
        } else if !self.arena.has(ptr) {
            self.fail(Fault::OutOfBounds)
        } else {
            Frame { arena: self.arena.set(ptr, Term::Cell(cell)), ..self }
        }
    }

    /// Writes `value` into the wire at `var_ptr` and follows the links that
    /// the writes uncover. A wire that was unset, or linked to the wire the
    /// walk came from, ends the walk: the value rests there and the walk
    /// returns that wire. A wire that was linked elsewhere is emptied and
    /// the walk goes on at the wire it was linked to; if that is the wire
    /// itself, the walk ends there. A wire that was bound is retired and the
    /// walk returns what it was bound to.
    pub open spec fn walk(self, var_ptr: Ptr, previous: Option<Ptr>, value: VarValue) -> (
        Frame,
        VarValue,
    )
        decreases self.arena.live,
    {
        let (swapped, prior) = self.swap(var_ptr, value);
        if swapped.fault.is_some() {
            (swapped, VarValue::Var(var_ptr))
        } else {
            match prior {
                None => (swapped, VarValue::Var(var_ptr)),
                Some(VarValue::Var(other)) => if Some(other) == previous {
                    (swapped, VarValue::Var(var_ptr))
                } else if swapped.arena.live == 0 {
                    (swapped.fail(Fault::EmptySlot), VarValue::Var(var_ptr))
                } else {
                    let released = swapped.release(var_ptr);
                    if other == var_ptr {
                        (released, VarValue::Var(var_ptr))
                    } else {
                        released.walk(other, Some(var_ptr), value)
                    }
                },
                Some(bound) => (swapped.retire(var_ptr), bound),
            }
        }
    }

    /// Binds the wire at `var_ptr` to `value`, an eraser or an agent. If the
    /// walk finds a wire that was bound already, the two values meet in a
    /// new equation.
    pub open spec fn bind(self, var_ptr: Ptr, previous: Option<Ptr>, value: VarValue) -> (
        Frame,
        Option<Equation>,
    ) {
        let (walked, found) = self.count(Counter::Binds).walk(var_ptr, previous, value);
        if walked.fault.is_some() {
            (walked, None)
        } else {
            match found {
                VarValue::Var(_) => (walked, None),
                _ => (walked, Some((term_of(value), term_of(found)))),
            }
        }
    }

    /// Connects the wires at `left` and `right`. The right wire is linked
    /// to the left one and the left one to where the right walk ended. If
    /// either walk meets a bound wire the connection becomes a binding of
    /// the other side. If the left walk ends on another wire than `left`,
    /// the far right wire is linked to it, so that the two far ends name
    /// each other.
    pub open spec fn connect(self, left: Ptr, right: Ptr) -> (Frame, Option<Equation>) {
        let (right_walked, right_found) = self.count(Counter::Connects).walk(
            right,
            None,
            VarValue::Var(left),
        );
        if right_walked.fault.is_some() {
            (right_walked, None)
        } else {
            match right_found {
                VarValue::Var(right_end) => if !right_walked.arena.holds(right_end) {
                    (right_walked, None)
                } else {
                    let (left_walked, left_found) = right_walked.walk(
                        left,
                        None,
                        VarValue::Var(right_end),
                    );
                    if left_walked.fault.is_some() {
                        (left_walked, None)
                    } else {
                        match left_found {
                            VarValue::Var(left_end) => if left_end != left
                                && left_walked.arena.holds(left_end) {
                                (left_walked.swap(right_end, VarValue::Var(left_end)).0, None)
                            } else {
                                (left_walked, None)
                            },
                            _ => left_walked.bind(right_end, Some(left), left_found),
                        }
                    }
                },
                _ => right_walked.bind(left, None, right_found),
            }
        }
    }

    /// Rewrites an eraser against the agent in `cell_ptr`: the agent is
    /// retired and the eraser goes to both its ports, to the first in a new
    /// task.
    pub open spec fn erase(self, cell_ptr: Ptr, cell: Cell) -> (Frame, Option<Equation>) {
        let retired = self.count(erase_rule(cell)).retire(cell_ptr);
        match cell.spec_ports() {
            Some((port_0, port_1)) => (
                retired.spawn(TermPtr::Era, port_0, 2),
                Some((TermPtr::Era, port_1)),
            ),
            None => (retired, None),
        }
    }

    /// Rewrites two agents of one kind: both are retired and their ports
    /// are joined pairwise, the first pair in a new task.
    pub open spec fn annihilate(
        self,
        counter: Counter,
        left_ptr: Ptr,
        left_ports: Option<(TermPtr, TermPtr)>,
        right_ptr: Ptr,
        right_ports: Option<(TermPtr, TermPtr)>,
    ) -> (Frame, Option<Equation>) {
        let retired = self.count(counter).retire(left_ptr).retire(right_ptr);
        match (left_ports, right_ports) {
            (None, None) => (retired, None),
            (Some((port_0, port_1)), None) => (retired, Some((port_0, port_1))),
            (None, Some((port_0, port_1))) => (retired, Some((port_0, port_1))),
            (Some((left_0, left_1)), Some((right_0, right_1))) => (
                retired.spawn(left_0, right_0, 2),
                Some((left_1, right_1)),
            ),
        }
    }

    /// Rewrites two agents that differ in kind or label: each is copied,
    /// the copies are joined by four fresh wires, and each copy meets a
    /// port of the other agent. The slots of the two agents are reused for
    /// the first copy of each.
    ///
    /// With the wires `x1` to `x4`, the copies of the left agent have the
    /// ports `(x1, x3)` and `(x4, x2)`, and those of the right agent
    /// `(x1, x4)` and `(x3, x2)`: the first copy of either agent is joined
    /// to the first ports of the copies of the other, the second copy to
    /// their second ports. An agent without ports has its two ports joined
    /// to each other: the copies of the other agent then meet each other.
    pub open spec fn commute(self, left_ptr: Ptr, left: Cell, right_ptr: Ptr, right: Cell) -> (
        Frame,
        Option<Equation>,
    ) {
        if left.spec_ports().is_none() && right.spec_ports().is_none() {
            (self.retire(left_ptr).retire(right_ptr), None)
        } else {
            let (f1, x1) = self.alloc_var();
            let (f2, x2) = f1.alloc_var();
            let (f3, x3) = f2.alloc_var();
            let (f4, x4) = f3.alloc_var();
            let (x1, x2, x3, x4) = (
                TermPtr::Ptr(x1),
                TermPtr::Ptr(x2),
                TermPtr::Ptr(x3),
                TermPtr::Ptr(x4),
            );
            let f5 = f4.reuse_cell(left_ptr, left.spec_with_ports(x1, x3));
            let (f6, left_1) = f5.alloc_cell(left.spec_with_ports(x4, x2));
            let f7 = f6.reuse_cell(right_ptr, right.spec_with_ports(x1, x4));
            let (f8, right_1) = f7.alloc_cell(right.spec_with_ports(x3, x2));
            let (left_0, left_1, right_0, right_1) = (
                TermPtr::Ptr(left_ptr),
                TermPtr::Ptr(left_1),
                TermPtr::Ptr(right_ptr),
                TermPtr::Ptr(right_1),
            );
            match (left.spec_ports(), right.spec_ports()) {
                (Some((left_p0, left_p1)), Some((right_p0, right_p1))) => (
                    f8.spawn(right_0, left_p0, 4).spawn(right_1, left_p1, 3).spawn(
                        left_0,
                        right_p0,
                        2,
                    ),
                    Some((left_1, right_p1)),
                ),
                (None, Some((right_p0, right_p1))) => (
                    f8.spawn(left_0, right_p0, 3).spawn(left_1, right_p1, 2),
                    Some((right_0, right_1)),
                ),
                (Some((left_p0, left_p1)), None) => (
                    f8.spawn(right_0, left_p0, 3).spawn(right_1, left_p1, 2),
                    Some((left_0, left_1)),
                ),
                (None, None) => (f8, None),
            }
        }
    }

    /// Rewrites the two agents by the rule for their kinds. In a
    /// commutation the agent that comes first among the kinds stands on
    /// the left.
    pub open spec fn interact(self, left_ptr: Ptr, left: Cell, right_ptr: Ptr, right: Cell) -> (
        Frame,
        Option<Equation>,
    ) {
        let counter = rule(left, right);
        if annihilates(left, right) {
            self.annihilate(counter, left_ptr, left.spec_ports(), right_ptr, right.spec_ports())
        } else if order(left) <= order(right) {
            self.count(counter).commute(left_ptr, left, right_ptr, right)
        } else {
            self.count(counter).commute(right_ptr, right, left_ptr, left)
        }
    }

    /// Evaluates one equation: what it does to the frame, and the equation
    /// that the task goes on with, if there is one.
    #[verifier::opaque]
    pub open spec fn step(self, left: TermPtr, right: TermPtr) -> (Frame, Option<Equation>) {
        if self.fault.is_some() {
            (self, None)
        } else {
            match (resolve(self.arena, left), resolve(self.arena, right)) {
                (End::Broken(left_fault), End::Broken(right_fault)) => (
                    self.fail(worse(left_fault, right_fault)),
                    None,
                ),
                (End::Broken(fault), _) => (self.fail(fault), None),
                (_, End::Broken(fault)) => (self.fail(fault), None),
                (End::Era, End::Era) => (self.count(Counter::AnniEraEra), None),
                (End::Era, End::Cell(ptr, cell)) => self.erase(ptr, cell),
                (End::Cell(ptr, cell), End::Era) => self.erase(ptr, cell),
                (End::Era, End::Var(var)) => self.bind(var, None, VarValue::Era),
                (End::Var(var), End::Era) => self.bind(var, None, VarValue::Era),
                (End::Cell(ptr, _), End::Var(var)) => self.bind(var, None, VarValue::Cell(ptr)),
                (End::Var(var), End::Cell(ptr, _)) => self.bind(var, None, VarValue::Cell(ptr)),
                (End::Var(left_var), End::Var(right_var)) => self.connect(left_var, right_var),
                (End::Cell(left_ptr, left_cell), End::Cell(right_ptr, right_cell)) => self.interact(
                    left_ptr,
                    left_cell,
                    right_ptr,
                    right_cell,
                ),
            }
        }
    }

    /// Empties the slots in the buffer of released slots, last first.
    pub open spec fn flush(self) -> Frame {
        if self.fault.is_some() {
            self
        } else {
            let (arena, free, fault) = flush(self.arena, self.free);
            Frame { arena, free, fault, ..self }
        }
    }

    /// Runs a task from the given equation: step after step while there is
    /// an equation to go on with and steps are left. Returns the frame and
    /// the steps that are left.
    pub open spec fn run(self, equation: Option<Equation>, steps: nat) -> (Frame, nat)
        decreases steps,
    {
        match equation {
            None => (self, steps),
            Some((left, right)) => if self.fault.is_some() {
                (self, steps)
            } else if steps == 0 {
                (self.fail(Fault::StepLimit), steps)
            } else {
                let (stepped, next) = self.step(left, right);
                stepped.run(next, (steps - 1) as nat)
            },
        }
    }
}

/// A whole evaluation as a value: the arena, the tasks that wait, the
/// counters of the tasks that are done, and the fault if there was one.
pub struct Machine {
    pub arena: Arena,
    pub scope: Seq<Job>,
    pub tally: Tally,
    pub fault: Option<Fault>,
}

impl Machine {
    /// The machine that starts on the given equations: each is a task with
    /// an empty buffer, and the first equation is taken up first.
    pub open spec fn load(arena: Arena, body: Seq<Equation>, tally: Tally) -> Machine {
        Machine {
            arena,
            scope: Seq::new(
                body.len(),
                |i: int|
                    Job {
                        left: body[body.len() - 1 - i].0,
                        right: body[body.len() - 1 - i].1,
                        free: Seq::empty(),
                    },
            ),
            tally,
            fault: None,
        }
    }

    /// Runs the task that was queued last to its end: its steps, the
    /// release of the slots in its buffer, and the merge of its counters.
    /// Returns the machine and the steps that are left.
    #[verifier::opaque]
    pub open spec fn task(self, steps: nat) -> (Machine, nat)
        recommends
            self.scope.len() > 0,
    {
        let job = self.scope.last();
        let frame = Frame {
            arena: self.arena,
            free: job.free,
            tally: Tally::zero(),
            scope: self.scope.drop_last(),
            fault: None,
        };
        let (ran, left) = frame.run(Some((job.left, job.right)), steps);
        let flushed = ran.flush();
        let fault = if flushed.fault.is_some() {
            flushed.fault
        } else if !self.tally.fits(flushed.tally) {
            Some(Fault::CounterOverflow)
        } else {
            None
        };
        (
            Machine {
                arena: flushed.arena,
                scope: flushed.scope,
                tally: if fault.is_some() {
                    self.tally
                } else {
                    self.tally.plus(flushed.tally)
                },
                fault,
            },
            left,
        )
    }

    /// Runs tasks, the one queued last first, until none waits, a fault
    /// occurs, or the steps are used up.
    pub open spec fn run(self, steps: nat) -> Machine
        decreases steps,
    {
        if self.fault.is_some() || self.scope.len() == 0 {
            self
        } else if steps == 0 {
            Machine { fault: Some(Fault::StepLimit), ..self }
        } else {
            let (next, left) = self.task(steps);
            if left < steps {
                next.run(left)
            } else {
                next
            }
        }
    }
}

/// A walk from a frame that has stopped changes nothing.
pub proof fn lemma_walk_stopped(frame: Frame, var_ptr: Ptr, previous: Option<Ptr>, value: VarValue)
    requires
        frame.fault.is_some(),
    ensures
        frame.walk(var_ptr, previous, value).0 == frame,
{
}

/// A task that has stopped with a fault stays as it is.
pub proof fn lemma_run_stopped(frame: Frame, equation: Option<Equation>, steps: nat)
    requires
        frame.fault.is_some(),
    ensures
        frame.run(equation, steps) == (frame, steps),
{
}

/// A task that has an equation to evaluate and steps left evaluates it and
/// goes on from there with one step less.
pub proof fn lemma_run_step(frame: Frame, left: TermPtr, right: TermPtr, steps: nat)
    requires
        frame.fault.is_none(),
        steps > 0,
    ensures
        frame.run(Some((left, right)), steps) == frame.step(left, right).0.run(
            frame.step(left, right).1,
            (steps - 1) as nat,
        ),
{
}

/// A task that has an equation to evaluate and steps left takes at least
/// one step; no task gains steps.
pub proof fn lemma_run_takes_steps(frame: Frame, equation: Option<Equation>, steps: nat)
    ensures
        frame.run(equation, steps).1 <= steps,
        equation.is_some() && frame.fault.is_none() && steps > 0 ==> frame.run(equation, steps).1
            < steps,
    decreases steps,
{
    if equation.is_some() && frame.fault.is_none() && steps > 0 {
        let (stepped, next) = frame.step(equation.unwrap().0, equation.unwrap().1);
        lemma_run_takes_steps(stepped, next, (steps - 1) as nat);
    }
}

/// A machine that has stopped with a fault, or has no task that waits,
/// stays as it is.
pub proof fn lemma_machine_stopped(machine: Machine, steps: nat)
    requires
        machine.fault.is_some() || machine.scope.len() == 0,
    ensures
        machine.run(steps) == machine,
{
}

/// A machine with a task that waits and steps left runs that task and goes
/// on from there with the steps that are left.
pub proof fn lemma_machine_task(machine: Machine, steps: nat)
    requires
        machine.fault.is_none(),
        machine.scope.len() > 0,
        steps > 0,
    ensures
        machine.run(steps) == machine.task(steps).0.run(machine.task(steps).1),
        machine.task(steps).1 < steps,
{
    lemma_task_takes_steps(machine, steps);
}

/// A machine with a task that waits and steps left takes at least one step
/// when it runs the task.
pub proof fn lemma_task_takes_steps(machine: Machine, steps: nat)
    requires
        machine.scope.len() > 0,
        steps > 0,
    ensures
        machine.task(steps).1 < steps,
{
    reveal(Machine::task);
    let job = machine.scope.last();
    lemma_run_takes_steps(
        Frame {
            arena: machine.arena,
            free: job.free,
            tally: Tally::zero(),
            scope: machine.scope.drop_last(),
            fault: None,
        },
        Some((job.left, job.right)),
        steps,
    );
}

/// An evaluation is a function of the net it starts from: two runs from
/// the same arena, the same equations and the same counters, with the same
/// number of steps, end in the same arena, with the same counters and the
/// same fault or none. The tasks of a run are taken in one fixed order;
/// nothing is claimed here of other orders.
pub proof fn lemma_eval_deterministic(
    arena: Arena,
    body: Seq<Equation>,
    tally: Tally,
    steps: nat,
    other_arena: Arena,
    other_body: Seq<Equation>,
    other_tally: Tally,
)
    requires
        arena == other_arena,
        body =~= other_body,
        tally == other_tally,
    ensures
        Machine::load(arena, body, tally).run(steps) == Machine::load(
            other_arena,
            other_body,
            other_tally,
        ).run(steps),
{
}

} // verus!
