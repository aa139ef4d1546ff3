//! The counters of the rules count the rewrites: each equation that a rule
//! rewrites is counted once, as an annihilation or as a commutation.

use vstd::prelude::*;

use super::machine::Class;
use super::machine::End;
use super::machine::Equation;
use super::machine::Frame;
use super::machine::Machine;
use super::machine::annihilates;
use super::machine::classify;
use super::machine::erase_rule;
use super::machine::lemma_machine_stopped;
use super::machine::lemma_run_stopped;
use super::machine::lemma_task_takes_steps;
use super::machine::order;
use super::machine::resolve;
use super::machine::rule;
use super::stats::Counter;
use super::stats::Tally;
use super::stats::lemma_bump_counts_once;
use super::stats::lemma_bump_get;
use super::stats::lemma_plus_interactions;
use super::stats::lemma_rewrites_partition;
use super::store::Ptr;
use super::term::Cell;
use super::term::Term;
use super::term::TermPtr;
use super::var::Var;
use super::var::VarValue;

verus! {

/// Counting an event adds a rewrite if the event is one of a rule and was
/// counted; it leaves everything but the counters and the fault as it is.
pub proof fn lemma_count_rewrites(frame: Frame, counter: Counter)
    ensures
        frame.count(counter).tally.interactions() == frame.tally.interactions() + if counter.is_rule()
            && frame.fault.is_none() && frame.count(counter).fault.is_none() {
            1nat
        } else {
            0nat
        },
{
    lemma_bump_counts_once(frame.tally, counter);
}

/// An allocation adds no rewrite.
pub proof fn lemma_allocate_rewrites(frame: Frame, counter: Counter, term: Term)
    requires
        !counter.is_rule(),
    ensures
        frame.allocate(counter, term).0.tally.interactions() == frame.tally.interactions(),
{
    lemma_count_rewrites(frame, counter);
}

/// A walk changes neither the counters nor the queue.
pub proof fn lemma_walk_keeps_tally(
    frame: Frame,
    var_ptr: Ptr,
    previous: Option<Ptr>,
    value: VarValue,
)
    ensures
        frame.walk(var_ptr, previous, value).0.tally == frame.tally,
        frame.walk(var_ptr, previous, value).0.scope == frame.scope,
    decreases frame.arena.live,
{
    let (swapped, prior) = frame.swap(var_ptr, value);
    if swapped.fault.is_none() {
        match prior {
            Some(VarValue::Var(other)) => {
                if Some(other) != previous && swapped.arena.live != 0 && other != var_ptr {
                    lemma_walk_keeps_tally(swapped.release(var_ptr), other, Some(var_ptr), value);
                }
            },
            _ => {},
        }
    }
}

/// A binding adds no rewrite.
pub proof fn lemma_bind_rewrites(frame: Frame, var_ptr: Ptr, previous: Option<Ptr>, value: VarValue)
    ensures
        frame.bind(var_ptr, previous, value).0.tally.interactions() == frame.tally.interactions(),
{
    lemma_count_rewrites(frame, Counter::Binds);
    lemma_walk_keeps_tally(frame.count(Counter::Binds), var_ptr, previous, value);
}

/// A connection adds no rewrite.
pub proof fn lemma_connect_rewrites(frame: Frame, left: Ptr, right: Ptr)
    ensures
        frame.connect(left, right).0.tally.interactions() == frame.tally.interactions(),
{
    let counted = frame.count(Counter::Connects);
    lemma_count_rewrites(frame, Counter::Connects);
    lemma_walk_keeps_tally(counted, right, None, VarValue::Var(left));
    let (right_walked, right_found) = counted.walk(right, None, VarValue::Var(left));
    if right_walked.fault.is_none() {
        match right_found {
            VarValue::Var(right_end) => {
                if right_walked.arena.holds(right_end) {
                    lemma_walk_keeps_tally(right_walked, left, None, VarValue::Var(right_end));
                    let (left_walked, left_found) = right_walked.walk(
                        left,
                        None,
                        VarValue::Var(right_end),
                    );
                    if left_walked.fault.is_none() {
                        match left_found {
                            VarValue::Var(_) => {},
                            _ => {
                                lemma_bind_rewrites(left_walked, right_end, Some(left), left_found);
                            },
                        }
                    }
                }
            },
            _ => {
                lemma_bind_rewrites(right_walked, left, None, right_found);
            },
        }
    }
}

/// A commutation, once its rule is counted, adds no rewrite.
pub proof fn lemma_commute_rewrites(
    frame: Frame,
    left_ptr: Ptr,
    left: Cell,
    right_ptr: Ptr,
    right: Cell,
)
    ensures
        frame.commute(left_ptr, left, right_ptr, right).0.tally.interactions()
            == frame.tally.interactions(),
{
    if !(left.spec_ports().is_none() && right.spec_ports().is_none()) {
        let wire = Term::Var(Var::holding(None));
        let (f1, x1) = frame.alloc_var();
        let (f2, x2) = f1.alloc_var();
        let (f3, x3) = f2.alloc_var();
        let (f4, x4) = f3.alloc_var();
        let (x1, x2, x3, x4) = (TermPtr::Ptr(x1), TermPtr::Ptr(x2), TermPtr::Ptr(x3), TermPtr::Ptr(x4));
        let f5 = f4.reuse_cell(left_ptr, left.spec_with_ports(x1, x3));
        let (f6, left_1) = f5.alloc_cell(left.spec_with_ports(x4, x2));
        let f7 = f6.reuse_cell(right_ptr, right.spec_with_ports(x1, x4));
        let (f8, right_1) = f7.alloc_cell(right.spec_with_ports(x3, x2));
        lemma_allocate_rewrites(frame, Counter::AllocVars, wire);
        lemma_allocate_rewrites(f1, Counter::AllocVars, wire);
        lemma_allocate_rewrites(f2, Counter::AllocVars, wire);
        lemma_allocate_rewrites(f3, Counter::AllocVars, wire);
        lemma_allocate_rewrites(f5, Counter::AllocCells, Term::Cell(left.spec_with_ports(x4, x2)));
        lemma_allocate_rewrites(f7, Counter::AllocCells, Term::Cell(right.spec_with_ports(x3, x2)));
        assert(f8.tally.interactions() == frame.tally.interactions());
    }
}

/// The equation is one that a rule rewrites: eraser against eraser, eraser
/// against agent, or agent against agent.
pub open spec fn is_rewrite(class: Class) -> bool {
    class is Void || class is Erase || class is Interact
}

/// A step that ends without a fault adds one rewrite if its equation is one
/// that a rule rewrites, and none if it binds or connects. A step that ends
/// with a fault adds at most one.
pub proof fn lemma_step_rewrites(frame: Frame, left: TermPtr, right: TermPtr)
    requires
        frame.fault.is_none(),
    ensures
        frame.step(left, right).0.fault.is_none() ==> frame.step(
            left,
            right,
        ).0.tally.interactions() == frame.tally.interactions() + if is_rewrite(
            classify(frame.arena, left, right),
        ) {
            1nat
        } else {
            0nat
        },
        frame.tally.interactions() <= frame.step(left, right).0.tally.interactions()
            <= frame.tally.interactions() + 1,
{
    reveal(Frame::step);
    match (resolve(frame.arena, left), resolve(frame.arena, right)) {
        (End::Broken(_), _) => {},
        (_, End::Broken(_)) => {},
        (End::Era, End::Era) => {
            lemma_count_rewrites(frame, Counter::AnniEraEra);
        },
        (End::Era, End::Cell(_, cell)) => {
            lemma_count_rewrites(frame, erase_rule(cell));
        },
        (End::Cell(_, cell), End::Era) => {
            lemma_count_rewrites(frame, erase_rule(cell));
        },
        (End::Era, End::Var(var)) => {
            lemma_bind_rewrites(frame, var, None, VarValue::Era);
        },
        (End::Var(var), End::Era) => {
            lemma_bind_rewrites(frame, var, None, VarValue::Era);
        },
        (End::Cell(ptr, _), End::Var(var)) => {
            lemma_bind_rewrites(frame, var, None, VarValue::Cell(ptr));
        },
        (End::Var(var), End::Cell(ptr, _)) => {
            lemma_bind_rewrites(frame, var, None, VarValue::Cell(ptr));
        },
        (End::Var(left_var), End::Var(right_var)) => {
            lemma_connect_rewrites(frame, left_var, right_var);
        },
        (End::Cell(left_ptr, left_cell), End::Cell(right_ptr, right_cell)) => {
            let counter = rule(left_cell, right_cell);
            lemma_count_rewrites(frame, counter);
            if !annihilates(left_cell, right_cell) {
                if order(left_cell) <= order(right_cell) {
                    lemma_commute_rewrites(
                        frame.count(counter),
                        left_ptr,
                        left_cell,
                        right_ptr,
                        right_cell,
                    );
                } else {
                    lemma_commute_rewrites(
                        frame.count(counter),
                        right_ptr,
                        right_cell,
                        left_ptr,
                        left_cell,
                    );
                }
            }
        },
    }
}

impl Frame {
    /// How many of the equations that a task evaluates are rewritten by a
    /// rule.
    pub open spec fn rewrites(self, equation: Option<Equation>, steps: nat) -> nat
        decreases steps,
    {
        match equation {
            None => 0,
            Some((left, right)) => if self.fault.is_some() || steps == 0 {
                0
            } else {
                let (stepped, next) = self.step(left, right);
                stepped.rewrites(next, (steps - 1) as nat) + if is_rewrite(
                    classify(self.arena, left, right),
                ) {
                    1nat
                } else {
                    0nat
                }
            },
        }
    }
}

impl Machine {
    /// How many of the equations that a run evaluates are rewritten by a
    /// rule.
    pub open spec fn rewrites(self, steps: nat) -> nat
        decreases steps,
    {
        if self.fault.is_some() || self.scope.len() == 0 || steps == 0 {
            0
        } else {
            let job = self.scope.last();
            let frame = Frame {
                arena: self.arena,
                free: job.free,
                tally: Tally::zero(),
                scope: self.scope.drop_last(),
                fault: None,
            };
            let (next, left) = self.task(steps);
            frame.rewrites(Some((job.left, job.right)), steps) + if left < steps {
                next.rewrites(left)
            } else {
                0
            }
        }
    }
}

/// Statistics completeness of a task: when its steps end without a fault,
/// the counters of the rules have gone up by the number of equations that a
/// rule rewrote.
pub proof fn lemma_run_rewrites(frame: Frame, equation: Option<Equation>, steps: nat)
    requires
        frame.fault.is_none(),
    ensures
        frame.run(equation, steps).0.fault.is_none() ==> frame.run(
            equation,
            steps,
        ).0.tally.interactions() == frame.tally.interactions() + frame.rewrites(equation, steps),
    decreases steps,
{
    match equation {
        None => {},
        Some((left, right)) => {
            if steps > 0 {
                let (stepped, next) = frame.step(left, right);
                lemma_step_rewrites(frame, left, right);
                if stepped.fault.is_none() {
                    lemma_run_rewrites(stepped, next, (steps - 1) as nat);
                } else {
                    lemma_run_stopped(stepped, next, (steps - 1) as nat);
                }
            }
        },
    }
}

/// Statistics completeness of an evaluation: when a run ends without a
/// fault, annihilations and commutations together have gone up by the
/// number of equations that a rule rewrote.
pub proof fn lemma_machine_rewrites(machine: Machine, steps: nat)
    ensures
        machine.run(steps).fault.is_none() ==> machine.run(steps).tally.annihilations()
            + machine.run(steps).tally.commutations() == machine.tally.annihilations()
            + machine.tally.commutations() + machine.rewrites(steps),
    decreases steps,
{
    if machine.fault.is_none() && machine.scope.len() > 0 && steps > 0 {
        reveal(Machine::task);
        let job = machine.scope.last();
        let frame = Frame {
            arena: machine.arena,
            free: job.free,
            tally: Tally::zero(),
            scope: machine.scope.drop_last(),
            fault: None,
        };
        let (next, left) = machine.task(steps);
        lemma_task_takes_steps(machine, steps);
        lemma_run_rewrites(frame, Some((job.left, job.right)), steps);
        let ran = frame.run(Some((job.left, job.right)), steps).0;
        if next.fault.is_none() {
            lemma_plus_interactions(machine.tally, ran.flush().tally);
            lemma_rewrites_partition(ran.tally);
            lemma_rewrites_partition(Tally::zero());
            lemma_machine_rewrites(next, left);
        } else {
            lemma_machine_stopped(next, left);
        }
    }
}

/// An allocation leaves every counter but its own as it is.
pub proof fn lemma_allocate_counts(frame: Frame, counter: Counter, term: Term, other: Counter)
    requires
        other != counter,
    ensures
        frame.allocate(counter, term).0.tally.get(other) == frame.tally.get(other),
{
    lemma_bump_get(frame.tally, counter, other);
}

/// A commutation, once its rule is counted, leaves every counter but those
/// of the slots it hands out as it is.
pub proof fn lemma_commute_counts(
    frame: Frame,
    left_ptr: Ptr,
    left: Cell,
    right_ptr: Ptr,
    right: Cell,
    other: Counter,
)
    requires
        other != Counter::AllocVars,
        other != Counter::AllocCells,
    ensures
        frame.commute(left_ptr, left, right_ptr, right).0.tally.get(other) == frame.tally.get(
            other,
        ),
{
    if !(left.spec_ports().is_none() && right.spec_ports().is_none()) {
        let wire = Term::Var(Var::holding(None));
        let (f1, x1) = frame.alloc_var();
        let (f2, x2) = f1.alloc_var();
        let (f3, x3) = f2.alloc_var();
        let (f4, x4) = f3.alloc_var();
        let (x1, x2, x3, x4) = (TermPtr::Ptr(x1), TermPtr::Ptr(x2), TermPtr::Ptr(x3), TermPtr::Ptr(x4));
        let f5 = f4.reuse_cell(left_ptr, left.spec_with_ports(x1, x3));
        let (f6, left_1) = f5.alloc_cell(left.spec_with_ports(x4, x2));
        let f7 = f6.reuse_cell(right_ptr, right.spec_with_ports(x1, x4));
        let (f8, right_1) = f7.alloc_cell(right.spec_with_ports(x3, x2));
        lemma_allocate_counts(frame, Counter::AllocVars, wire, other);
        lemma_allocate_counts(f1, Counter::AllocVars, wire, other);
        lemma_allocate_counts(f2, Counter::AllocVars, wire, other);
        lemma_allocate_counts(f3, Counter::AllocVars, wire, other);
        lemma_allocate_counts(
            f5,
            Counter::AllocCells,
            Term::Cell(left.spec_with_ports(x4, x2)),
            other,
        );
        lemma_allocate_counts(
            f7,
            Counter::AllocCells,
            Term::Cell(right.spec_with_ports(x3, x2)),
            other,
        );
        assert(f8.tally.get(other) == frame.tally.get(other));
    }
}

/// Two agents that meet are counted once, by the rule for their two kinds
/// whichever stands on the left: lambda against lambda, application against
/// application, two duplicators of one label or of two, application against
/// lambda, application against duplicator, lambda against duplicator. Where
/// the counter of that rule is not at its maximum it grows by one, and no
/// counter of another rule, of bindings or of connections changes, whether
/// the rewrite ends with a fault or not.
pub proof fn lemma_interact_counts(
    frame: Frame,
    left_ptr: Ptr,
    left: Cell,
    right_ptr: Ptr,
    right: Cell,
    other: Counter,
)
    requires
        frame.fault.is_none(),
        frame.tally.get(rule(left, right)) < usize::MAX,
    ensures
        rule(left, right).is_rule(),
        rule(left, right) == rule(right, left),
        frame.interact(left_ptr, left, right_ptr, right).0.tally.get(rule(left, right))
            == frame.tally.get(rule(left, right)) + 1,
        other != rule(left, right) && other != Counter::AllocVars && other != Counter::AllocCells
            ==> frame.interact(left_ptr, left, right_ptr, right).0.tally.get(other)
            == frame.tally.get(other),
        annihilates(left, right) ==> frame.interact(left_ptr, left, right_ptr, right).0.tally
            == frame.tally.bump(rule(left, right)),
{
    let counter = rule(left, right);
    let counted = frame.count(counter);
    lemma_bump_get(frame.tally, counter, counter);
    lemma_bump_get(frame.tally, counter, other);
    if !annihilates(left, right) {
        if order(left) <= order(right) {
            lemma_commute_counts(counted, left_ptr, left, right_ptr, right, counter);
            if other != Counter::AllocVars && other != Counter::AllocCells {
                lemma_commute_counts(counted, left_ptr, left, right_ptr, right, other);
            }
        } else {
            lemma_commute_counts(counted, right_ptr, right, left_ptr, left, counter);
            if other != Counter::AllocVars && other != Counter::AllocCells {
                lemma_commute_counts(counted, right_ptr, right, left_ptr, left, other);
            }
        }
    }
}

/// An eraser that meets an agent is counted once, by the rule for the kind
/// of the agent: where the counter of that rule is not at its maximum it
/// grows by one and no other counter changes.
pub proof fn lemma_erase_counts(frame: Frame, cell_ptr: Ptr, cell: Cell)
    requires
        frame.fault.is_none(),
        frame.tally.get(erase_rule(cell)) < usize::MAX,
    ensures
        erase_rule(cell).is_rule(),
        frame.erase(cell_ptr, cell).0.tally == frame.tally.bump(erase_rule(cell)),
{
}

} // verus!
