//! The evaluator: it drains the equations of a net, rewrites active pairs
//! by the rules of the calculus, and resolves bindings and connections
//! against the wires.
//!
//! Tasks are scheduled one after another from an explicit queue. Each
//! function of the evaluator does to the store, to the task's buffer and
//! counters and to the queue what its counterpart in the model does to a
//! frame.

use vstd::prelude::*;

use crate::fault::fault_of;
use crate::fault::Fault;
use super::linear::lemma_machine_linear;
use super::linear::linear_machine;
use super::linear::ran_out;
use super::counting::lemma_interact_counts;
use super::machine::classify;
use super::machine::rule;
use super::machine::flush;
use super::machine::Class;
use super::machine::lemma_run_step;
use super::machine::lemma_run_stopped;
use super::machine::lemma_machine_stopped;
use super::machine::lemma_machine_task;
use super::machine::resolve;
use super::machine::term_of;
use super::machine::unreadable;
use super::machine::End;
use super::machine::Equation;
use super::machine::Frame;
use super::machine::Job;
use super::machine::Machine;
use super::net::Net;
use super::stats::Counter;
use super::stats::GlobalStats;
use super::stats::LocalStats;
use super::stats::Stats;
use super::stats::Tally;
use super::store::FreePtrs;
use super::store::Ptr;
use super::store::Store;
use super::store::FREE_PTRS_SIZE;
use super::term::Cell;
use super::term::Term;
use super::term::TermPtr;
use super::var::Var;
use super::var::VarValue;

verus! {

/// A task that waits to be run.
pub struct Task {
    pub left: TermPtr,
    pub right: TermPtr,
    pub free_ptrs: FreePtrs,
}

impl View for Task {
    type V = Job;

    open spec fn view(&self) -> Job {
        Job { left: self.left, right: self.right, free: self.free_ptrs@ }
    }
}

/// The queue of tasks. The task that was spawned last is taken first.
pub struct Scope {
    tasks: Vec<Task>,
}

impl View for Scope {
    type V = Seq<Job>;

    closed spec fn view(&self) -> Seq<Job> {
        self.tasks@.map_values(|task: Task| task@)
    }
}

impl Scope {
    pub fn new() -> (scope: Scope)
        ensures
            scope@ == Seq::<Job>::empty(),
    {
        let scope = Scope { tasks: Vec::new() };
        assert(scope@ =~= Seq::<Job>::empty());
        scope
    }

    /// How many tasks wait.
    pub fn len(&self) -> (len: usize)
        ensures
            len == self@.len(),
    {
        self.tasks.len()
    }

    /// Queues a task.
    pub fn spawn(&mut self, task: Task)
        ensures
            final(self)@ == old(self)@.push(task@),
    {
        self.tasks.push(task);
        assert(self@ =~= old(self)@.push(task@));
    }

    /// Takes the task that was queued last, if any waits.
    pub fn take(&mut self) -> (task: Option<Task>)
        ensures
            old(self)@.len() == 0 ==> task.is_none() && final(self)@ == old(self)@,
            old(self)@.len() > 0 ==> task.is_some() && task.unwrap()@ == old(self)@.last()
                && final(self)@ == old(self)@.drop_last(),
    {
        let task = self.tasks.pop();
        assert(old(self)@.len() > 0 ==> self@ =~= old(self)@.drop_last());
        task
    }
}

/// The frame that a running task has in hand.
pub open spec fn frame(
    store: Store,
    free_ptrs: FreePtrs,
    stats: LocalStats,
    scope: Scope,
    fault: Option<Fault>,
) -> Frame {
    Frame { arena: store@, free: free_ptrs@, tally: stats.tally(), scope: scope@, fault }
}

/// What an allocation does to the store and the counters: the event is
/// counted, and if there is room a fresh slot takes the content.
pub open spec fn allocated(
    store: Store,
    stats: LocalStats,
    counter: Counter,
    term: Term,
    store_after: Store,
    stats_after: LocalStats,
    ptr: Result<Ptr, Fault>,
) -> bool {
    if stats.tally().get(counter) >= usize::MAX {
        &&& ptr == Err::<Ptr, Fault>(Fault::CounterOverflow)
        &&& store_after@ == store@
        &&& stats_after.tally() == stats.tally()
    } else if !store@.has_room(1) {
        &&& ptr == Err::<Ptr, Fault>(Fault::ArenaExhausted)
        &&& store_after@ == store@
        &&& stats_after.tally() == stats.tally().bump(counter)
    } else {
        &&& ptr == Ok::<Ptr, Fault>(store@.next())
        &&& store_after@ == store@.allocate(Some(term))
        &&& stats_after.tally() == stats.tally().bump(counter)
    }
}

/// The task is where the model says it is: the store, the buffer, the
/// counters and the queue are those of the expected frame, a fault was
/// returned if and only if the frame holds it, and otherwise the equation
/// returned is the expected one.
pub open spec fn lands(
    store: Store,
    free_ptrs: FreePtrs,
    stats: LocalStats,
    scope: Scope,
    next: Result<Option<Equation>, Fault>,
    expected: (Frame, Option<Equation>),
) -> bool {
    &&& frame(store, free_ptrs, stats, scope, fault_of(next)) == expected.0
    &&& next is Ok ==> next.unwrap() == expected.1
}

pub struct Runtime {
    pub stats: GlobalStats,
}

impl Runtime {
    pub fn new() -> (runtime: Runtime)
        ensures
            runtime.stats.tally() == Tally::zero(),
    {
        Runtime { stats: GlobalStats::new() }
    }

    /// Counts one event, unless its counter is at its maximum.
    pub fn count(&self, stats: &mut LocalStats, counter: Counter) -> (done: Result<(), Fault>)
        ensures
            done is Ok <==> old(stats).tally().get(counter) < usize::MAX,
            done is Ok ==> final(stats).tally() == old(stats).tally().bump(counter),
            done is Err ==> done == Err::<(), Fault>(Fault::CounterOverflow) && final(stats).tally()
                == old(stats).tally(),
    {
        if stats.has_headroom(counter) {
            stats.inc(counter);
            Ok(())
        } else {
            Err(Fault::CounterOverflow)
        }
    }

    /// Reads a slot, if it can be read.
    pub fn look(&self, store: &Store, ptr: Ptr) -> (term: Result<Term, Fault>)
        requires
            store.wf(),
        ensures
            match unreadable(store@, ptr) {
                Some(fault) => term == Err::<Term, Fault>(fault),
                None => term == Ok::<Term, Fault>(store@.at(ptr).unwrap()),
            },
    {
        if ptr.index() >= store.next() {
            Err(Fault::OutOfBounds)
        } else {
            match store.get(ptr) {
                None => Err(Fault::EmptySlot),
                Some(term) => Ok(*term),
            }
        }
    }

    /// What one end of an equation is.
    pub fn resolve(&self, store: &Store, term: TermPtr) -> (end: End)
        requires
            store.wf(),
        ensures
            end == resolve(store@, term),
    {
        match term {
            TermPtr::Era => End::Era,
            TermPtr::Ptr(ptr) => match self.look(store, ptr) {
                Err(fault) => End::Broken(fault),
                Ok(Term::Var(_)) => End::Var(ptr),
                Ok(Term::Cell(cell)) => End::Cell(ptr, cell),
            },
        }
    }

    /// The kind of the equation between two terms: a rewrite between two
    /// agents or erasers, a binding of a wire, or a connection of two wires.
    pub fn classify(&self, store: &Store, left: TermPtr, right: TermPtr) -> (class: Class)
        requires
            store.wf(),
        ensures
            class == classify(store@, left, right),
    {
        match (self.resolve(store, left), self.resolve(store, right)) {
            (End::Broken(Fault::OutOfBounds), End::Broken(_)) => Class::Broken(Fault::OutOfBounds),
            (End::Broken(_), End::Broken(Fault::OutOfBounds)) => Class::Broken(Fault::OutOfBounds),
            (End::Broken(fault), _) => Class::Broken(fault),
            (_, End::Broken(fault)) => Class::Broken(fault),
            (End::Era, End::Era) => Class::Void,
            (End::Era, End::Cell(_, _)) => Class::Erase,
            (End::Cell(_, _), End::Era) => Class::Erase,
            (End::Era, End::Var(_)) => Class::BindEra,
            (End::Var(_), End::Era) => Class::BindEra,
            (End::Cell(_, _), End::Cell(_, _)) => Class::Interact,
            (End::Cell(_, _), End::Var(_)) => Class::BindCell,
            (End::Var(_), End::Cell(_, _)) => Class::BindCell,
            (End::Var(_), End::Var(_)) => Class::Connect,
        }
    }

    /// The agent in a slot.
    pub fn get_cell(&self, store: &Store, cell_ptr: Ptr) -> (cell: Result<Cell, Fault>)
        requires
            store.wf(),
        ensures
            match resolve(store@, TermPtr::Ptr(cell_ptr)) {
                End::Cell(_, found) => cell == Ok::<Cell, Fault>(found),
                End::Broken(fault) => cell == Err::<Cell, Fault>(fault),
                _ => cell == Err::<Cell, Fault>(Fault::KindMismatch),
            },
    {
        match self.look(store, cell_ptr) {
            Err(fault) => Err(fault),
            Ok(Term::Var(_)) => Err(Fault::KindMismatch),
            Ok(Term::Cell(cell)) => Ok(cell),
        }
    }

    /// The wire in a slot.
    pub fn get_var(&self, store: &Store, var_ptr: Ptr) -> (var: Result<Var, Fault>)
        requires
            store.wf(),
        ensures
            match resolve(store@, TermPtr::Ptr(var_ptr)) {
                End::Var(_) => var == Ok::<Var, Fault>(store@.at(var_ptr).unwrap()->Var_0),
                End::Broken(fault) => var == Err::<Var, Fault>(fault),
                _ => var == Err::<Var, Fault>(Fault::KindMismatch),
            },
    {
        match self.look(store, var_ptr) {
            Err(fault) => Err(fault),
            Ok(Term::Var(var)) => Ok(var),
            Ok(Term::Cell(_)) => Err(Fault::KindMismatch),
        }
    }

    /// Empties a slot.
    pub fn release(&self, store: &mut Store, ptr: Ptr) -> (done: Result<(), Fault>)
        requires
            old(store).wf(),
        ensures
            final(store).wf(),
            match unreadable(old(store)@, ptr) {
                Some(fault) => done == Err::<(), Fault>(fault) && final(store)@ == old(store)@,
                None => done is Ok && final(store)@ == old(store)@.free(ptr),
            },
    {
        match self.look(store, ptr) {
            Err(fault) => Err(fault),
            Ok(_) => {
                store.free(ptr);
                Ok(())
            },
        }
    }

    /// Notes that the content of a slot has been consumed: the slot goes to
    /// the buffer, or is emptied at once if the buffer is full.
    pub fn retire(&self, store: &mut Store, free_ptrs: &mut FreePtrs, ptr: Ptr) -> (done: Result<
        (),
        Fault,
    >)
        requires
            old(store).wf(),
        ensures
            final(store).wf(),
            old(free_ptrs)@.len() < FREE_PTRS_SIZE ==> done is Ok && final(free_ptrs)@ == old(free_ptrs)@.push(ptr) && final(store)@ == old(store)@,
            old(free_ptrs)@.len() >= FREE_PTRS_SIZE ==> final(free_ptrs)@ == old(free_ptrs)@
                && match unreadable(old(store)@, ptr) {
                Some(fault) => done == Err::<(), Fault>(fault) && final(store)@ == old(store)@,
                None => done is Ok && final(store)@ == old(store)@.free(ptr),
            },
    {
        if free_ptrs.is_full() {
            self.release(store, ptr)
        } else {
            free_ptrs.push(ptr);
            Ok(())
        }
    }

    /// Empties the slots in the buffer, last first.
    pub fn free_ptrs(&self, store: &mut Store, free_ptrs: &mut FreePtrs) -> (done: Result<(), Fault>)
        requires
            old(store).wf(),
        ensures
            final(store).wf(),
            (final(store)@, final(free_ptrs)@, fault_of(done)) == flush(
                old(store)@,
                old(free_ptrs)@,
            ),
    {
        loop
            invariant
                store.wf(),
                flush(old(store)@, old(free_ptrs)@) == flush(store@, free_ptrs@),
            decreases free_ptrs@.len(),
        {
            match free_ptrs.pop() {
                None => {
                    return Ok(());
                },
                Some(ptr) => {
                    match self.release(store, ptr) {
                        Ok(()) => {},
                        Err(fault) => {
                            return Err(fault);
                        },
                    }
                },
            }
        }
    }

    /// Hands out a fresh, unset wire.
    pub fn alloc_var(&self, store: &mut Store, stats: &mut LocalStats) -> (ptr: Result<Ptr, Fault>)
        requires
            old(store).wf(),
        ensures
            final(store).wf(),
            allocated(
                *old(store),
                *old(stats),
                Counter::AllocVars,
                Term::Var(Var::holding(None)),
                *final(store),
                *final(stats),
                ptr,
            ),
    {
        self.allocate(store, stats, Counter::AllocVars, Term::Var(Var::new()))
    }

    /// Hands out a fresh slot for the agent.
    pub fn alloc_cell(&self, store: &mut Store, cell: Cell, stats: &mut LocalStats) -> (ptr: Result<
        Ptr,
        Fault,
    >)
        requires
            old(store).wf(),
        ensures
            final(store).wf(),
            allocated(
                *old(store),
                *old(stats),
                Counter::AllocCells,
                Term::Cell(cell),
                *final(store),
                *final(stats),
                ptr,
            ),
    {
        self.allocate(store, stats, Counter::AllocCells, Term::Cell(cell))
    }

    /// Counts the allocation and hands out a fresh slot with the content.
    pub fn allocate(
        &self,
        store: &mut Store,
        stats: &mut LocalStats,
        counter: Counter,
        term: Term,
    ) -> (ptr: Result<Ptr, Fault>)
        requires
            old(store).wf(),
        ensures
            final(store).wf(),
            allocated(*old(store), *old(stats), counter, term, *final(store), *final(stats), ptr),
    {
        match self.count(stats, counter) {
            Err(fault) => Err(fault),
            Ok(()) => {
                if store.has_room(1) {
                    Ok(store.allocate(Some(term)))
                } else {
                    Err(Fault::ArenaExhausted)
                }
            },
        }
    }

    /// Overwrites the slot of a consumed agent with a new agent.
    pub fn reuse_cell(&self, store: &mut Store, ptr: Ptr, cell: Cell) -> (done: Result<(), Fault>)
        requires
            old(store).wf(),
        ensures
            final(store).wf(),
            old(store)@.has(ptr) ==> done is Ok && final(store)@ == old(store)@.set(
                ptr,
                Term::Cell(cell),
            ),
            !old(store)@.has(ptr) ==> done == Err::<(), Fault>(Fault::OutOfBounds) && final(store)@
                == old(store)@,
    {
        if ptr.index() >= store.next() {
            Err(Fault::OutOfBounds)
        } else {
            store.set(ptr, Term::Cell(cell));
            Ok(())
        }
    }

    /// Writes a new state into a wire and returns the state it replaced.
    pub fn swap(&self, store: &mut Store, var_ptr: Ptr, value: VarValue) -> (prior: Result<
        Option<VarValue>,
        Fault,
    >)
        requires
            old(store).wf(),
        ensures
            final(store).wf(),
            match resolve(old(store)@, TermPtr::Ptr(var_ptr)) {
                End::Var(_) => prior == Ok::<Option<VarValue>, Fault>(
                    old(store)@.at(var_ptr).unwrap()->Var_0.value(),
                ) && final(store)@ == old(store)@.set(
                    var_ptr,
                    Term::Var(Var::holding(Some(value))),
                ),
                End::Broken(fault) => prior == Err::<Option<VarValue>, Fault>(fault) && final(store)@ == old(store)@,
                _ => prior == Err::<Option<VarValue>, Fault>(Fault::KindMismatch) && final(store)@
                    == old(store)@,
            },
    {
        match self.get_var(store, var_ptr) {
            Err(fault) => Err(fault),
            Ok(var) => {
                let mut var = var;
                let prior = var.set(value);
                store.set(var_ptr, Term::Var(var));
                Ok(prior)
            },
        }
    }

    /// Writes `value` into the wire at `var_ptr` and follows the links that
    /// the writes uncover, to the wire where the value rests or to the value
    /// that a wire on the way was bound to.
    pub fn walk_var(
        &self,
        scope: &mut Scope,
        store: &mut Store,
        var_ptr: Ptr,
        previous_ptr: Option<Ptr>,
        free_ptrs: &mut FreePtrs,
        stats: &mut LocalStats,
        value: VarValue,
    ) -> (found: Result<VarValue, Fault>)
        requires
            old(store).wf(),
        ensures
            final(store).wf(),
            frame(*final(store), *final(free_ptrs), *final(stats), *final(scope), fault_of(found))
                == frame(*old(store), *old(free_ptrs), *old(stats), *old(scope), None).walk(
                var_ptr,
                previous_ptr,
                value,
            ).0,
            found is Ok ==> found.unwrap() == frame(
                *old(store),
                *old(free_ptrs),
                *old(stats),
                *old(scope),
                None,
            ).walk(var_ptr, previous_ptr, value).1,
    {
        let mut current = var_ptr;
        let mut previous = previous_ptr;
        loop
            invariant
                store.wf(),
                frame(*old(store), *old(free_ptrs), *old(stats), *old(scope), None).walk(
                    var_ptr,
                    previous_ptr,
                    value,
                ) == frame(*store, *free_ptrs, *stats, *scope, None).walk(current, previous, value),
            decreases store@.live,
        {
            let ghost before = frame(*store, *free_ptrs, *stats, *scope, None);
            match self.swap(store, current, value) {
                Err(fault) => {
                    return Err(fault);
                },
                Ok(None) => {
                    return Ok(VarValue::Var(current));
                },
                Ok(Some(VarValue::Var(other))) => {
                    let back = match previous {
                        Some(ptr) => ptr == other,
                        None => false,
                    };
                    if back {
                        return Ok(VarValue::Var(current));
                    }
                    proof {
                        store.lemma_wf();
                        store@.lemma_free_wf(current);
                    }
                    match self.release(store, current) {
                        Err(fault) => {
                            return Err(fault);
                        },
                        Ok(()) => {},
                    }
                    if other == current {
                        return Ok(VarValue::Var(current));
                    }
                    previous = Some(current);
                    current = other;
                },
                Ok(Some(bound)) => {
                    match self.retire(store, free_ptrs, current) {
                        Err(fault) => {
                            return Err(fault);
                        },
                        Ok(()) => {
                            return Ok(bound);
                        },
                    }
                },
            }
        }
    }

    /// The reference to what a wire is bound to.
    pub fn term_of(value: VarValue) -> (term: TermPtr)
        ensures
            term == term_of(value),
    {
        match value {
            VarValue::Era => TermPtr::Era,
            VarValue::Cell(ptr) => TermPtr::Ptr(ptr),
            VarValue::Var(ptr) => TermPtr::Ptr(ptr),
        }
    }

    /// Whether the slot has been handed out and is occupied.
    pub fn holds(&self, store: &Store, ptr: Ptr) -> (holds: bool)
        requires
            store.wf(),
        ensures
            holds == store@.holds(ptr),
    {
        ptr.index() < store.next() && store.get(ptr).is_some()
    }

    /// Binds the wire at `var_ptr` to `value`, an eraser or an agent. If the
    /// walk meets a wire that was bound already, the two values meet in the
    /// equation that is returned.
    pub fn bind(
        &self,
        scope: &mut Scope,
        store: &mut Store,
        var_ptr: Ptr,
        previous_ptr: Option<Ptr>,
        value: VarValue,
        free_ptrs: &mut FreePtrs,
        stats: &mut LocalStats,
    ) -> (next: Result<Option<Equation>, Fault>)
        requires
            old(store).wf(),
        ensures
            final(store).wf(),
            lands(
                *final(store),
                *final(free_ptrs),
                *final(stats),
                *final(scope),
                next,
                frame(*old(store), *old(free_ptrs), *old(stats), *old(scope), None).bind(var_ptr, previous_ptr, value),
            ),
    {
        match self.count(stats, Counter::Binds) {
            Err(fault) => {
                return Err(fault);
            },
            Ok(()) => {},
        }
        match self.walk_var(scope, store, var_ptr, previous_ptr, free_ptrs, stats, value) {
            Err(fault) => Err(fault),
            Ok(VarValue::Var(_)) => Ok(None),
            Ok(found) => Ok(Some((Self::term_of(value), Self::term_of(found)))),
        }
    }

    /// Binds the wire at `var_ptr` to the eraser.
    pub fn bind_era(
        &self,
        scope: &mut Scope,
        store: &mut Store,
        var_ptr: Ptr,
        previous_ptr: Option<Ptr>,
        free_ptrs: &mut FreePtrs,
        stats: &mut LocalStats,
    ) -> (next: Result<Option<Equation>, Fault>)
        requires
            old(store).wf(),
        ensures
            final(store).wf(),
            lands(
                *final(store),
                *final(free_ptrs),
                *final(stats),
                *final(scope),
                next,
                frame(*old(store), *old(free_ptrs), *old(stats), *old(scope), None).bind(var_ptr, previous_ptr, VarValue::Era),
            ),
    {
        self.bind(scope, store, var_ptr, previous_ptr, VarValue::Era, free_ptrs, stats)
    }

    /// Binds the wire at `var_ptr` to the agent at `cell_ptr`.
    pub fn bind_cell(
        &self,
        scope: &mut Scope,
        store: &mut Store,
        var_ptr: Ptr,
        previous_ptr: Option<Ptr>,
        cell_ptr: Ptr,
        free_ptrs: &mut FreePtrs,
        stats: &mut LocalStats,
    ) -> (next: Result<Option<Equation>, Fault>)
        requires
            old(store).wf(),
        ensures
            final(store).wf(),
            lands(
                *final(store),
                *final(free_ptrs),
                *final(stats),
                *final(scope),
                next,
                frame(*old(store), *old(free_ptrs), *old(stats), *old(scope), None).bind(var_ptr, previous_ptr, VarValue::Cell(cell_ptr)),
            ),
    {
        self.bind(scope, store, var_ptr, previous_ptr, VarValue::Cell(cell_ptr), free_ptrs, stats)
    }

    /// Connects the wires at `left_ptr` and `right_ptr`.
    pub fn connect_vars(
        &self,
        scope: &mut Scope,
        store: &mut Store,
        left_ptr: Ptr,
        right_ptr: Ptr,
        free_ptrs: &mut FreePtrs,
        stats: &mut LocalStats,
    ) -> (next: Result<Option<Equation>, Fault>)
        requires
            old(store).wf(),
        ensures
            final(store).wf(),
            lands(
                *final(store),
                *final(free_ptrs),
                *final(stats),
                *final(scope),
                next,
                frame(*old(store), *old(free_ptrs), *old(stats), *old(scope), None).connect(left_ptr, right_ptr),
            ),
    {
        match self.count(stats, Counter::Connects) {
            Err(fault) => {
                return Err(fault);
            },
            Ok(()) => {},
        }
        let right_found = self.walk_var(
            scope,
            store,
            right_ptr,
            None,
            free_ptrs,
            stats,
            VarValue::Var(left_ptr),
        );
        match right_found {
            Err(fault) => Err(fault),
            Ok(VarValue::Var(right_end)) => {
                // the right wire now names the left one: the left one has to name it too
                if !self.holds(store, right_end) {
                    return Ok(None);
                }
                let left_found = self.walk_var(
                    scope,
                    store,
                    left_ptr,
                    None,
                    free_ptrs,
                    stats,
                    VarValue::Var(right_end),
                );
                match left_found {
                    Err(fault) => Err(fault),
                    Ok(VarValue::Var(left_end)) => {
                        if left_end != left_ptr && self.holds(store, left_end) {
                            match self.swap(store, right_end, VarValue::Var(left_end)) {
                                Err(fault) => Err(fault),
                                Ok(_) => Ok(None),
                            }
                        } else {
                            Ok(None)
                        }
                    },
                    // the left wire was bound: its value goes to the right end
                    Ok(bound) => self.bind(
                        scope,
                        store,
                        right_end,
                        Some(left_ptr),
                        bound,
                        free_ptrs,
                        stats,
                    ),
                }
            },
            // the right wire was bound: the connection is a binding of the left wire
            Ok(bound) => self.bind(scope, store, left_ptr, None, bound, free_ptrs, stats),
        }
    }

    /// Whether two labels are the same.
    pub fn same_label(left: Option<Ptr>, right: Option<Ptr>) -> (same: bool)
        ensures
            same == (left == right),
    {
        match (left, right) {
            (None, None) => true,
            (Some(l), Some(r)) => l == r,
            _ => false,
        }
    }

    /// Queues the equation as a new task with the given buffer.
    pub fn spawn_eval_equation(
        &self,
        scope: &mut Scope,
        left: TermPtr,
        right: TermPtr,
        free_ptrs: FreePtrs,
    )
        ensures
            final(scope)@ == old(scope)@.push(Job { left, right, free: free_ptrs@ }),
    {
        scope.spawn(Task { left, right, free_ptrs });
    }

    /// Queues, as a new task, the equation between the agent at `cell_ptr`
    /// and the term.
    pub fn spawn_eval_cell_term(
        &self,
        scope: &mut Scope,
        cell_ptr: Ptr,
        term_ptr: TermPtr,
        free_ptrs: FreePtrs,
    )
        ensures
            final(scope)@ == old(scope)@.push(
                Job { left: TermPtr::Ptr(cell_ptr), right: term_ptr, free: free_ptrs@ },
            ),
    {
        self.spawn_eval_equation(scope, TermPtr::Ptr(cell_ptr), term_ptr, free_ptrs);
    }

    /// Queues, as a new task, the equation between the eraser and the term.
    pub fn spawn_eval_era_term(&self, scope: &mut Scope, term_ptr: TermPtr, free_ptrs: FreePtrs)
        ensures
            final(scope)@ == old(scope)@.push(
                Job { left: TermPtr::Era, right: term_ptr, free: free_ptrs@ },
            ),
    {
        self.spawn_eval_equation(scope, TermPtr::Era, term_ptr, free_ptrs);
    }

    /// Eraser against eraser: nothing is left.
    pub fn anni_era_era(
        &self,
        scope: &mut Scope,
        store: &mut Store,
        free_ptrs: &mut FreePtrs,
        stats: &mut LocalStats,
    ) -> (next: Result<Option<Equation>, Fault>)
        requires
            old(store).wf(),
        ensures
            final(store).wf(),
            lands(
                *final(store),
                *final(free_ptrs),
                *final(stats),
                *final(scope),
                next,
                frame(*old(store), *old(free_ptrs), *old(stats), *old(scope), None).step(TermPtr::Era, TermPtr::Era),
            ),
    {
        proof {
            reveal(Frame::step);
        }
        match self.count(stats, Counter::AnniEraEra) {
            Err(fault) => Err(fault),
            Ok(()) => Ok(None),
        }
    }

    /// Eraser against application: the application is retired and the eraser
    /// goes to both its ports.
    pub fn comm_era_app(
        &self,
        scope: &mut Scope,
        store: &mut Store,
        app_ptr: Ptr,
        app_ports: Option<(TermPtr, TermPtr)>,
        free_ptrs: &mut FreePtrs,
        stats: &mut LocalStats,
    ) -> (next: Result<Option<Equation>, Fault>)
        requires
            old(store).wf(),
        ensures
            final(store).wf(),
            lands(
                *final(store),
                *final(free_ptrs),
                *final(stats),
                *final(scope),
                next,
                frame(*old(store), *old(free_ptrs), *old(stats), *old(scope), None).erase(app_ptr, Cell::App(app_ports)),
            ),
    {
        match self.count(stats, Counter::CommEraApp) {
            Err(fault) => {
                return Err(fault);
            },
            Ok(()) => {},
        }
        match self.retire(store, free_ptrs, app_ptr) {
            Err(fault) => {
                return Err(fault);
            },
            Ok(()) => {},
        }
        match app_ports {
            Some((p0, p1)) => {
                let rest = free_ptrs.split(2);
                self.spawn_eval_era_term(scope, p0, rest);
                Ok(Some((TermPtr::Era, p1)))
            },
            None => Ok(None),
        }
    }

    /// Eraser against lambda: the lambda is retired and the eraser goes to
    /// both its ports.
    pub fn comm_era_lam(
        &self,
        scope: &mut Scope,
        store: &mut Store,
        lam_ptr: Ptr,
        lam_ports: Option<(TermPtr, TermPtr)>,
        free_ptrs: &mut FreePtrs,
        stats: &mut LocalStats,
    ) -> (next: Result<Option<Equation>, Fault>)
        requires
            old(store).wf(),
        ensures
            final(store).wf(),
            lands(
                *final(store),
                *final(free_ptrs),
                *final(stats),
                *final(scope),
                next,
                frame(*old(store), *old(free_ptrs), *old(stats), *old(scope), None).erase(lam_ptr, Cell::Lam(lam_ports)),
            ),
    {
        match self.count(stats, Counter::CommEraLam) {
            Err(fault) => {
                return Err(fault);
            },
            Ok(()) => {},
        }
        match self.retire(store, free_ptrs, lam_ptr) {
            Err(fault) => {
                return Err(fault);
            },
            Ok(()) => {},
        }
        match lam_ports {
            Some((p0, p1)) => {
                let rest = free_ptrs.split(2);
                self.spawn_eval_era_term(scope, p0, rest);
                Ok(Some((TermPtr::Era, p1)))
            },
            None => Ok(None),
        }
    }

    /// Eraser against duplicator: the duplicator is retired and the eraser
    /// goes to both its ports.
    pub fn commute_era_dup(
        &self,
        scope: &mut Scope,
        store: &mut Store,
        dup_ptr: Ptr,
        dup_ports: Option<(TermPtr, TermPtr)>,
        dup_lbl: Option<Ptr>,
        free_ptrs: &mut FreePtrs,
        stats: &mut LocalStats,
    ) -> (next: Result<Option<Equation>, Fault>)
        requires
            old(store).wf(),
        ensures
            final(store).wf(),
            lands(
                *final(store),
                *final(free_ptrs),
                *final(stats),
                *final(scope),
                next,
                frame(*old(store), *old(free_ptrs), *old(stats), *old(scope), None).erase(dup_ptr, Cell::Dup(dup_ports, dup_lbl)),
            ),
    {
        match self.count(stats, Counter::CommEraDup) {
            Err(fault) => {
                return Err(fault);
            },
            Ok(()) => {},
        }
        match self.retire(store, free_ptrs, dup_ptr) {
            Err(fault) => {
                return Err(fault);
            },
            Ok(()) => {},
        }
        match dup_ports {
            Some((p0, p1)) => {
                let rest = free_ptrs.split(2);
                self.spawn_eval_era_term(scope, p0, rest);
                Ok(Some((TermPtr::Era, p1)))
            },
            None => Ok(None),
        }
    }

    /// Eraser against the agent at `cell_ptr`.
    pub fn eval_era_cell(
        &self,
        scope: &mut Scope,
        store: &mut Store,
        cell_ptr: Ptr,
        cell: Cell,
        free_ptrs: &mut FreePtrs,
        stats: &mut LocalStats,
    ) -> (next: Result<Option<Equation>, Fault>)
        requires
            old(store).wf(),
        ensures
            final(store).wf(),
            lands(
                *final(store),
                *final(free_ptrs),
                *final(stats),
                *final(scope),
                next,
                frame(*old(store), *old(free_ptrs), *old(stats), *old(scope), None).erase(cell_ptr, cell),
            ),
    {
        match cell {
            Cell::Dup(ports, lbl) => self.commute_era_dup(
                scope,
                store,
                cell_ptr,
                ports,
                lbl,
                free_ptrs,
                stats,
            ),
            Cell::App(ports) => self.comm_era_app(scope, store, cell_ptr, ports, free_ptrs, stats),
            Cell::Lam(ports) => self.comm_era_lam(scope, store, cell_ptr, ports, free_ptrs, stats),
        }
    }

    /// Two agents of one kind: both are retired and their ports are joined
    /// pairwise. The first pair goes to a new task, the second is returned.
    pub fn annihilate(
        &self,
        scope: &mut Scope,
        store: &mut Store,
        counter: Counter,
        left_ptr: Ptr,
        left_ports: Option<(TermPtr, TermPtr)>,
        right_ptr: Ptr,
        right_ports: Option<(TermPtr, TermPtr)>,
        free_ptrs: &mut FreePtrs,
        stats: &mut LocalStats,
    ) -> (next: Result<Option<Equation>, Fault>)
        requires
            old(store).wf(),
        ensures
            final(store).wf(),
            lands(
                *final(store),
                *final(free_ptrs),
                *final(stats),
                *final(scope),
                next,
                frame(*old(store), *old(free_ptrs), *old(stats), *old(scope), None).annihilate(counter, left_ptr, left_ports, right_ptr, right_ports),
            ),
    {
        match self.count(stats, counter) {
            Err(fault) => {
                return Err(fault);
            },
            Ok(()) => {},
        }
        match self.retire(store, free_ptrs, left_ptr) {
            Err(fault) => {
                return Err(fault);
            },
            Ok(()) => {},
        }
        match self.retire(store, free_ptrs, right_ptr) {
            Err(fault) => {
                return Err(fault);
            },
            Ok(()) => {},
        }
        match (left_ports, right_ports) {
            // both agents have their own two ports joined
            (None, None) => Ok(None),
            (Some((p0, p1)), None) => Ok(Some((p0, p1))),
            (None, Some((p0, p1))) => Ok(Some((p0, p1))),
            (Some((left_p0, left_p1)), Some((right_p0, right_p1))) => {
                let rest = free_ptrs.split(2);
                self.spawn_eval_equation(scope, left_p0, right_p0, rest);
                Ok(Some((left_p1, right_p1)))
            },
        }
    }

    /// Lambda against lambda.
    pub fn anni_lam_lam(
        &self,
        scope: &mut Scope,
        store: &mut Store,
        left_ptr: Ptr,
        left_ports: Option<(TermPtr, TermPtr)>,
        right_ptr: Ptr,
        right_ports: Option<(TermPtr, TermPtr)>,
        free_ptrs: &mut FreePtrs,
        stats: &mut LocalStats,
    ) -> (next: Result<Option<Equation>, Fault>)
        requires
            old(store).wf(),
        ensures
            final(store).wf(),
            lands(
                *final(store),
                *final(free_ptrs),
                *final(stats),
                *final(scope),
                next,
                frame(*old(store), *old(free_ptrs), *old(stats), *old(scope), None).annihilate(Counter::AnniLamLam, left_ptr, left_ports, right_ptr, right_ports),
            ),
    {
        self.annihilate(
            scope,
            store,
            Counter::AnniLamLam,
            left_ptr,
            left_ports,
            right_ptr,
            right_ports,
            free_ptrs,
            stats,
        )
    }

    /// Application against application.
    pub fn anni_app_app(
        &self,
        scope: &mut Scope,
        store: &mut Store,
        left_ptr: Ptr,
        left_ports: Option<(TermPtr, TermPtr)>,
        right_ptr: Ptr,
        right_ports: Option<(TermPtr, TermPtr)>,
        free_ptrs: &mut FreePtrs,
        stats: &mut LocalStats,
    ) -> (next: Result<Option<Equation>, Fault>)
        requires
            old(store).wf(),
        ensures
            final(store).wf(),
            lands(
                *final(store),
                *final(free_ptrs),
                *final(stats),
                *final(scope),
                next,
                frame(*old(store), *old(free_ptrs), *old(stats), *old(scope), None).annihilate(Counter::AnniAppApp, left_ptr, left_ports, right_ptr, right_ports),
            ),
    {
        self.annihilate(
            scope,
            store,
            Counter::AnniAppApp,
            left_ptr,
            left_ports,
            right_ptr,
            right_ports,
            free_ptrs,
            stats,
        )
    }

    /// Two duplicators of one label.
    pub fn anni_dup_dup(
        &self,
        scope: &mut Scope,
        store: &mut Store,
        left_ptr: Ptr,
        left_ports: Option<(TermPtr, TermPtr)>,
        left_lbl: Option<Ptr>,
        right_ptr: Ptr,
        right_ports: Option<(TermPtr, TermPtr)>,
        right_lbl: Option<Ptr>,
        free_ptrs: &mut FreePtrs,
        stats: &mut LocalStats,
    ) -> (next: Result<Option<Equation>, Fault>)
        requires
            old(store).wf(),
        ensures
            final(store).wf(),
            lands(
                *final(store),
                *final(free_ptrs),
                *final(stats),
                *final(scope),
                next,
                frame(*old(store), *old(free_ptrs), *old(stats), *old(scope), None).annihilate(Counter::AnniDupDup, left_ptr, left_ports, right_ptr, right_ports),
            ),
    {
        self.annihilate(
            scope,
            store,
            Counter::AnniDupDup,
            left_ptr,
            left_ports,
            right_ptr,
            right_ports,
            free_ptrs,
            stats,
        )
    }

    /// Two duplicators of different labels.
    pub fn comm_dup_dup(
        &self,
        scope: &mut Scope,
        store: &mut Store,
        left_ptr: Ptr,
        left_ports: Option<(TermPtr, TermPtr)>,
        left_lbl: Option<Ptr>,
        right_ptr: Ptr,
        right_ports: Option<(TermPtr, TermPtr)>,
        right_lbl: Option<Ptr>,
        free_ptrs: &mut FreePtrs,
        stats: &mut LocalStats,
    ) -> (next: Result<Option<Equation>, Fault>)
        requires
            old(store).wf(),
        ensures
            final(store).wf(),
            lands(
                *final(store),
                *final(free_ptrs),
                *final(stats),
                *final(scope),
                next,
                frame(*old(store), *old(free_ptrs), *old(stats), *old(scope), None).count(Counter::CommDupDup).commute(
                    left_ptr,
                    Cell::Dup(left_ports, left_lbl),
                    right_ptr,
                    Cell::Dup(right_ports, right_lbl),
                ),
            ),
    {
        match self.count(stats, Counter::CommDupDup) {
            Err(fault) => {
                return Err(fault);
            },
            Ok(()) => {},
        }
        self.commute(
            scope,
            store,
            left_ptr,
            Cell::Dup(left_ports, left_lbl),
            right_ptr,
            Cell::Dup(right_ports, right_lbl),
            free_ptrs,
            stats,
        )
    }

    /// Two duplicators: they annihilate if their labels are equal and commute
    /// if not.
    pub fn reduce_dup_dup(
        &self,
        scope: &mut Scope,
        store: &mut Store,
        left_ptr: Ptr,
        left_ports: Option<(TermPtr, TermPtr)>,
        left_lbl: Option<Ptr>,
        right_ptr: Ptr,
        right_ports: Option<(TermPtr, TermPtr)>,
        right_lbl: Option<Ptr>,
        free_ptrs: &mut FreePtrs,
        stats: &mut LocalStats,
    ) -> (next: Result<Option<Equation>, Fault>)
        requires
            old(store).wf(),
        ensures
            final(store).wf(),
            lands(
                *final(store),
                *final(free_ptrs),
                *final(stats),
                *final(scope),
                next,
                frame(*old(store), *old(free_ptrs), *old(stats), *old(scope), None).interact(
                    left_ptr,
                    Cell::Dup(left_ports, left_lbl),
                    right_ptr,
                    Cell::Dup(right_ports, right_lbl),
                ),
            ),
    {
        if Self::same_label(left_lbl, right_lbl) {
            self.anni_dup_dup(
                scope,
                store,
                left_ptr,
                left_ports,
                left_lbl,
                right_ptr,
                right_ports,
                right_lbl,
                free_ptrs,
                stats,
            )
        } else {
            self.comm_dup_dup(
                scope,
                store,
                left_ptr,
                left_ports,
                left_lbl,
                right_ptr,
                right_ports,
                right_lbl,
                free_ptrs,
                stats,
            )
        }
    }

    /// Application against lambda.
    pub fn commute_app_lam(
        &self,
        scope: &mut Scope,
        store: &mut Store,
        app_ptr: Ptr,
        app_ports: Option<(TermPtr, TermPtr)>,
        lam_ptr: Ptr,
        lam_ports: Option<(TermPtr, TermPtr)>,
        free_ptrs: &mut FreePtrs,
        stats: &mut LocalStats,
    ) -> (next: Result<Option<Equation>, Fault>)
        requires
            old(store).wf(),
        ensures
            final(store).wf(),
            lands(
                *final(store),
                *final(free_ptrs),
                *final(stats),
                *final(scope),
                next,
                frame(*old(store), *old(free_ptrs), *old(stats), *old(scope), None).count(Counter::CommAppLam).commute(
                    app_ptr,
                    Cell::App(app_ports),
                    lam_ptr,
                    Cell::Lam(lam_ports),
                ),
            ),
    {
        match self.count(stats, Counter::CommAppLam) {
            Err(fault) => {
                return Err(fault);
            },
            Ok(()) => {},
        }
        self.commute(
            scope,
            store,
            app_ptr,
            Cell::App(app_ports),
            lam_ptr,
            Cell::Lam(lam_ports),
            free_ptrs,
            stats,
        )
    }

    /// Application against duplicator.
    pub fn commute_app_dup(
        &self,
        scope: &mut Scope,
        store: &mut Store,
        app_ptr: Ptr,
        app_ports: Option<(TermPtr, TermPtr)>,
        dup_ptr: Ptr,
        dup_ports: Option<(TermPtr, TermPtr)>,
        dup_lbl: Option<Ptr>,
        free_ptrs: &mut FreePtrs,
        stats: &mut LocalStats,
    ) -> (next: Result<Option<Equation>, Fault>)
        requires
            old(store).wf(),
        ensures
            final(store).wf(),
            lands(
                *final(store),
                *final(free_ptrs),
                *final(stats),
                *final(scope),
                next,
                frame(*old(store), *old(free_ptrs), *old(stats), *old(scope), None).count(Counter::CommAppDup).commute(
                    app_ptr,
                    Cell::App(app_ports),
                    dup_ptr,
                    Cell::Dup(dup_ports, dup_lbl),
                ),
            ),
    {
        match self.count(stats, Counter::CommAppDup) {
            Err(fault) => {
                return Err(fault);
            },
            Ok(()) => {},
        }
        self.commute(
            scope,
            store,
            app_ptr,
            Cell::App(app_ports),
            dup_ptr,
            Cell::Dup(dup_ports, dup_lbl),
            free_ptrs,
            stats,
        )
    }

    /// Lambda against duplicator.
    pub fn commute_lam_dup(
        &self,
        scope: &mut Scope,
        store: &mut Store,
        lam_ptr: Ptr,
        lam_ports: Option<(TermPtr, TermPtr)>,
        dup_ptr: Ptr,
        dup_ports: Option<(TermPtr, TermPtr)>,
        dup_lbl: Option<Ptr>,
        free_ptrs: &mut FreePtrs,
        stats: &mut LocalStats,
    ) -> (next: Result<Option<Equation>, Fault>)
        requires
            old(store).wf(),
        ensures
            final(store).wf(),
            lands(
                *final(store),
                *final(free_ptrs),
                *final(stats),
                *final(scope),
                next,
                frame(*old(store), *old(free_ptrs), *old(stats), *old(scope), None).count(Counter::CommLamDup).commute(
                    lam_ptr,
                    Cell::Lam(lam_ports),
                    dup_ptr,
                    Cell::Dup(dup_ports, dup_lbl),
                ),
            ),
    {
        match self.count(stats, Counter::CommLamDup) {
            Err(fault) => {
                return Err(fault);
            },
            Ok(()) => {},
        }
        self.commute(
            scope,
            store,
            lam_ptr,
            Cell::Lam(lam_ports),
            dup_ptr,
            Cell::Dup(dup_ports, dup_lbl),
            free_ptrs,
            stats,
        )
    }

    /// Two agents that differ in kind or label: each is copied, the copies are
    /// joined by four fresh wires, and each copy meets a port of the other
    /// agent. The slots of the two agents are reused for the first copy of
    /// each; the last equation is returned and the others go to new tasks.
    pub fn commute(
        &self,
        scope: &mut Scope,
        store: &mut Store,
        left_ptr: Ptr,
        left: Cell,
        right_ptr: Ptr,
        right: Cell,
        free_ptrs: &mut FreePtrs,
        stats: &mut LocalStats,
    ) -> (next: Result<Option<Equation>, Fault>)
        requires
            old(store).wf(),
        ensures
            final(store).wf(),
            lands(
                *final(store),
                *final(free_ptrs),
                *final(stats),
                *final(scope),
                next,
                frame(*old(store), *old(free_ptrs), *old(stats), *old(scope), None).commute(left_ptr, left, right_ptr, right),
            ),
    {
        let left_ports = left.ports();
        let right_ports = right.ports();
        if left_ports.is_none() && right_ports.is_none() {
            // both agents have their own two ports joined: nothing is left of them
            match self.retire(store, free_ptrs, left_ptr) {
                Err(fault) => {
                    return Err(fault);
                },
                Ok(()) => {},
            }
            match self.retire(store, free_ptrs, right_ptr) {
                Err(fault) => {
                    return Err(fault);
                },
                Ok(()) => {},
            }
            return Ok(None);
        }
        let x1 = match self.alloc_var(store, stats) {
            Err(fault) => {
                return Err(fault);
            },
            Ok(ptr) => ptr,
        };
        let x2 = match self.alloc_var(store, stats) {
            Err(fault) => {
                return Err(fault);
            },
            Ok(ptr) => ptr,
        };
        let x3 = match self.alloc_var(store, stats) {
            Err(fault) => {
                return Err(fault);
            },
            Ok(ptr) => ptr,
        };
        let x4 = match self.alloc_var(store, stats) {
            Err(fault) => {
                return Err(fault);
            },
            Ok(ptr) => ptr,
        };
        let x1 = TermPtr::Ptr(x1);
        let x2 = TermPtr::Ptr(x2);
        let x3 = TermPtr::Ptr(x3);
        let x4 = TermPtr::Ptr(x4);

        // the two copies of the left agent
        match self.reuse_cell(store, left_ptr, left.with_ports(x1, x3)) {
            Err(fault) => {
                return Err(fault);
            },
            Ok(()) => {},
        }
        let left_1 = match self.alloc_cell(store, left.with_ports(x4, x2), stats) {
            Err(fault) => {
                return Err(fault);
            },
            Ok(ptr) => ptr,
        };
        // the two copies of the right agent
        match self.reuse_cell(store, right_ptr, right.with_ports(x1, x4)) {
            Err(fault) => {
                return Err(fault);
            },
            Ok(()) => {},
        }
        let right_1 = match self.alloc_cell(store, right.with_ports(x3, x2), stats) {
            Err(fault) => {
                return Err(fault);
            },
            Ok(ptr) => ptr,
        };
        let left_0 = left_ptr;
        let right_0 = right_ptr;

        match (left_ports, right_ports) {
            (Some((left_p0, left_p1)), Some((right_p0, right_p1))) => {
                let rest = free_ptrs.split(4);
                self.spawn_eval_cell_term(scope, right_0, left_p0, rest);
                let rest = free_ptrs.split(3);
                self.spawn_eval_cell_term(scope, right_1, left_p1, rest);
                let rest = free_ptrs.split(2);
                self.spawn_eval_cell_term(scope, left_0, right_p0, rest);
                Ok(Some((TermPtr::Ptr(left_1), right_p1)))
            },
            // the left agent has its own two ports joined
            (None, Some((right_p0, right_p1))) => {
                let rest = free_ptrs.split(3);
                self.spawn_eval_cell_term(scope, left_0, right_p0, rest);
                let rest = free_ptrs.split(2);
                self.spawn_eval_cell_term(scope, left_1, right_p1, rest);
                Ok(Some((TermPtr::Ptr(right_0), TermPtr::Ptr(right_1))))
            },
            // the right agent has its own two ports joined
            (Some((left_p0, left_p1)), None) => {
                let rest = free_ptrs.split(3);
                self.spawn_eval_cell_term(scope, right_0, left_p0, rest);
                let rest = free_ptrs.split(2);
                self.spawn_eval_cell_term(scope, right_1, left_p1, rest);
                Ok(Some((TermPtr::Ptr(left_0), TermPtr::Ptr(left_1))))
            },
            (None, None) => Ok(None),
        }
    }

    /// The agent at `left_ptr` against the agent at `right_ptr`, by the rule for
    /// their kinds. The rule is counted once, whichever agent stands on the
    /// left.
    pub fn eval_cell_cell(
        &self,
        scope: &mut Scope,
        store: &mut Store,
        left_ptr: Ptr,
        left: Cell,
        right_ptr: Ptr,
        right: Cell,
        free_ptrs: &mut FreePtrs,
        stats: &mut LocalStats,
    ) -> (next: Result<Option<Equation>, Fault>)
        requires
            old(store).wf(),
        ensures
            final(store).wf(),
            lands(
                *final(store),
                *final(free_ptrs),
                *final(stats),
                *final(scope),
                next,
                frame(*old(store), *old(free_ptrs), *old(stats), *old(scope), None).interact(left_ptr, left, right_ptr, right),
            ),
            old(stats).tally().get(rule(left, right)) < usize::MAX ==> final(stats).tally().get(
                rule(left, right),
            ) == old(stats).tally().get(rule(left, right)) + 1,
            forall|other: Counter|
                old(stats).tally().get(rule(left, right)) < usize::MAX && other.is_rule() && other
                    != rule(left, right) ==> #[trigger] final(stats).tally().get(other) == old(stats).tally().get(other),
    {
        proof {
            let before = frame(*old(store), *old(free_ptrs), *old(stats), *old(scope), None);
            if before.tally.get(rule(left, right)) < usize::MAX {
                lemma_interact_counts(before, left_ptr, left, right_ptr, right, rule(left, right));
                assert forall|other: Counter|
                    other.is_rule() && other != rule(left, right) implies #[trigger] before.interact(
                    left_ptr,
                    left,
                    right_ptr,
                    right,
                ).0.tally.get(other) == before.tally.get(other) by {
                    lemma_interact_counts(before, left_ptr, left, right_ptr, right, other);
                }
            }
        }
        match (left, right) {
            (Cell::App(left_ports), Cell::App(right_ports)) => self.anni_app_app(
                scope,
                store,
                left_ptr,
                left_ports,
                right_ptr,
                right_ports,
                free_ptrs,
                stats,
            ),
            (Cell::Lam(left_ports), Cell::Lam(right_ports)) => self.anni_lam_lam(
                scope,
                store,
                left_ptr,
                left_ports,
                right_ptr,
                right_ports,
                free_ptrs,
                stats,
            ),
            (Cell::Dup(left_ports, left_lbl), Cell::Dup(right_ports, right_lbl)) => self.reduce_dup_dup(
                scope,
                store,
                left_ptr,
                left_ports,
                left_lbl,
                right_ptr,
                right_ports,
                right_lbl,
                free_ptrs,
                stats,
            ),
            (Cell::App(app_ports), Cell::Dup(dup_ports, dup_lbl)) => self.commute_app_dup(
                scope,
                store,
                left_ptr,
                app_ports,
                right_ptr,
                dup_ports,
                dup_lbl,
                free_ptrs,
                stats,
            ),
            (Cell::Dup(dup_ports, dup_lbl), Cell::App(app_ports)) => self.commute_app_dup(
                scope,
                store,
                right_ptr,
                app_ports,
                left_ptr,
                dup_ports,
                dup_lbl,
                free_ptrs,
                stats,
            ),
            (Cell::App(app_ports), Cell::Lam(lam_ports)) => self.commute_app_lam(
                scope,
                store,
                left_ptr,
                app_ports,
                right_ptr,
                lam_ports,
                free_ptrs,
                stats,
            ),
            (Cell::Lam(lam_ports), Cell::App(app_ports)) => self.commute_app_lam(
                scope,
                store,
                right_ptr,
                app_ports,
                left_ptr,
                lam_ports,
                free_ptrs,
                stats,
            ),
            (Cell::Lam(lam_ports), Cell::Dup(dup_ports, dup_lbl)) => self.commute_lam_dup(
                scope,
                store,
                left_ptr,
                lam_ports,
                right_ptr,
                dup_ports,
                dup_lbl,
                free_ptrs,
                stats,
            ),
            (Cell::Dup(dup_ports, dup_lbl), Cell::Lam(lam_ports)) => self.commute_lam_dup(
                scope,
                store,
                right_ptr,
                lam_ports,
                left_ptr,
                dup_ports,
                dup_lbl,
                free_ptrs,
                stats,
            ),
        }
    }

    /// The eraser against whatever is in the slot.
    pub fn eval_era_ptr(
        &self,
        scope: &mut Scope,
        store: &mut Store,
        ptr: Ptr,
        free_ptrs: &mut FreePtrs,
        stats: &mut LocalStats,
    ) -> (next: Result<Option<Equation>, Fault>)
        requires
            old(store).wf(),
        ensures
            final(store).wf(),
            lands(
                *final(store),
                *final(free_ptrs),
                *final(stats),
                *final(scope),
                next,
                frame(*old(store), *old(free_ptrs), *old(stats), *old(scope), None).step(TermPtr::Era, TermPtr::Ptr(ptr)),
            ),
    {
        proof {
            reveal(Frame::step);
        }
        match self.look(store, ptr) {
            Err(fault) => Err(fault),
            Ok(Term::Var(_)) => self.bind_era(scope, store, ptr, None, free_ptrs, stats),
            Ok(Term::Cell(cell)) => self.eval_era_cell(scope, store, ptr, cell, free_ptrs, stats),
        }
    }

    /// The eraser against a term.
    pub fn eval_era_term(
        &self,
        scope: &mut Scope,
        store: &mut Store,
        term_ptr: TermPtr,
        free_ptrs: &mut FreePtrs,
        stats: &mut LocalStats,
    ) -> (next: Result<Option<Equation>, Fault>)
        requires
            old(store).wf(),
        ensures
            final(store).wf(),
            lands(
                *final(store),
                *final(free_ptrs),
                *final(stats),
                *final(scope),
                next,
                frame(*old(store), *old(free_ptrs), *old(stats), *old(scope), None).step(TermPtr::Era, term_ptr),
            ),
    {
        proof {
            reveal(Frame::step);
        }
        match term_ptr {
            TermPtr::Era => self.anni_era_era(scope, store, free_ptrs, stats),
            TermPtr::Ptr(ptr) => self.eval_era_ptr(scope, store, ptr, free_ptrs, stats),
        }
    }

    /// The agent at `cell_ptr` against a term.
    pub fn eval_cell_term(
        &self,
        scope: &mut Scope,
        store: &mut Store,
        cell_ptr: Ptr,
        cell: Cell,
        term_ptr: TermPtr,
        free_ptrs: &mut FreePtrs,
        stats: &mut LocalStats,
    ) -> (next: Result<Option<Equation>, Fault>)
        requires
            old(store).wf(),
            resolve(old(store)@, TermPtr::Ptr(cell_ptr)) == End::Cell(cell_ptr, cell),
        ensures
            final(store).wf(),
            lands(
                *final(store),
                *final(free_ptrs),
                *final(stats),
                *final(scope),
                next,
                frame(*old(store), *old(free_ptrs), *old(stats), *old(scope), None).step(TermPtr::Ptr(cell_ptr), term_ptr),
            ),
    {
        proof {
            reveal(Frame::step);
        }
        match term_ptr {
            TermPtr::Era => self.eval_era_cell(scope, store, cell_ptr, cell, free_ptrs, stats),
            TermPtr::Ptr(ptr) => match self.look(store, ptr) {
                Err(fault) => Err(fault),
                Ok(Term::Cell(other_cell)) => self.eval_cell_cell(
                    scope,
                    store,
                    cell_ptr,
                    cell,
                    ptr,
                    other_cell,
                    free_ptrs,
                    stats,
                ),
                Ok(Term::Var(_)) => self.bind_cell(
                    scope,
                    store,
                    ptr,
                    None,
                    cell_ptr,
                    free_ptrs,
                    stats,
                ),
            },
        }
    }

    /// The wire at `var_ptr` against a term.
    pub fn eval_var_term(
        &self,
        scope: &mut Scope,
        store: &mut Store,
        var_ptr: Ptr,
        term_ptr: TermPtr,
        free_ptrs: &mut FreePtrs,
        stats: &mut LocalStats,
    ) -> (next: Result<Option<Equation>, Fault>)
        requires
            old(store).wf(),
            resolve(old(store)@, TermPtr::Ptr(var_ptr)) == End::Var(var_ptr),
        ensures
            final(store).wf(),
            lands(
                *final(store),
                *final(free_ptrs),
                *final(stats),
                *final(scope),
                next,
                frame(*old(store), *old(free_ptrs), *old(stats), *old(scope), None).step(TermPtr::Ptr(var_ptr), term_ptr),
            ),
    {
        proof {
            reveal(Frame::step);
        }
        match term_ptr {
            TermPtr::Era => self.bind_era(scope, store, var_ptr, None, free_ptrs, stats),
            TermPtr::Ptr(ptr) => match self.look(store, ptr) {
                Err(fault) => Err(fault),
                Ok(Term::Cell(_)) => self.bind_cell(
                    scope,
                    store,
                    var_ptr,
                    None,
                    ptr,
                    free_ptrs,
                    stats,
                ),
                Ok(Term::Var(_)) => self.connect_vars(
                    scope,
                    store,
                    var_ptr,
                    ptr,
                    free_ptrs,
                    stats,
                ),
            },
        }
    }

    /// Evaluates one equation and returns the equation that the task goes on
    /// with, if there is one.
    pub fn eval_equation(
        &self,
        scope: &mut Scope,
        store: &mut Store,
        left: TermPtr,
        right: TermPtr,
        free_ptrs: &mut FreePtrs,
        stats: &mut LocalStats,
    ) -> (next: Result<Option<Equation>, Fault>)
        requires
            old(store).wf(),
        ensures
            final(store).wf(),
            lands(
                *final(store),
                *final(free_ptrs),
                *final(stats),
                *final(scope),
                next,
                frame(*old(store), *old(free_ptrs), *old(stats), *old(scope), None).step(left, right),
            ),
    {
        proof {
            reveal(Frame::step);
        }
        match left {
            TermPtr::Era => self.eval_era_term(scope, store, right, free_ptrs, stats),
            TermPtr::Ptr(ptr) => match self.look(store, ptr) {
                Err(fault) => match right {
                    TermPtr::Era => Err(fault),
                    TermPtr::Ptr(other) => match self.look(store, other) {
                        Err(Fault::OutOfBounds) => Err(Fault::OutOfBounds),
                        _ => Err(fault),
                    },
                },
                Ok(Term::Cell(cell)) => self.eval_cell_term(
                    scope,
                    store,
                    ptr,
                    cell,
                    right,
                    free_ptrs,
                    stats,
                ),
                Ok(Term::Var(_)) => self.eval_var_term(scope, store, ptr, right, free_ptrs, stats),
            },
        }
    }

    /// Runs a task to its end: its equations one after another, then the
    /// release of the slots in its buffer and the merge of its counters into
    /// those of the runtime. Returns the steps that are left.
    #[verifier::loop_isolation(false)]
    pub fn run_task(&mut self, scope: &mut Scope, store: &mut Store, task: Task, steps: u64) -> (done:
        (Result<(), Fault>, u64))
        requires
            old(store).wf(),
        ensures
            final(store).wf(),
            ({
                let (machine, left) = (Machine {
                    arena: old(store)@,
                    scope: old(scope)@.push(task@),
                    tally: old(self).stats.tally(),
                    fault: None,
                }).task(steps as nat);
                &&& final(store)@ == machine.arena
                &&& final(scope)@ == machine.scope
                &&& final(self).stats.tally() == machine.tally
                &&& fault_of(done.0) == machine.fault
                &&& done.1 == left
            }),
    {
        let Task { left, right, free_ptrs } = task;
        let mut free_ptrs = free_ptrs;
        let mut stats = LocalStats::new();
        let mut equation = Some((left, right));
        let mut steps = steps;
        let ghost first = frame(*store, free_ptrs, stats, *scope, None);
        let ghost all = steps as nat;
        proof {
            reveal(Machine::task);
            assert(old(scope)@.push(task@).drop_last() =~= old(scope)@);
            assert(old(scope)@.push(task@).last() == task@);
        }
        while equation.is_some()
            invariant
                store.wf(),
                first.run(Some((left, right)), all) == frame(
                    *store,
                    free_ptrs,
                    stats,
                    *scope,
                    None,
                ).run(equation, steps as nat),
                self.stats == old(self).stats,
            decreases steps,
        {
            let ghost before = frame(*store, free_ptrs, stats, *scope, None);
            if steps == 0 {
                proof {
                    assert(before.run(equation, 0) == (before.fail(Fault::StepLimit), 0nat));
                    assert(before.fail(Fault::StepLimit).flush() == before.fail(Fault::StepLimit));
                }
                return (Err(Fault::StepLimit), steps);
            }
            let (this_left, this_right) = equation.unwrap();
            proof {
                lemma_run_step(before, this_left, this_right, steps as nat);
            }
            steps = steps - 1;
            match self.eval_equation(
                scope,
                store,
                this_left,
                this_right,
                &mut free_ptrs,
                &mut stats,
            ) {
                Err(fault) => {
                    proof {
                        let stepped = before.step(this_left, this_right);
                        lemma_run_stopped(stepped.0, stepped.1, steps as nat);
                        assert(first.run(Some((left, right)), all) == (stepped.0, steps as nat));
                        assert(stepped.0.flush() == stepped.0);
                    }
                    return (Err(fault), steps);
                },
                Ok(next) => {
                    equation = next;
                },
            }
        }
        match self.free_ptrs(store, &mut free_ptrs) {
            Err(fault) => {
                return (Err(fault), steps);
            },
            Ok(()) => {},
        }
        if !self.stats.fits(&stats) {
            return (Err(Fault::CounterOverflow), steps);
        }
        self.stats.update(stats);
        (Ok(()), steps)
    }

    /// Evaluates the net: every equation of its body becomes a task, and
    /// tasks are run until none waits. The body is left empty and the head
    /// as it was. At most `steps` equations are evaluated.
    ///
    /// Where the net is linear no reference is found dangling: the only
    /// faults are that the arena, a counter or the steps have run out.
    #[verifier::loop_isolation(false)]
    pub fn eval_within(&mut self, net: &mut Net, steps: u64) -> (done: Result<(), Fault>)
        requires
            old(net).store.wf(),
        ensures
            final(net).store.wf(),
            final(net).head@ == old(net).head@,
            final(net).body@.len() == 0,
            ({
                let machine = Machine::load(
                    old(net).store@,
                    old(net).body@,
                    old(self).stats.tally(),
                ).run(steps as nat);
                &&& final(net).store@ == machine.arena
                &&& final(self).stats.tally() == machine.tally
                &&& fault_of(done) == machine.fault
            }),
            linear_machine(
                old(net).head@,
                Machine::load(old(net).store@, old(net).body@, old(self).stats.tally()),
            ) ==> ran_out(fault_of(done)),
    {
        proof {
            let first = Machine::load(old(net).store@, old(net).body@, old(self).stats.tally());
            if linear_machine(old(net).head@, first) {
                lemma_machine_linear(old(net).head@, first, steps as nat);
            }
        }
        let mut scope = self.load(net);
        let mut steps = steps;
        let ghost first = Machine::load(old(net).store@, old(net).body@, old(self).stats.tally());
        let ghost all = steps as nat;
        while scope.len() > 0
            invariant
                net.store.wf(),
                net.head@ == old(net).head@,
                net.body@.len() == 0,
                first.run(all) == (Machine {
                    arena: net.store@,
                    scope: scope@,
                    tally: self.stats.tally(),
                    fault: None,
                }).run(steps as nat),
            decreases steps,
        {
            let ghost now = Machine {
                arena: net.store@,
                scope: scope@,
                tally: self.stats.tally(),
                fault: None,
            };
            let ghost all_left = steps as nat;
            if steps == 0 {
                proof {
                    assert(now.run(0) == Machine { fault: Some(Fault::StepLimit), ..now });
                }
                return Err(Fault::StepLimit);
            }
            let task = scope.take().unwrap();
            proof {
                assert(scope@.push(task@) =~= now.scope);
                lemma_machine_task(now, steps as nat);
            }
            let (ran, left) = self.run_task(&mut scope, &mut net.store, task, steps);
            steps = left;
            match ran {
                Err(fault) => {
                    proof {
                        lemma_machine_stopped(now.task(all_left).0, left as nat);
                    }
                    return Err(fault);
                },
                Ok(()) => {},
            }
        }
        proof {
            lemma_machine_stopped(
                Machine {
                    arena: net.store@,
                    scope: scope@,
                    tally: self.stats.tally(),
                    fault: None,
                },
                steps as nat,
            );
        }
        Ok(())
    }

    /// Takes the equations out of the net's body and queues them as tasks,
    /// the first equation last, so that it is taken first.
    pub fn load(&self, net: &mut Net) -> (scope: Scope)
        ensures
            final(net).store == old(net).store,
            final(net).head == old(net).head,
            final(net).body@.len() == 0,
            scope@ == Machine::load(old(net).store@, old(net).body@, Tally::zero()).scope,
    {
        let mut scope = Scope::new();
        let mut i = net.body.len();
        while i > 0
            invariant
                0 <= i <= net.body@.len(),
                *net == *old(net),
                scope@ =~= Seq::new(
                    (net.body@.len() - i) as nat,
                    |k: int|
                        Job {
                            left: net.body@[net.body@.len() - 1 - k].0,
                            right: net.body@[net.body@.len() - 1 - k].1,
                            free: Seq::empty(),
                        },
                ),
            decreases i,
        {
            i = i - 1;
            let (left, right) = net.body[i];
            self.spawn_eval_equation(&mut scope, left, right, FreePtrs::new());
        }
        net.body.clear();
        scope
    }

    /// Evaluates the net without a limit that can be reached in practice.
    pub fn eval(&mut self, net: &mut Net) -> (done: Result<(), Fault>)
        requires
            old(net).store.wf(),
        ensures
            final(net).store.wf(),
            final(net).head@ == old(net).head@,
            final(net).body@.len() == 0,
            ({
                let machine = Machine::load(
                    old(net).store@,
                    old(net).body@,
                    old(self).stats.tally(),
                ).run(u64::MAX as nat);
                &&& final(net).store@ == machine.arena
                &&& final(self).stats.tally() == machine.tally
                &&& fault_of(done) == machine.fault
            }),
            linear_machine(
                old(net).head@,
                Machine::load(old(net).store@, old(net).body@, old(self).stats.tally()),
            ) ==> ran_out(fault_of(done)),
    {
        self.eval_within(net, u64::MAX)
    }
}

} // verus!
