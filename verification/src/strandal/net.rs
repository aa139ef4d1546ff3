//! The net: an arena, the equations that wait to be evaluated, and the
//! terms that an observer reads when evaluation is done.

use vstd::prelude::*;

use super::store::Arena;
use super::store::Ptr;
use super::store::Store;
use super::term::Cell;
use super::term::Term;
use super::term::TermPtr;
use super::var::Var;
use super::var::VarUse;

verus! {

/// What can stand where a term reference is expected.
pub trait IntoTermPtr: Sized {
    /// The term reference that the value stands for.
    spec fn term_ptr(self) -> TermPtr;

    fn into_term_ptr(self) -> (term_ptr: TermPtr)
        ensures
            term_ptr == self.term_ptr(),
    ;
}

impl IntoTermPtr for TermPtr {
    open spec fn term_ptr(self) -> TermPtr {
        self
    }

    fn into_term_ptr(self) -> (term_ptr: TermPtr) {
        self
    }
}

impl IntoTermPtr for VarUse {
    open spec fn term_ptr(self) -> TermPtr {
        TermPtr::Ptr(self.ptr)
    }

    fn into_term_ptr(self) -> (term_ptr: TermPtr) {
        TermPtr::Ptr(self.ptr())
    }
}

/// A net as a value.
pub struct NetModel {
    pub arena: Arena,
    pub head: Seq<TermPtr>,
    pub body: Seq<(TermPtr, TermPtr)>,
}

impl NetModel {
    /// The net with one more term to observe.
    pub open spec fn with_head(self, term_ptr: TermPtr) -> NetModel {
        NetModel { head: self.head.push(term_ptr), ..self }
    }

    /// The net with one more wire, unset, in the next slot.
    pub open spec fn with_var(self) -> NetModel {
        NetModel { arena: self.arena.allocate(Some(Term::Var(Var::holding(None)))), ..self }
    }

    /// The net with one more agent, in the next slot.
    pub open spec fn with_cell(self, cell: Cell) -> NetModel {
        NetModel { arena: self.arena.allocate(Some(Term::Cell(cell))), ..self }
    }

    /// The net with one more equation, after those it has.
    pub open spec fn with_eqn(self, left: TermPtr, right: TermPtr) -> NetModel {
        NetModel { body: self.body.push((left, right)), ..self }
    }

    /// The reference to the slot that the next allocation hands out.
    pub open spec fn next(self) -> TermPtr {
        TermPtr::Ptr(self.arena.next())
    }
}

#[derive(Debug)]
pub struct Net {
    pub head: Vec<TermPtr>,
    pub body: Vec<(TermPtr, TermPtr)>,
    pub store: Store,
}

impl View for Net {
    type V = NetModel;

    open spec fn view(&self) -> NetModel {
        NetModel { arena: self.store@, head: self.head@, body: self.body@ }
    }
}

impl Net {
    /// An empty net over an arena of the default capacity.
    pub fn new() -> (net: Net)
        ensures
            net.store.wf(),
            net@.head == Seq::<TermPtr>::empty(),
            net@.body == Seq::<(TermPtr, TermPtr)>::empty(),
            net@.arena == (Arena {
                slots: Seq::empty(),
                live: 0,
                capacity: Store::DEFAULT_CAPACITY as nat,
            }),
    {
        Net { head: Vec::new(), body: Vec::new(), store: Store::new() }
    }

    /// An empty net over an arena of the given capacity.
    pub fn with_capacity(capacity: u32) -> (net: Net)
        ensures
            net.store.wf(),
            net@.head == Seq::<TermPtr>::empty(),
            net@.body == Seq::<(TermPtr, TermPtr)>::empty(),
            net@.arena == (Arena { slots: Seq::empty(), live: 0, capacity: capacity as nat }),
    {
        Net { head: Vec::new(), body: Vec::new(), store: Store::with_capacity(capacity) }
    }
}

/// The construction interface of a net.
pub trait NetBuilder {
    /// The net built so far.
    spec fn model(&self) -> NetModel;

    /// The builder's arena is well formed.
    spec fn wf(&self) -> bool;

    /// Adds a term to those that an observer reads.
    fn head<T: IntoTermPtr>(&mut self, term_ref: T)
        requires
            old(self).wf(),
        ensures
            final(self).wf(),
            final(self).model() == old(self).model().with_head(term_ref.term_ptr()),
    ;

    /// Hands out a fresh wire and returns its two ends.
    fn var(&mut self) -> (ends: (VarUse, VarUse))
        requires
            old(self).wf(),
            old(self).model().arena.has_room(1),
        ensures
            final(self).wf(),
            final(self).model() == old(self).model().with_var(),
            ends.0.ptr == old(self).model().arena.next(),
            ends.1.ptr == old(self).model().arena.next(),
    ;

    /// Builds a lambda with the given ports.
    fn lam<T1: IntoTermPtr, T2: IntoTermPtr>(&mut self, binding: T1, body: T2) -> (term: TermPtr)
        requires
            old(self).wf(),
            old(self).model().arena.has_room(1),
        ensures
            final(self).wf(),
            final(self).model() == old(self).model().with_cell(
                Cell::Lam(Some((binding.term_ptr(), body.term_ptr()))),
            ),
            term == old(self).model().next(),
    ;

    /// Builds an application with the given ports.
    fn app<T1: IntoTermPtr, T2: IntoTermPtr>(&mut self, result: T1, arg: T2) -> (term: TermPtr)
        requires
            old(self).wf(),
            old(self).model().arena.has_room(1),
        ensures
            final(self).wf(),
            final(self).model() == old(self).model().with_cell(
                Cell::App(Some((result.term_ptr(), arg.term_ptr()))),
            ),
            term == old(self).model().next(),
    ;

    /// Builds a duplicator without a label with the given ports.
    fn dup<T1: IntoTermPtr, T2: IntoTermPtr>(&mut self, left: T1, right: T2) -> (term: TermPtr)
        requires
            old(self).wf(),
            old(self).model().arena.has_room(1),
        ensures
            final(self).wf(),
            final(self).model() == old(self).model().with_cell(
                Cell::Dup(Some((left.term_ptr(), right.term_ptr())), None),
            ),
            term == old(self).model().next(),
    ;

    /// Builds a duplicator with the given label and ports.
    fn dup_with_label<T1: IntoTermPtr, T2: IntoTermPtr>(
        &mut self,
        left: T1,
        right: T2,
        label: Ptr,
    ) -> (term: TermPtr)
        requires
            old(self).wf(),
            old(self).model().arena.has_room(1),
        ensures
            final(self).wf(),
            final(self).model() == old(self).model().with_cell(
                Cell::Dup(Some((left.term_ptr(), right.term_ptr())), Some(label)),
            ),
            term == old(self).model().next(),
    ;

    /// The eraser. It takes no slot.
    fn era(&mut self) -> (term: TermPtr)
        ensures
            term == TermPtr::Era,
            final(self).model() == old(self).model(),
            final(self).wf() == old(self).wf(),
    ;

    /// Adds an equation after those that the net has.
    fn eqn<T1: IntoTermPtr, T2: IntoTermPtr>(&mut self, left: T1, right: T2)
        requires
            old(self).wf(),
        ensures
            final(self).wf(),
            final(self).model() == old(self).model().with_eqn(left.term_ptr(), right.term_ptr()),
    ;
}

impl NetBuilder for Net {
    open spec fn model(&self) -> NetModel {
        self@
    }

    open spec fn wf(&self) -> bool {
        self.store.wf()
    }

    fn head<T: IntoTermPtr>(&mut self, term_ptr: T) {
        self.head.push(term_ptr.into_term_ptr());
    }

    fn var(&mut self) -> (ends: (VarUse, VarUse)) {
        let var_ptr = self.store.allocate(Some(Term::Var(Var::new())));
        let var_port_0 = VarUse::new(var_ptr);
        let var_port_1 = VarUse::new(var_ptr);
        (var_port_0, var_port_1)
    }

    fn lam<T1: IntoTermPtr, T2: IntoTermPtr>(&mut self, binding: T1, body: T2) -> (term: TermPtr) {
        let lam = Cell::Lam(Some((binding.into_term_ptr(), body.into_term_ptr())));
        let cell_ptr = self.store.allocate(Some(Term::Cell(lam)));
        TermPtr::Ptr(cell_ptr)
    }

    fn app<T1: IntoTermPtr, T2: IntoTermPtr>(&mut self, lam: T1, arg: T2) -> (term: TermPtr) {
        let app = Cell::App(Some((lam.into_term_ptr(), arg.into_term_ptr())));
        let cell_ptr = self.store.allocate(Some(Term::Cell(app)));
        TermPtr::Ptr(cell_ptr)
    }

    fn dup<T1: IntoTermPtr, T2: IntoTermPtr>(&mut self, left: T1, right: T2) -> (term: TermPtr) {
        let dup = Cell::Dup(Some((left.into_term_ptr(), right.into_term_ptr())), None);
        let cell_ptr = self.store.allocate(Some(Term::Cell(dup)));
        TermPtr::Ptr(cell_ptr)
    }

    fn dup_with_label<T1: IntoTermPtr, T2: IntoTermPtr>(
        &mut self,
        left: T1,
        right: T2,
        label: Ptr,
    ) -> (term: TermPtr) {
        let dup = Cell::Dup(Some((left.into_term_ptr(), right.into_term_ptr())), Some(label));
        let cell_ptr = self.store.allocate(Some(Term::Cell(dup)));
        TermPtr::Ptr(cell_ptr)
    }

    fn era(&mut self) -> (term: TermPtr) {
        TermPtr::Era
    }

    fn eqn<T1: IntoTermPtr, T2: IntoTermPtr>(&mut self, left: T1, right: T2) {
        self.body.push((left.into_term_ptr(), right.into_term_ptr()));
    }
}

} // verus!
