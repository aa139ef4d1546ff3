//! Building a net from its textual syntax.
//!
//! The text is read to trees first; only if all of it reads as a book and
//! the arena has room are the trees built into the net. Each name stands for
//! one wire: its first use hands the wire out and its second use takes the
//! other end.

use vstd::prelude::*;
use vstd::string::StringSliceAdditionalSpecFns;

use super::net::Net;
use super::net::NetBuilder;
use super::net::NetModel;
use super::store::Ptr;
use super::syntax::book;
use super::syntax::def;
use super::syntax::eqn;
use super::syntax::eqns;
use super::syntax::head;
use super::syntax::models;
use super::syntax::read_book;
use super::syntax::read_def;
use super::syntax::read_eqn;
use super::syntax::read_eqns;
use super::syntax::read_head;
use super::syntax::read_term;
use super::syntax::skip_spaces;
use super::syntax::spaces;
use super::syntax::term;
use super::syntax::well_ranged;
use super::syntax::ranged_defs;
use super::syntax::ranged_eqns;
use super::syntax::ranged_trees;
use super::syntax::Def;
use super::syntax::DefModel;
use super::syntax::Tree;
use super::term::Cell;
use super::term::TermPtr;
use super::var::VarUse;

verus! {

/// The names that have been used once, each with the end of its wire that
/// is still free.
pub type Uses = Seq<(Seq<u8>, Ptr)>;

/// What the parser keeps between terms.
pub struct ParserState {
    pub vars: Vec<(Vec<u8>, VarUse)>,
    pub defs: Vec<(Vec<u8>, u32)>,
}

/// A net under construction together with the names in use.
pub struct Draft {
    pub net: NetModel,
    pub uses: Uses,
}

/// The position of the first use of a name at or after `from`, if there is
/// one.
pub open spec fn find(uses: Uses, name: Seq<u8>, from: int) -> Option<int>
    decreases uses.len() - from,
{
    if from < 0 || from >= uses.len() {
        None
    } else if uses[from].0 == name {
        Some(from)
    } else {
        find(uses, name, from + 1)
    }
}

/// An upper bound on the slots that building a tree takes: one for each
/// name and one for each agent.
pub open spec fn slots(tree: Tree) -> nat
    decreases tree,
{
    match tree {
        Tree::Var(_, _) => 1,
        Tree::Era => 0,
        Tree::Lam(left, right) => 1 + slots(*left) + slots(*right),
        Tree::App(left, right) => 1 + slots(*left) + slots(*right),
    }
}

/// The slots that building the trees takes at most.
pub open spec fn slots_of(trees: Seq<Tree>) -> nat
    decreases trees.len(),
{
    if trees.len() == 0 {
        0
    } else {
        slots_of(trees.drop_last()) + slots(trees.last())
    }
}

/// The slots that building the equations takes at most.
pub open spec fn slots_of_eqns(equations: Seq<(Tree, Tree)>) -> nat
    decreases equations.len(),
{
    if equations.len() == 0 {
        0
    } else {
        slots_of_eqns(equations.drop_last()) + slots(equations.last().0) + slots(
            equations.last().1,
        )
    }
}

/// The slots that building the definitions takes at most.
pub open spec fn slots_of_defs(defs: Seq<DefModel>) -> nat
    decreases defs.len(),
{
    if defs.len() == 0 {
        0
    } else {
        slots_of_defs(defs.drop_last()) + slots_of(defs.last().head) + slots_of_eqns(
            defs.last().eqns,
        )
    }
}

impl Draft {
    /// Builds a term: a name that is in use gives the free end of its wire
    /// and is in use no more; a name that is not hands out a wire; the
    /// eraser takes no slot; an agent is built after its two ports.
    pub open spec fn term(self, s: Seq<u8>, tree: Tree) -> (Draft, TermPtr)
        decreases tree,
    {
        match tree {
            Tree::Var(from, to) => {
                let name = s.subrange(from as int, to as int);
                match find(self.uses, name, 0) {
                    Some(at) => (
                        Draft { uses: self.uses.remove(at), ..self },
                        TermPtr::Ptr(self.uses[at].1),
                    ),
                    None => (
                        Draft {
                            net: self.net.with_var(),
                            uses: self.uses.push((name, self.net.arena.next())),
                        },
                        self.net.next(),
                    ),
                }
            },
            Tree::Era => (self, TermPtr::Era),
            Tree::Lam(left, right) => {
                let (first, binding) = self.term(s, *left);
                let (second, body) = first.term(s, *right);
                (
                    Draft { net: second.net.with_cell(Cell::Lam(Some((binding, body)))), ..second },
                    second.net.next(),
                )
            },
            Tree::App(left, right) => {
                let (first, result) = self.term(s, *left);
                let (second, arg) = first.term(s, *right);
                (
                    Draft { net: second.net.with_cell(Cell::App(Some((result, arg)))), ..second },
                    second.net.next(),
                )
            },
        }
    }

    /// Builds the two terms of an equation, the left one first.
    pub open spec fn pair(self, s: Seq<u8>, left: Tree, right: Tree) -> (Draft, (TermPtr, TermPtr)) {
        let (first, left_ptr) = self.term(s, left);
        let (second, right_ptr) = first.term(s, right);
        (second, (left_ptr, right_ptr))
    }

    /// Builds equations and adds each to the body when it is built.
    pub open spec fn eqns(self, s: Seq<u8>, equations: Seq<(Tree, Tree)>) -> Draft
        decreases equations.len(),
    {
        if equations.len() == 0 {
            self
        } else {
            let before = self.eqns(s, equations.drop_last());
            let (built, (left, right)) = before.pair(s, equations.last().0, equations.last().1);
            Draft { net: built.net.with_eqn(left, right), ..built }
        }
    }

    /// Builds terms, one after the other.
    pub open spec fn terms(self, s: Seq<u8>, trees: Seq<Tree>) -> (Draft, Seq<TermPtr>)
        decreases trees.len(),
    {
        if trees.len() == 0 {
            (self, Seq::empty())
        } else {
            let (before, ptrs) = self.terms(s, trees.drop_last());
            let (built, ptr) = before.term(s, trees.last());
            (built, ptrs.push(ptr))
        }
    }

    /// Builds the terms of a head and then adds them to the head of the
    /// net.
    pub open spec fn head(self, s: Seq<u8>, trees: Seq<Tree>) -> Draft {
        let (built, ptrs) = self.terms(s, trees);
        Draft { net: NetModel { head: built.net.head + ptrs, ..built.net }, ..built }
    }

    /// Builds a definition: its head, then its equations.
    pub open spec fn def(self, s: Seq<u8>, def: DefModel) -> Draft {
        self.head(s, def.head).eqns(s, def.eqns)
    }

    /// Builds definitions, one after the other.
    pub open spec fn defs(self, s: Seq<u8>, defs: Seq<DefModel>) -> Draft
        decreases defs.len(),
    {
        if defs.len() == 0 {
            self
        } else {
            self.defs(s, defs.drop_last()).def(s, defs.last())
        }
    }

    /// The arena is well formed and has room for `n` more slots.
    pub open spec fn roomy(self, n: nat) -> bool {
        self.net.arena.wf() && self.net.arena.has_room(n)
    }
}

/// Building a term takes no more slots than the bound says, and leaves the
/// head and the body of the net as they are.
pub proof fn lemma_term_slots(draft: Draft, s: Seq<u8>, tree: Tree)
    requires
        draft.net.arena.wf(),
        draft.net.arena.has_room(slots(tree)),
    ensures
        draft.term(s, tree).0.net.arena.wf(),
        draft.net.arena.slots.len() <= draft.term(s, tree).0.net.arena.slots.len()
            <= draft.net.arena.slots.len() + slots(tree),
        draft.term(s, tree).0.net.arena.capacity == draft.net.arena.capacity,
        draft.term(s, tree).0.net.head == draft.net.head,
        draft.term(s, tree).0.net.body == draft.net.body,
    decreases tree,
{
    match tree {
        Tree::Var(from, to) => {
            draft.net.arena.lemma_allocate_wf(
                Some(super::term::Term::Var(super::var::Var::holding(None))),
            );
        },
        Tree::Era => {},
        Tree::Lam(left, right) => {
            lemma_term_slots(draft, s, *left);
            let (first, binding) = draft.term(s, *left);
            lemma_term_slots(first, s, *right);
            let (second, body) = first.term(s, *right);
            second.net.arena.lemma_allocate_wf(
                Some(super::term::Term::Cell(Cell::Lam(Some((binding, body))))),
            );
        },
        Tree::App(left, right) => {
            lemma_term_slots(draft, s, *left);
            let (first, result) = draft.term(s, *left);
            lemma_term_slots(first, s, *right);
            let (second, arg) = first.term(s, *right);
            second.net.arena.lemma_allocate_wf(
                Some(super::term::Term::Cell(Cell::App(Some((result, arg))))),
            );
        },
    }
}

impl ParserState {
    /// The names in use as values.
    pub open spec fn uses(&self) -> Uses {
        self.vars@.map_values(|entry: (Vec<u8>, VarUse)| (entry.0@, entry.1.ptr))
    }

    /// A state in which no name is in use and no definition is noted.
    pub fn new() -> (state: ParserState)
        ensures
            state.uses() == Seq::<(Seq<u8>, Ptr)>::empty(),
            state.vars@ == Seq::<(Vec<u8>, VarUse)>::empty(),
            state.defs@ == Seq::<(Vec<u8>, u32)>::empty(),
    {
        let state = ParserState { vars: Vec::new(), defs: Vec::new() };
        assert(state.uses() =~= Seq::<(Seq<u8>, Ptr)>::empty());
        state
    }

    /// How many names are in use.
    pub fn len(&self) -> (len: usize)
        ensures
            len == self.uses().len(),
    {
        self.vars.len()
    }

    /// Whether the name is in use.
    pub fn contains_key(&self, name: &str) -> (found: bool)
        ensures
            found == find(self.uses(), name.spec_bytes(), 0).is_some(),
    {
        let bytes = name.as_bytes();
        assert(bytes@.subrange(0, bytes@.len() as int) =~= bytes@);
        self.position(bytes, 0, bytes.len()).is_some()
    }

    /// The position of the first use of the name that the range of bytes
    /// spells.
    pub fn position(&self, s: &[u8], from: usize, to: usize) -> (at: Option<usize>)
        requires
            from <= to <= s@.len(),
        ensures
            match (at, find(self.uses(), s@.subrange(from as int, to as int), 0)) {
                (Some(found), Some(expected)) => found == expected && found < self.vars@.len(),
                (None, None) => true,
                _ => false,
            },
    {
        let ghost name = s@.subrange(from as int, to as int);
        let mut i: usize = 0;
        while i < self.vars.len()
            invariant
                0 <= i <= self.vars@.len(),
                from <= to <= s@.len(),
                name == s@.subrange(from as int, to as int),
                find(self.uses(), name, 0) == find(self.uses(), name, i as int),
            decreases self.vars@.len() - i,
        {
            if same_bytes(&self.vars[i].0, s, from, to) {
                return Some(i);
            }
            i = i + 1;
        }
        None
    }
}

/// Whether the bytes are those of the range.
pub fn same_bytes(name: &Vec<u8>, s: &[u8], from: usize, to: usize) -> (same: bool)
    requires
        from <= to <= s@.len(),
    ensures
        same == (name@ == s@.subrange(from as int, to as int)),
{
    if name.len() != to - from {
        return false;
    }
    let mut i: usize = 0;
    while i < name.len()
        invariant
            from <= to <= s@.len(),
            name@.len() == to - from,
            0 <= i <= name@.len(),
            forall|k: int| 0 <= k < i ==> name@[k] == s@[from + k],
        decreases name@.len() - i,
    {
        if name[i] != s[from + i] {
            assert(s@.subrange(from as int, to as int)[i as int] == s@[from + i]);
            return false;
        }
        i = i + 1;
    }
    assert(name@ =~= s@.subrange(from as int, to as int));
    true
}

/// The bytes of the range.
pub fn copy_bytes(s: &[u8], from: usize, to: usize) -> (name: Vec<u8>)
    requires
        from <= to <= s@.len(),
    ensures
        name@ == s@.subrange(from as int, to as int),
{
    let mut name: Vec<u8> = Vec::new();
    let mut i = from;
    while i < to
        invariant
            from <= i <= to <= s@.len(),
            name@ =~= s@.subrange(from as int, i as int),
        decreases to - i,
    {
        name.push(s[i]);
        i = i + 1;
    }
    name
}

/// The draft that a net and a parser state stand for.
pub open spec fn draft(net: Net, state: ParserState) -> Draft {
    Draft { net: net@, uses: state.uses() }
}

/// Builds a term into the net.
pub fn build_term(s: &[u8], tree: &Tree, net: &mut Net, state: &mut ParserState) -> (term_ptr:
    TermPtr)
    requires
        old(net).store.wf(),
        draft(*old(net), *old(state)).roomy(slots(*tree)),
        well_ranged(*tree, s@.len()),
    ensures
        final(net).store.wf(),
        (draft(*final(net), *final(state)), term_ptr) == draft(*old(net), *old(state)).term(s@, *tree),
        final(state).defs == old(state).defs,
    decreases *tree,
{
    proof {
        old(net).store.lemma_wf();
    }
    match tree {
        Tree::Var(from, to) => {
            match state.position(s, *from, *to) {
                Some(at) => {
                    let entry = state.vars.remove(at);
                    assert(state.uses() =~= old(state).uses().remove(at as int));
                    TermPtr::Ptr(entry.1.ptr())
                },
                None => {
                    let ends = net.var();
                    let name = copy_bytes(s, *from, *to);
                    state.vars.push((name, ends.0));
                    assert(state.uses() =~= old(state).uses().push((name@, ends.0.ptr)));
                    TermPtr::Ptr(ends.1.ptr())
                },
            }
        },
        Tree::Era => net.era(),
        Tree::Lam(left, right) => {
            proof {
                lemma_term_slots(draft(*net, *state), s@, **left);
            }
            let binding = build_term(s, left, net, state);
            proof {
                lemma_term_slots(draft(*net, *state), s@, **right);
            }
            let body = build_term(s, right, net, state);
            net.lam(binding, body)
        },
        Tree::App(left, right) => {
            proof {
                lemma_term_slots(draft(*net, *state), s@, **left);
            }
            let result = build_term(s, left, net, state);
            proof {
                lemma_term_slots(draft(*net, *state), s@, **right);
            }
            let arg = build_term(s, right, net, state);
            net.app(result, arg)
        },
    }
}

/// From one draft to a later one at most `n` slots were handed out, and
/// the arena is well formed and of the same capacity.
pub open spec fn within(before: Draft, after: Draft, n: nat) -> bool {
    &&& after.net.arena.wf()
    &&& after.net.arena.capacity == before.net.arena.capacity
    &&& before.net.arena.slots.len() <= after.net.arena.slots.len() <= before.net.arena.slots.len()
        + n
}

/// The bound for a prefix of the trees is no more than the bound for all.
pub proof fn lemma_slots_of_prefix(trees: Seq<Tree>, i: int)
    requires
        0 <= i <= trees.len(),
    ensures
        slots_of(trees.take(i)) <= slots_of(trees),
        i < trees.len() ==> slots_of(trees.take(i + 1)) == slots_of(trees.take(i)) + slots(trees[i]),
    decreases trees.len(),
{
    if i < trees.len() {
        assert(trees.take(i + 1).drop_last() =~= trees.take(i));
        if i + 1 < trees.len() {
            lemma_slots_of_prefix(trees.drop_last(), i + 1);
            assert(trees.drop_last().take(i + 1) =~= trees.take(i + 1));
        } else {
            assert(trees.take(i + 1) =~= trees);
        }
    } else {
        assert(trees.take(i) =~= trees);
    }
}

/// The bound for a prefix of the equations is no more than the bound for
/// all.
pub proof fn lemma_slots_of_eqns_prefix(equations: Seq<(Tree, Tree)>, i: int)
    requires
        0 <= i <= equations.len(),
    ensures
        slots_of_eqns(equations.take(i)) <= slots_of_eqns(equations),
        i < equations.len() ==> slots_of_eqns(equations.take(i + 1)) == slots_of_eqns(
            equations.take(i),
        ) + slots(equations[i].0) + slots(equations[i].1),
    decreases equations.len(),
{
    if i < equations.len() {
        assert(equations.take(i + 1).drop_last() =~= equations.take(i));
        if i + 1 < equations.len() {
            lemma_slots_of_eqns_prefix(equations.drop_last(), i + 1);
            assert(equations.drop_last().take(i + 1) =~= equations.take(i + 1));
        } else {
            assert(equations.take(i + 1) =~= equations);
        }
    } else {
        assert(equations.take(i) =~= equations);
    }
}

/// The bound for a prefix of the definitions is no more than the bound for
/// all.
pub proof fn lemma_slots_of_defs_prefix(defs: Seq<DefModel>, i: int)
    requires
        0 <= i <= defs.len(),
    ensures
        slots_of_defs(defs.take(i)) <= slots_of_defs(defs),
        i < defs.len() ==> slots_of_defs(defs.take(i + 1)) == slots_of_defs(defs.take(i))
            + slots_of(defs[i].head) + slots_of_eqns(defs[i].eqns),
    decreases defs.len(),
{
    if i < defs.len() {
        assert(defs.take(i + 1).drop_last() =~= defs.take(i));
        if i + 1 < defs.len() {
            lemma_slots_of_defs_prefix(defs.drop_last(), i + 1);
            assert(defs.drop_last().take(i + 1) =~= defs.take(i + 1));
        } else {
            assert(defs.take(i + 1) =~= defs);
        }
    } else {
        assert(defs.take(i) =~= defs);
    }
}

/// A count that stops at the largest `u64`.
pub open spec fn capped(n: nat) -> u64 {
    if n >= u64::MAX {
        u64::MAX
    } else {
        n as u64
    }
}

/// Adds two counts and stops at the largest `u64`.
pub fn add_capped(a: u64, b: u64) -> (sum: u64)
    ensures
        sum == capped((a + b) as nat),
{
    if a > u64::MAX - b {
        u64::MAX
    } else {
        a + b
    }
}

/// The bound on the slots that building the tree takes.
pub fn count_tree(tree: &Tree) -> (n: u64)
    ensures
        n == capped(slots(*tree)),
    decreases *tree,
{
    match tree {
        Tree::Var(_, _) => 1,
        Tree::Era => 0,
        Tree::Lam(left, right) => {
            let l = count_tree(left);
            let r = count_tree(right);
            let both = add_capped(l, r);
            add_capped(1, both)
        },
        Tree::App(left, right) => {
            let l = count_tree(left);
            let r = count_tree(right);
            let both = add_capped(l, r);
            add_capped(1, both)
        },
    }
}

/// The bound on the slots that building the trees takes.
pub fn count_trees(trees: &Vec<Tree>) -> (n: u64)
    ensures
        n == capped(slots_of(trees@)),
{
    let mut n: u64 = 0;
    let mut i: usize = 0;
    while i < trees.len()
        invariant
            0 <= i <= trees@.len(),
            n == capped(slots_of(trees@.take(i as int))),
        decreases trees@.len() - i,
    {
        proof {
            lemma_slots_of_prefix(trees@, i as int);
        }
        let one = count_tree(&trees[i]);
        n = add_capped(n, one);
        i = i + 1;
    }
    assert(trees@.take(trees@.len() as int) =~= trees@);
    n
}

/// The bound on the slots that building the equations takes.
pub fn count_eqns(equations: &Vec<(Tree, Tree)>) -> (n: u64)
    ensures
        n == capped(slots_of_eqns(equations@)),
{
    let mut n: u64 = 0;
    let mut i: usize = 0;
    while i < equations.len()
        invariant
            0 <= i <= equations@.len(),
            n == capped(slots_of_eqns(equations@.take(i as int))),
        decreases equations@.len() - i,
    {
        proof {
            lemma_slots_of_eqns_prefix(equations@, i as int);
        }
        let left = count_tree(&equations[i].0);
        let right = count_tree(&equations[i].1);
        let ghost before = slots_of_eqns(equations@.take(i as int));
        n = add_capped(n, left);
        n = add_capped(n, right);
        i = i + 1;
    }
    assert(equations@.take(equations@.len() as int) =~= equations@);
    n
}

/// The bound on the slots that building the definitions takes.
pub fn count_defs(defs: &Vec<Def>) -> (n: u64)
    ensures
        n == capped(slots_of_defs(models(defs@))),
{
    let mut n: u64 = 0;
    let mut i: usize = 0;
    while i < defs.len()
        invariant
            0 <= i <= defs@.len(),
            n == capped(slots_of_defs(models(defs@).take(i as int))),
        decreases defs@.len() - i,
    {
        proof {
            lemma_slots_of_defs_prefix(models(defs@), i as int);
        }
        let head = count_trees(&defs[i].head);
        let body = count_eqns(&defs[i].eqns);
        let ghost before = slots_of_defs(models(defs@).take(i as int));
        n = add_capped(n, head);
        n = add_capped(n, body);
        i = i + 1;
    }
    assert(models(defs@).take(defs@.len() as int) =~= models(defs@));
    n
}

/// Whether the arena of the net has room for as many slots as the capped
/// count says.
pub fn room_for(net: &Net, n: u64) -> (room: bool)
    requires
        net.store.wf(),
    ensures
        room == net@.arena.has_room(n as nat),
        forall|m: nat| n == capped(m) ==> room == net@.arena.has_room(m),
{
    proof {
        net.store.lemma_wf();
    }
    if n > u32::MAX as u64 {
        false
    } else {
        net.store.has_room(n as u32)
    }
}

/// Building equations takes no more slots than the bound says.
pub proof fn lemma_eqns_within(draft: Draft, s: Seq<u8>, equations: Seq<(Tree, Tree)>)
    requires
        draft.roomy(slots_of_eqns(equations)),
    ensures
        within(draft, draft.eqns(s, equations), slots_of_eqns(equations)),
        draft.eqns(s, equations).net.head == draft.net.head,
    decreases equations.len(),
{
    if equations.len() > 0 {
        lemma_eqns_within(draft, s, equations.drop_last());
        let before = draft.eqns(s, equations.drop_last());
        lemma_term_slots(before, s, equations.last().0);
        lemma_term_slots(before.term(s, equations.last().0).0, s, equations.last().1);
    }
}

/// Building terms takes no more slots than the bound says.
pub proof fn lemma_terms_within(draft: Draft, s: Seq<u8>, trees: Seq<Tree>)
    requires
        draft.roomy(slots_of(trees)),
    ensures
        within(draft, draft.terms(s, trees).0, slots_of(trees)),
        draft.terms(s, trees).0.net.head == draft.net.head,
        draft.terms(s, trees).0.net.body == draft.net.body,
        draft.terms(s, trees).1.len() == trees.len(),
    decreases trees.len(),
{
    if trees.len() > 0 {
        lemma_terms_within(draft, s, trees.drop_last());
        lemma_term_slots(draft.terms(s, trees.drop_last()).0, s, trees.last());
    }
}

/// Building definitions takes no more slots than the bound says.
pub proof fn lemma_defs_within(draft: Draft, s: Seq<u8>, defs: Seq<DefModel>)
    requires
        draft.roomy(slots_of_defs(defs)),
    ensures
        within(draft, draft.defs(s, defs), slots_of_defs(defs)),
    decreases defs.len(),
{
    if defs.len() > 0 {
        lemma_defs_within(draft, s, defs.drop_last());
        let before = draft.defs(s, defs.drop_last());
        lemma_terms_within(before, s, defs.last().head);
        lemma_eqns_within(before.head(s, defs.last().head), s, defs.last().eqns);
    }
}

/// Builds the two terms of an equation into the net, the left one first.
pub fn build_pair(s: &[u8], left: &Tree, right: &Tree, net: &mut Net, state: &mut ParserState) -> (pair:
    (TermPtr, TermPtr))
    requires
        old(net).store.wf(),
        draft(*old(net), *old(state)).roomy(slots(*left) + slots(*right)),
        well_ranged(*left, s@.len()),
        well_ranged(*right, s@.len()),
    ensures
        final(net).store.wf(),
        (draft(*final(net), *final(state)), pair) == draft(*old(net), *old(state)).pair(
            s@,
            *left,
            *right,
        ),
        final(state).defs == old(state).defs,
{
    proof {
        lemma_term_slots(draft(*net, *state), s@, *left);
    }
    let left_ptr = build_term(s, left, net, state);
    let right_ptr = build_term(s, right, net, state);
    (left_ptr, right_ptr)
}

/// Builds equations into the net and adds each to the body when it is
/// built.
pub fn build_eqns(s: &[u8], equations: &Vec<(Tree, Tree)>, net: &mut Net, state: &mut ParserState)
    requires
        old(net).store.wf(),
        draft(*old(net), *old(state)).roomy(slots_of_eqns(equations@)),
        ranged_eqns(equations@, s@.len()),
    ensures
        final(net).store.wf(),
        draft(*final(net), *final(state)) == draft(*old(net), *old(state)).eqns(s@, equations@),
        final(state).defs == old(state).defs,
{
    let ghost first = draft(*net, *state);
    let mut i: usize = 0;
    while i < equations.len()
        invariant
            0 <= i <= equations@.len(),
            net.store.wf(),
            first.roomy(slots_of_eqns(equations@)),
            ranged_eqns(equations@, s@.len()),
            draft(*net, *state) == first.eqns(s@, equations@.take(i as int)),
            state.defs == old(state).defs,
        decreases equations@.len() - i,
    {
        proof {
            lemma_slots_of_eqns_prefix(equations@, i as int);
            if i + 1 < equations@.len() {
                lemma_slots_of_eqns_prefix(equations@, i + 1);
            } else {
                assert(equations@.take(i + 1) =~= equations@);
            }
            lemma_eqns_within(first, s@, equations@.take(i as int));
            assert(equations@.take(i + 1).drop_last() =~= equations@.take(i as int));
        }
        let (left, right) = build_pair(s, &equations[i].0, &equations[i].1, net, state);
        net.eqn(left, right);
        i = i + 1;
    }
    assert(equations@.take(equations@.len() as int) =~= equations@);
}

/// Builds the terms of a head into the net and then adds them to its head.
pub fn build_head(s: &[u8], trees: &Vec<Tree>, net: &mut Net, state: &mut ParserState)
    requires
        old(net).store.wf(),
        draft(*old(net), *old(state)).roomy(slots_of(trees@)),
        ranged_trees(trees@, s@.len()),
    ensures
        final(net).store.wf(),
        draft(*final(net), *final(state)) == draft(*old(net), *old(state)).head(s@, trees@),
        final(state).defs == old(state).defs,
{
    let ghost first = draft(*net, *state);
    let mut ptrs: Vec<TermPtr> = Vec::new();
    let mut i: usize = 0;
    while i < trees.len()
        invariant
            0 <= i <= trees@.len(),
            net.store.wf(),
            first.roomy(slots_of(trees@)),
            ranged_trees(trees@, s@.len()),
            (draft(*net, *state), ptrs@) == first.terms(s@, trees@.take(i as int)),
            state.defs == old(state).defs,
        decreases trees@.len() - i,
    {
        proof {
            lemma_slots_of_prefix(trees@, i as int);
            if i + 1 < trees@.len() {
                lemma_slots_of_prefix(trees@, i + 1);
            } else {
                assert(trees@.take(i + 1) =~= trees@);
            }
            lemma_terms_within(first, s@, trees@.take(i as int));
            assert(trees@.take(i + 1).drop_last() =~= trees@.take(i as int));
        }
        let ptr = build_term(s, &trees[i], net, state);
        ptrs.push(ptr);
        i = i + 1;
    }
    assert(trees@.take(trees@.len() as int) =~= trees@);
    let ghost built = draft(*net, *state);
    let mut k: usize = 0;
    while k < ptrs.len()
        invariant
            0 <= k <= ptrs@.len(),
            net.store.wf(),
            state.uses() == built.uses,
            net@.arena == built.net.arena,
            net@.body == built.net.body,
            net@.head == built.net.head + ptrs@.take(k as int),
            state.defs == old(state).defs,
        decreases ptrs@.len() - k,
    {
        assert(ptrs@.take(k + 1) =~= ptrs@.take(k as int).push(ptrs@[k as int]));
        assert(built.net.head + ptrs@.take(k + 1) =~= (built.net.head + ptrs@.take(k as int)).push(
            ptrs@[k as int],
        ));
        net.head(ptrs[k]);
        k = k + 1;
    }
    assert(ptrs@.take(ptrs@.len() as int) =~= ptrs@);
}

/// Builds a definition into the net: its head, then its equations.
pub fn build_def(s: &[u8], def: &Def, net: &mut Net, state: &mut ParserState)
    requires
        old(net).store.wf(),
        draft(*old(net), *old(state)).roomy(slots_of(def@.head) + slots_of_eqns(def@.eqns)),
        ranged_trees(def@.head, s@.len()),
        ranged_eqns(def@.eqns, s@.len()),
    ensures
        final(net).store.wf(),
        draft(*final(net), *final(state)) == draft(*old(net), *old(state)).def(s@, def@),
        final(state).defs == old(state).defs,
{
    proof {
        lemma_terms_within(draft(*net, *state), s@, def@.head);
    }
    build_head(s, &def.head, net, state);
    build_eqns(s, &def.eqns, net, state);
}

/// Builds definitions into the net, one after the other.
pub fn build_defs(s: &[u8], defs: &Vec<Def>, net: &mut Net, state: &mut ParserState)
    requires
        old(net).store.wf(),
        draft(*old(net), *old(state)).roomy(slots_of_defs(models(defs@))),
        ranged_defs(models(defs@), s@.len()),
    ensures
        final(net).store.wf(),
        draft(*final(net), *final(state)) == draft(*old(net), *old(state)).defs(s@, models(defs@)),
        final(state).defs == old(state).defs,
{
    let ghost first = draft(*net, *state);
    let ghost all = models(defs@);
    let mut i: usize = 0;
    while i < defs.len()
        invariant
            0 <= i <= defs@.len(),
            all == models(defs@),
            net.store.wf(),
            first.roomy(slots_of_defs(all)),
            ranged_defs(all, s@.len()),
            draft(*net, *state) == first.defs(s@, all.take(i as int)),
            state.defs == old(state).defs,
        decreases defs@.len() - i,
    {
        proof {
            lemma_slots_of_defs_prefix(all, i as int);
            if i + 1 < all.len() {
                lemma_slots_of_defs_prefix(all, i + 1);
            } else {
                assert(all.take(i + 1) =~= all);
            }
            lemma_defs_within(first, s@, all.take(i as int));
            assert(all.take(i + 1).drop_last() =~= all.take(i as int));
            assert(all[i as int] == defs@[i as int]@);
        }
        build_def(s, &defs[i], net, state);
        i = i + 1;
    }
    assert(all.take(all.len() as int) =~= all);
}

/// The term that all the bytes spell, if they spell one.
pub open spec fn whole_term(s: Seq<u8>) -> Option<Tree> {
    match term(s, 0) {
        Some((tree, end)) => if spaces(s, end) == s.len() {
            Some(tree)
        } else {
            None
        },
        None => None,
    }
}

/// The equation that all the bytes spell, if they spell one.
pub open spec fn whole_eqn(s: Seq<u8>) -> Option<(Tree, Tree)> {
    match eqn(s, 0) {
        Some((pair, end)) => if spaces(s, end) == s.len() {
            Some(pair)
        } else {
            None
        },
        None => None,
    }
}

/// The equations that all the bytes spell, if they spell any.
pub open spec fn whole_eqns(s: Seq<u8>) -> Option<Seq<(Tree, Tree)>> {
    match eqns(s, 0) {
        Some((equations, end)) => if spaces(s, end) == s.len() {
            Some(equations)
        } else {
            None
        },
        None => None,
    }
}

/// The head that all the bytes spell, if they spell one.
pub open spec fn whole_head(s: Seq<u8>) -> Option<Seq<Tree>> {
    match head(s, 0) {
        Some((trees, end)) => if spaces(s, end) == s.len() {
            Some(trees)
        } else {
            None
        },
        None => None,
    }
}

/// The definition that all the bytes spell, if they spell one.
pub open spec fn whole_def(s: Seq<u8>) -> Option<DefModel> {
    match def(s, 0) {
        Some((found, end)) => if spaces(s, end) == s.len() {
            Some(found)
        } else {
            None
        },
        None => None,
    }
}

/// The net and the names in use are as they were.
pub open spec fn untouched(net: Net, state: ParserState, before: Net, state_before: ParserState) -> bool {
    net@ == before@ && state.uses() == state_before.uses()
}

/// Parses a term and builds it into the net. The text must be one term,
/// and the arena must have room for its names and agents; if not, nothing
/// is built.
pub fn parse_term(src: &str, net: &mut Net, state: &mut ParserState) -> (term_ptr: Option<TermPtr>)
    requires
        old(net).store.wf(),
    ensures
        final(net).store.wf(),
        match whole_term(src.spec_bytes()) {
            Some(tree) if old(net)@.arena.has_room(slots(tree)) => term_ptr.is_some() && (
                draft(*final(net), *final(state)),
                term_ptr.unwrap(),
            ) == draft(*old(net), *old(state)).term(src.spec_bytes(), tree),
            _ => term_ptr.is_none() && untouched(*final(net), *final(state), *old(net), *old(state)),
        },
{
    let s = src.as_bytes();
    proof {
        net.store.lemma_wf();
    }
    match read_term(s, 0) {
        None => None,
        Some((tree, end)) => {
            if skip_spaces(s, end) != s.len() || !room_for(net, count_tree(&tree)) {
                return None;
            }
            Some(build_term(s, &tree, net, state))
        },
    }
}

/// Parses an equation and builds its two terms into the net. The equation
/// is returned, not added to the body.
pub fn parse_eqn(src: &str, net: &mut Net, state: &mut ParserState) -> (pair: Option<
    (TermPtr, TermPtr),
>)
    requires
        old(net).store.wf(),
    ensures
        final(net).store.wf(),
        match whole_eqn(src.spec_bytes()) {
            Some((left, right)) if old(net)@.arena.has_room(slots(left) + slots(right))
                => pair.is_some() && (draft(*final(net), *final(state)), pair.unwrap()) == draft(
                *old(net),
                *old(state),
            ).pair(src.spec_bytes(), left, right),
            _ => pair.is_none() && untouched(*final(net), *final(state), *old(net), *old(state)),
        },
{
    let s = src.as_bytes();
    proof {
        net.store.lemma_wf();
    }
    match read_eqn(s, 0) {
        None => None,
        Some(((left, right), end)) => {
            let need = add_capped(count_tree(&left), count_tree(&right));
            if skip_spaces(s, end) != s.len() || !room_for(net, need) {
                return None;
            }
            Some(build_pair(s, &left, &right, net, state))
        },
    }
}

/// Parses equations, builds them into the net and adds them to its body.
pub fn parse_eqns(src: &str, net: &mut Net, state: &mut ParserState) -> (ok: bool)
    requires
        old(net).store.wf(),
    ensures
        final(net).store.wf(),
        match whole_eqns(src.spec_bytes()) {
            Some(equations) if old(net)@.arena.has_room(slots_of_eqns(equations)) => ok && draft(
                *final(net),
                *final(state),
            ) == draft(*old(net), *old(state)).eqns(src.spec_bytes(), equations),
            _ => !ok && untouched(*final(net), *final(state), *old(net), *old(state)),
        },
{
    let s = src.as_bytes();
    proof {
        net.store.lemma_wf();
    }
    match read_eqns(s, 0) {
        None => false,
        Some((equations, end)) => {
            if skip_spaces(s, end) != s.len() || !room_for(net, count_eqns(&equations)) {
                return false;
            }
            build_eqns(s, &equations, net, state);
            true
        },
    }
}

/// Parses a head, builds its terms into the net and adds them to its head.
pub fn parse_head(src: &str, net: &mut Net, state: &mut ParserState) -> (ok: bool)
    requires
        old(net).store.wf(),
    ensures
        final(net).store.wf(),
        match whole_head(src.spec_bytes()) {
            Some(trees) if old(net)@.arena.has_room(slots_of(trees)) => ok && draft(
                *final(net),
                *final(state),
            ) == draft(*old(net), *old(state)).head(src.spec_bytes(), trees),
            _ => !ok && untouched(*final(net), *final(state), *old(net), *old(state)),
        },
{
    let s = src.as_bytes();
    proof {
        net.store.lemma_wf();
    }
    match read_head(s, 0) {
        None => false,
        Some((trees, end)) => {
            if skip_spaces(s, end) != s.len() || !room_for(net, count_trees(&trees)) {
                return false;
            }
            build_head(s, &trees, net, state);
            true
        },
    }
}

/// Parses a definition and builds it into the net. Returns the range of
/// bytes of its name.
pub fn parse_def(src: &str, net: &mut Net, state: &mut ParserState) -> (name: Option<(usize, usize)>)
    requires
        old(net).store.wf(),
    ensures
        final(net).store.wf(),
        match whole_def(src.spec_bytes()) {
            Some(found) if old(net)@.arena.has_room(slots_of(found.head) + slots_of_eqns(found.eqns))
                => name == Some(found.name) && draft(*final(net), *final(state)) == draft(
                *old(net),
                *old(state),
            ).def(src.spec_bytes(), found),
            _ => name.is_none() && untouched(*final(net), *final(state), *old(net), *old(state)),
        },
{
    let s = src.as_bytes();
    proof {
        net.store.lemma_wf();
    }
    match read_def(s, 0) {
        None => None,
        Some((found, end)) => {
            let need = add_capped(count_trees(&found.head), count_eqns(&found.eqns));
            if skip_spaces(s, end) != s.len() || !room_for(net, need) {
                return None;
            }
            build_def(s, &found, net, state);
            Some(found.name)
        },
    }
}

/// The names of the definitions.
pub open spec fn names(defs: Seq<DefModel>) -> Seq<(usize, usize)> {
    defs.map_values(|def: DefModel| def.name)
}

/// Parses a book and builds its definitions into the net. Returns the
/// ranges of bytes of their names.
pub fn parse_book(src: &str, net: &mut Net, state: &mut ParserState) -> (found: Option<
    Vec<(usize, usize)>,
>)
    requires
        old(net).store.wf(),
    ensures
        final(net).store.wf(),
        match book(src.spec_bytes()) {
            Some(defs) if old(net)@.arena.has_room(slots_of_defs(defs)) => found.is_some()
                && found.unwrap()@ == names(defs) && draft(*final(net), *final(state)) == draft(
                *old(net),
                *old(state),
            ).defs(src.spec_bytes(), defs),
            _ => found.is_none() && untouched(*final(net), *final(state), *old(net), *old(state)),
        },
{
    let s = src.as_bytes();
    proof {
        net.store.lemma_wf();
    }
    match read_book(s) {
        None => None,
        Some(defs) => {
            if !room_for(net, count_defs(&defs)) {
                return None;
            }
            build_defs(s, &defs, net, state);
            let mut found: Vec<(usize, usize)> = Vec::new();
            let mut i: usize = 0;
            while i < defs.len()
                invariant
                    0 <= i <= defs@.len(),
                    found@ =~= names(models(defs@)).take(i as int),
                decreases defs@.len() - i,
            {
                found.push(defs[i].name);
                i = i + 1;
            }
            assert(names(models(defs@)).take(defs@.len() as int) =~= names(models(defs@)));
            Some(found)
        },
    }
}

/// Parses a program and builds it into the net. The text must be a book,
/// and the arena must have room for its names and agents; if not, the net
/// is left as it was.
pub fn parse(src: &str, net: &mut Net) -> (ok: bool)
    requires
        old(net).store.wf(),
    ensures
        final(net).store.wf(),
        match book(src.spec_bytes()) {
            Some(defs) if old(net)@.arena.has_room(slots_of_defs(defs)) => ok && final(net)@ == (Draft {
                net: old(net)@,
                uses: Seq::empty(),
            }).defs(src.spec_bytes(), defs).net,
            _ => !ok && final(net)@ == old(net)@,
        },
{
    let mut state = ParserState::new();
    parse_book(src, net, &mut state).is_some()
}

} // verus!
