//! The textual syntax of nets, as a function from bytes to trees.
//!
//! ```text
//! book ::= (def (';' def)* ';'?)?
//! def  ::= 'def' ident '(' term (',' term)* ')' ('=' eqns)?
//! eqns ::= eqn ('&' eqn)*
//! eqn  ::= term '~' term
//! term ::= ident | '*' | '(' term term ')' | '[' term term ']'
//! ```
//!
//! White space may stand before any token. An identifier is a letter or an
//! underscore followed by letters, digits and underscores.

use vstd::prelude::*;

verus! {

/// A term as it is written. A variable is the range of bytes of its name.
#[derive(Debug, PartialEq, Eq)]
pub enum Tree {
    Var(usize, usize),
    Era,
    Lam(Box<Tree>, Box<Tree>),
    App(Box<Tree>, Box<Tree>),
}

/// A definition as it is written: the range of bytes of its name, the terms
/// of its head, and its equations.
#[derive(Debug, PartialEq, Eq)]
pub struct Def {
    pub name: (usize, usize),
    pub head: Vec<Tree>,
    pub eqns: Vec<(Tree, Tree)>,
}

/// A definition as a value.
pub struct DefModel {
    pub name: (usize, usize),
    pub head: Seq<Tree>,
    pub eqns: Seq<(Tree, Tree)>,
}

impl View for Def {
    type V = DefModel;

    open spec fn view(&self) -> DefModel {
        DefModel { name: self.name, head: self.head@, eqns: self.eqns@ }
    }
}

pub open spec fn is_space(byte: u8) -> bool {
    byte == 32 || 9 <= byte <= 13
}

pub open spec fn is_ident_start(byte: u8) -> bool {
    97 <= byte <= 122 || 65 <= byte <= 90 || byte == 95
}

pub open spec fn is_ident_rest(byte: u8) -> bool {
    is_ident_start(byte) || 48 <= byte <= 57
}

/// The position of the first byte at or after `pos` that is no white space.
pub open spec fn spaces(s: Seq<u8>, pos: int) -> int
    decreases s.len() - pos,
{
    if 0 <= pos < s.len() && is_space(s[pos]) {
        spaces(s, pos + 1)
    } else {
        pos
    }
}

/// The position after the bytes at and after `pos` that can stand in an
/// identifier.
pub open spec fn ident_end(s: Seq<u8>, pos: int) -> int
    decreases s.len() - pos,
{
    if 0 <= pos < s.len() && is_ident_rest(s[pos]) {
        ident_end(s, pos + 1)
    } else {
        pos
    }
}

/// The position after the given byte, if it is the first after the white
/// space at `pos`.
pub open spec fn token(s: Seq<u8>, pos: int, byte: u8) -> Option<int> {
    let at = spaces(s, pos);
    if 0 <= at < s.len() && s[at] == byte {
        Some(at + 1)
    } else {
        None
    }
}

/// The identifier that starts after the white space at `pos`, if one does:
/// its range of bytes.
pub open spec fn ident(s: Seq<u8>, pos: int) -> Option<(int, int)> {
    let at = spaces(s, pos);
    if 0 <= at < s.len() && is_ident_start(s[at]) {
        Some((at, ident_end(s, at + 1)))
    } else {
        None
    }
}

/// The term that starts after the white space at `pos`, if one does, and
/// the position after it.
pub open spec fn term(s: Seq<u8>, pos: int) -> Option<(Tree, int)>
    decreases s.len() - pos,
{
    let at = spaces(s, pos);
    if !(0 <= pos <= at < s.len()) {
        None
    } else if s[at] == 42 {
        Some((Tree::Era, at + 1))
    } else if s[at] == 40 || s[at] == 91 {
        match term(s, at + 1) {
            None => None,
            Some((first, mid)) => if mid <= at || mid > s.len() {
                None
            } else {
                match term(s, mid) {
                    None => None,
                    Some((second, end)) => match token(
                        s,
                        end,
                        if s[at] == 40 {
                            41u8
                        } else {
                            93u8
                        },
                    ) {
                        None => None,
                        Some(after) => Some(
                            (
                                if s[at] == 40 {
                                    Tree::Lam(Box::new(first), Box::new(second))
                                } else {
                                    Tree::App(Box::new(first), Box::new(second))
                                },
                                after,
                            ),
                        ),
                    },
                }
            },
        }
    } else {
        match ident(s, pos) {
            Some((from, to)) => Some((Tree::Var(from as usize, to as usize), to)),
            None => None,
        }
    }
}

/// The equation that starts at `pos`, if one does: two terms with a tilde
/// between them.
pub open spec fn eqn(s: Seq<u8>, pos: int) -> Option<((Tree, Tree), int)> {
    match term(s, pos) {
        None => None,
        Some((left, mid)) => match token(s, mid, 126) {
            None => None,
            Some(after) => match term(s, after) {
                None => None,
                Some((right, end)) => Some(((left, right), end)),
            },
        },
    }
}

/// The equations that follow at `pos`, each after an ampersand.
pub open spec fn more_eqns(s: Seq<u8>, pos: int) -> (Seq<(Tree, Tree)>, int)
    decreases s.len() - pos,
{
    match token(s, pos, 38) {
        None => (Seq::empty(), pos),
        Some(after) => match eqn(s, after) {
            None => (Seq::empty(), pos),
            Some((first, end)) => if end <= pos || pos < 0 || end > s.len() {
                (Seq::empty(), pos)
            } else {
                let (rest, last) = more_eqns(s, end);
                (seq![first] + rest, last)
            },
        },
    }
}

/// The equations that start at `pos`, if one does: one or more, with
/// ampersands between them.
pub open spec fn eqns(s: Seq<u8>, pos: int) -> Option<(Seq<(Tree, Tree)>, int)> {
    match eqn(s, pos) {
        None => None,
        Some((first, end)) => {
            let (rest, last) = more_eqns(s, end);
            Some((seq![first] + rest, last))
        },
    }
}

/// The terms that follow at `pos`, each after a comma.
pub open spec fn more_terms(s: Seq<u8>, pos: int) -> (Seq<Tree>, int)
    decreases s.len() - pos,
{
    match token(s, pos, 44) {
        None => (Seq::empty(), pos),
        Some(after) => match term(s, after) {
            None => (Seq::empty(), pos),
            Some((first, end)) => if end <= pos || pos < 0 || end > s.len() {
                (Seq::empty(), pos)
            } else {
                let (rest, last) = more_terms(s, end);
                (seq![first] + rest, last)
            },
        },
    }
}

/// The head that starts at `pos`, if one does: one or more terms in round
/// brackets, with commas between them.
pub open spec fn head(s: Seq<u8>, pos: int) -> Option<(Seq<Tree>, int)> {
    match token(s, pos, 40) {
        None => None,
        Some(open) => match term(s, open) {
            None => None,
            Some((first, end)) => {
                let (rest, last) = more_terms(s, end);
                match token(s, last, 41) {
                    None => None,
                    Some(after) => Some((seq![first] + rest, after)),
                }
            },
        },
    }
}

/// The range is that of the word `def`.
pub open spec fn is_def(s: Seq<u8>, from: int, to: int) -> bool {
    to == from + 3 && 0 <= from && to <= s.len() && s[from] == 100 && s[from + 1] == 101 && s[from
        + 2] == 102
}

/// The definition that starts at `pos`, if one does: the word `def`, a
/// name, a head and, after an equals sign, equations.
pub open spec fn def(s: Seq<u8>, pos: int) -> Option<(DefModel, int)> {
    match ident(s, pos) {
        None => None,
        Some((from, to)) => if !is_def(s, from, to) {
            None
        } else {
            match ident(s, to) {
                None => None,
                Some((name_from, name_to)) => match head(s, name_to) {
                    None => None,
                    Some((terms, end)) => match token(s, end, 61) {
                        None => Some(
                            (
                                DefModel {
                                    name: (name_from as usize, name_to as usize),
                                    head: terms,
                                    eqns: Seq::empty(),
                                },
                                end,
                            ),
                        ),
                        Some(after) => match eqns(s, after) {
                            None => None,
                            Some((equations, last)) => Some(
                                (
                                    DefModel {
                                        name: (name_from as usize, name_to as usize),
                                        head: terms,
                                        eqns: equations,
                                    },
                                    last,
                                ),
                            ),
                        },
                    },
                },
            }
        },
    }
}

/// The definitions that follow at `pos`, each after a semicolon.
pub open spec fn more_defs(s: Seq<u8>, pos: int) -> (Seq<DefModel>, int)
    decreases s.len() - pos,
{
    match token(s, pos, 59) {
        None => (Seq::empty(), pos),
        Some(after) => match def(s, after) {
            None => (Seq::empty(), pos),
            Some((first, end)) => if end <= pos || pos < 0 || end > s.len() {
                (Seq::empty(), pos)
            } else {
                let (rest, last) = more_defs(s, end);
                (seq![first] + rest, last)
            },
        },
    }
}

/// The book that the bytes spell, if they spell one: no definition, or
/// definitions with semicolons between them and perhaps one after the
/// last, and nothing but white space after that.
pub open spec fn book(s: Seq<u8>) -> Option<Seq<DefModel>> {
    let (defs, end) = match def(s, 0) {
        None => (Seq::empty(), 0int),
        Some((first, end)) => {
            let (rest, last) = more_defs(s, end);
            (
                seq![first] + rest,
                match token(s, last, 59) {
                    Some(after) => after,
                    None => last,
                },
            )
        },
    };
    if spaces(s, end) == s.len() {
        Some(defs)
    } else {
        None
    }
}

/// Every name in the tree is a range of the bytes.
pub open spec fn well_ranged(tree: Tree, len: nat) -> bool
    decreases tree,
{
    match tree {
        Tree::Var(from, to) => from <= to <= len,
        Tree::Era => true,
        Tree::Lam(left, right) => well_ranged(*left, len) && well_ranged(*right, len),
        Tree::App(left, right) => well_ranged(*left, len) && well_ranged(*right, len),
    }
}

/// Every name in the trees is a range of the bytes.
pub open spec fn ranged_trees(trees: Seq<Tree>, len: nat) -> bool {
    forall|i: int| 0 <= i < trees.len() ==> well_ranged(#[trigger] trees[i], len)
}

/// Every name in the equations is a range of the bytes.
pub open spec fn ranged_eqns(equations: Seq<(Tree, Tree)>, len: nat) -> bool {
    forall|i: int|
        0 <= i < equations.len() ==> well_ranged((#[trigger] equations[i]).0, len) && well_ranged(
            equations[i].1,
            len,
        )
}

/// Every name in the definitions is a range of the bytes.
pub open spec fn ranged_defs(defs: Seq<DefModel>, len: nat) -> bool {
    forall|i: int|
        0 <= i < defs.len() ==> ranged_trees((#[trigger] defs[i]).head, len) && ranged_eqns(
            defs[i].eqns,
            len,
        )
}

/// What was read is what the grammar gives, and it ends within the bytes
/// and after the position where reading started.
pub open spec fn reads<T>(result: Option<(T, usize)>, expected: Option<(T, int)>, s: Seq<u8>, pos: int) -> bool {
    match (result, expected) {
        (Some((value, end)), Some((expected_value, expected_end))) => value == expected_value
            && end == expected_end && pos < end <= s.len(),
        (None, None) => true,
        _ => false,
    }
}

/// The position of the first byte at or after `pos` that is no white space.
pub fn skip_spaces(s: &[u8], pos: usize) -> (at: usize)
    requires
        pos <= s@.len(),
    ensures
        at == spaces(s@, pos as int),
        pos <= at <= s@.len(),
{
    let mut at = pos;
    while at < s.len() && (s[at] == 32 || (9 <= s[at] && s[at] <= 13))
        invariant
            pos <= at <= s@.len(),
            spaces(s@, pos as int) == spaces(s@, at as int),
        decreases s@.len() - at,
    {
        at = at + 1;
    }
    at
}

/// Whether the byte can start an identifier.
pub fn ident_start(byte: u8) -> (start: bool)
    ensures
        start == is_ident_start(byte),
{
    (97 <= byte && byte <= 122) || (65 <= byte && byte <= 90) || byte == 95
}

/// The position after the bytes at and after `pos` that can stand in an
/// identifier.
pub fn scan_ident(s: &[u8], pos: usize) -> (end: usize)
    requires
        pos <= s@.len(),
    ensures
        end == ident_end(s@, pos as int),
        pos <= end <= s@.len(),
{
    let mut end = pos;
    while end < s.len() && (ident_start(s[end]) || (48 <= s[end] && s[end] <= 57))
        invariant
            pos <= end <= s@.len(),
            ident_end(s@, pos as int) == ident_end(s@, end as int),
        decreases s@.len() - end,
    {
        end = end + 1;
    }
    end
}

/// Reads the given byte after white space.
pub fn read_token(s: &[u8], pos: usize, byte: u8) -> (after: Option<usize>)
    requires
        pos <= s@.len(),
    ensures
        match (after, token(s@, pos as int, byte)) {
            (Some(end), Some(expected)) => end == expected && pos < end <= s@.len(),
            (None, None) => true,
            _ => false,
        },
{
    let at = skip_spaces(s, pos);
    if at < s.len() && s[at] == byte {
        Some(at + 1)
    } else {
        None
    }
}

/// Reads an identifier after white space: its range of bytes.
pub fn read_ident(s: &[u8], pos: usize) -> (range: Option<(usize, usize)>)
    requires
        pos <= s@.len(),
    ensures
        match (range, ident(s@, pos as int)) {
            (Some((from, to)), Some((expected_from, expected_to))) => from == expected_from && to
                == expected_to && pos <= from < to <= s@.len(),
            (None, None) => true,
            _ => false,
        },
{
    let at = skip_spaces(s, pos);
    if at < s.len() && ident_start(s[at]) {
        Some((at, scan_ident(s, at + 1)))
    } else {
        None
    }
}

/// Reads a term.
pub fn read_term(s: &[u8], pos: usize) -> (result: Option<(Tree, usize)>)
    requires
        pos <= s@.len(),
    ensures
        reads(result, term(s@, pos as int), s@, pos as int),
        result.is_some() ==> well_ranged(result.unwrap().0, s@.len()),
    decreases s@.len() - pos,
{
    let at = skip_spaces(s, pos);
    if at >= s.len() {
        return None;
    }
    let byte = s[at];
    if byte == 42 {
        Some((Tree::Era, at + 1))
    } else if byte == 40 || byte == 91 {
        let close: u8 = if byte == 40 {
            41
        } else {
            93
        };
        match read_term(s, at + 1) {
            None => None,
            Some((first, mid)) => match read_term(s, mid) {
                None => None,
                Some((second, end)) => match read_token(s, end, close) {
                    None => None,
                    Some(after) => if byte == 40 {
                        Some((Tree::Lam(Box::new(first), Box::new(second)), after))
                    } else {
                        Some((Tree::App(Box::new(first), Box::new(second)), after))
                    },
                },
            },
        }
    } else {
        match read_ident(s, pos) {
            Some((from, to)) => Some((Tree::Var(from, to), to)),
            None => None,
        }
    }
}

/// Reads an equation.
pub fn read_eqn(s: &[u8], pos: usize) -> (result: Option<((Tree, Tree), usize)>)
    requires
        pos <= s@.len(),
    ensures
        reads(result, eqn(s@, pos as int), s@, pos as int),
        result.is_some() ==> well_ranged(result.unwrap().0.0, s@.len()) && well_ranged(
            result.unwrap().0.1,
            s@.len(),
        ),
{
    match read_term(s, pos) {
        None => None,
        Some((left, mid)) => match read_token(s, mid, 126) {
            None => None,
            Some(after) => match read_term(s, after) {
                None => None,
                Some((right, end)) => Some(((left, right), end)),
            },
        },
    }
}

/// Reads one or more equations with ampersands between them.
pub fn read_eqns(s: &[u8], pos: usize) -> (result: Option<(Vec<(Tree, Tree)>, usize)>)
    requires
        pos <= s@.len(),
    ensures
        match (result, eqns(s@, pos as int)) {
            (Some((found, end)), Some((expected, expected_end))) => found@ == expected && end
                == expected_end && pos < end <= s@.len() && ranged_eqns(found@, s@.len()),
            (None, None) => true,
            _ => false,
        },
{
    match read_eqn(s, pos) {
        None => None,
        Some((first, first_end)) => {
            let mut found: Vec<(Tree, Tree)> = Vec::new();
            found.push(first);
            let mut end = first_end;
            let ghost start = seq![first];
            loop
                invariant
                    pos < end <= s@.len(),
                    ranged_eqns(found@, s@.len()),
                    eqns(s@, pos as int) == Some(
                        (found@ + more_eqns(s@, end as int).0, more_eqns(s@, end as int).1),
                    ),
                decreases s@.len() - end,
            {
                match read_token(s, end, 38) {
                    None => {
                        assert(found@ + Seq::<(Tree, Tree)>::empty() =~= found@);
                        return Some((found, end));
                    },
                    Some(after) => match read_eqn(s, after) {
                        None => {
                            assert(found@ + Seq::<(Tree, Tree)>::empty() =~= found@);
                            return Some((found, end));
                        },
                        Some((next, next_end)) => {
                            assert(found@ + (seq![next] + more_eqns(s@, next_end as int).0)
                                =~= found@.push(next) + more_eqns(s@, next_end as int).0);
                            found.push(next);
                            end = next_end;
                        },
                    },
                }
            }
        },
    }
}

/// Reads a head: one or more terms in round brackets with commas between
/// them.
pub fn read_head(s: &[u8], pos: usize) -> (result: Option<(Vec<Tree>, usize)>)
    requires
        pos <= s@.len(),
    ensures
        match (result, head(s@, pos as int)) {
            (Some((found, end)), Some((expected, expected_end))) => found@ == expected && end
                == expected_end && pos < end <= s@.len() && ranged_trees(found@, s@.len()),
            (None, None) => true,
            _ => false,
        },
{
    let open = match read_token(s, pos, 40) {
        None => {
            return None;
        },
        Some(open) => open,
    };
    match read_term(s, open) {
        None => None,
        Some((first, first_end)) => {
            let mut found: Vec<Tree> = Vec::new();
            found.push(first);
            let mut end = first_end;
            loop
                invariant
                    pos < end <= s@.len(),
                    ranged_trees(found@, s@.len()),
                    token(s@, pos as int, 40) == Some(open as int),
                    term(s@, open as int) == Some((first, first_end as int)),
                    found@ + more_terms(s@, end as int).0 == seq![first] + more_terms(
                        s@,
                        first_end as int,
                    ).0,
                    more_terms(s@, end as int).1 == more_terms(s@, first_end as int).1,
                decreases s@.len() - end,
            {
                let next = match read_token(s, end, 44) {
                    None => None,
                    Some(after) => read_term(s, after),
                };
                match next {
                    None => {
                        assert(found@ + Seq::<Tree>::empty() =~= found@);
                        return match read_token(s, end, 41) {
                            None => None,
                            Some(after) => Some((found, after)),
                        };
                    },
                    Some((next, next_end)) => {
                        assert(found@ + (seq![next] + more_terms(s@, next_end as int).0)
                            =~= found@.push(next) + more_terms(s@, next_end as int).0);
                        found.push(next);
                        end = next_end;
                    },
                }
            }
        },
    }
}

/// Whether the range is that of the word `def`.
pub fn is_def_word(s: &[u8], from: usize, to: usize) -> (def: bool)
    requires
        from <= to <= s@.len(),
    ensures
        def == is_def(s@, from as int, to as int),
{
    to - from == 3 && s[from] == 100 && s[from + 1] == 101 && s[from + 2] == 102
}

/// Reads a definition.
pub fn read_def(s: &[u8], pos: usize) -> (result: Option<(Def, usize)>)
    requires
        pos <= s@.len(),
    ensures
        match (result, def(s@, pos as int)) {
            (Some((found, end)), Some((expected, expected_end))) => found@ == expected && end
                == expected_end && pos < end <= s@.len() && ranged_trees(found@.head, s@.len())
                && ranged_eqns(found@.eqns, s@.len()),
            (None, None) => true,
            _ => false,
        },
{
    let (from, to) = match read_ident(s, pos) {
        None => {
            return None;
        },
        Some(range) => range,
    };
    if !is_def_word(s, from, to) {
        return None;
    }
    let name = match read_ident(s, to) {
        None => {
            return None;
        },
        Some(range) => range,
    };
    let (terms, end) = match read_head(s, name.1) {
        None => {
            return None;
        },
        Some(found) => found,
    };
    match read_token(s, end, 61) {
        None => Some((Def { name, head: terms, eqns: Vec::new() }, end)),
        Some(after) => match read_eqns(s, after) {
            None => None,
            Some((equations, last)) => Some((Def { name, head: terms, eqns: equations }, last)),
        },
    }
}

/// The definitions as values.
pub open spec fn models(defs: Seq<Def>) -> Seq<DefModel> {
    defs.map_values(|def: Def| def@)
}

/// Reads a book: all the bytes must be used.
pub fn read_book(s: &[u8]) -> (result: Option<Vec<Def>>)
    ensures
        match (result, book(s@)) {
            (Some(found), Some(expected)) => models(found@) == expected && ranged_defs(
                expected,
                s@.len(),
            ),
            (None, None) => true,
            _ => false,
        },
{
    let mut found: Vec<Def> = Vec::new();
    match read_def(s, 0) {
        None => {
            assert(models(found@) =~= Seq::<DefModel>::empty());
            if skip_spaces(s, 0) == s.len() {
                Some(found)
            } else {
                None
            }
        },
        Some((first, first_end)) => {
            let ghost first_model = first@;
            found.push(first);
            let mut end = first_end;
            assert(models(found@) =~= seq![first_model]);
            loop
                invariant
                    0 < end <= s@.len(),
                    ranged_defs(models(found@), s@.len()),
                    def(s@, 0) == Some((first_model, first_end as int)),
                    models(found@) + more_defs(s@, end as int).0 == seq![first_model] + more_defs(
                        s@,
                        first_end as int,
                    ).0,
                    more_defs(s@, end as int).1 == more_defs(s@, first_end as int).1,
                decreases s@.len() - end,
            {
                let next = match read_token(s, end, 59) {
                    None => None,
                    Some(after) => read_def(s, after),
                };
                match next {
                    None => {
                        assert(models(found@) + Seq::<DefModel>::empty() =~= models(found@));
                        let last = match read_token(s, end, 59) {
                            Some(after) => after,
                            None => end,
                        };
                        return if skip_spaces(s, last) == s.len() {
                            Some(found)
                        } else {
                            None
                        };
                    },
                    Some((next, next_end)) => {
                        assert(models(found@) + (seq![next@] + more_defs(s@, next_end as int).0)
                            =~= models(found@.push(next)) + more_defs(s@, next_end as int).0);
                        assert(models(found@.push(next)) =~= models(found@).push(next@));
                        found.push(next);
                        end = next_end;
                    },
                }
            }
        },
    }
}

} // verus!
