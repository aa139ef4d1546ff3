use strandal::strandal::net::Net;
use strandal::strandal::parser::{
    parse, parse_book, parse_def, parse_eqn, parse_eqns, parse_head, parse_term, ParserState,
};
use strandal::strandal::runtime::Runtime;
use strandal::strandal::store::Ptr;
use strandal::strandal::syntax::{read_book, read_term, Tree};
use strandal::strandal::term::{Cell, Term, TermPtr};
use strandal::strandal::var::VarValue;

#[test]
fn test_term() {
    let src = "([* *] a)";
    let mut net = Net::new();
    let mut state = ParserState::new();
    let a = parse_term(src, &mut net, &mut state);
    assert_eq!(state.contains_key("a"), true);
    println!("{:?}", a);
}

#[test]
fn test_term2() {
    let src = "a";
    let mut net = Net::new();
    let mut state = ParserState::new();
    let a = parse_term(src, &mut net, &mut state);
    assert_eq!(state.contains_key("a"), true);
    println!("{:?}", a);
}

#[test]
fn test_eqn() {
    let src = "([* *] *) ~ a";
    let mut net = Net::new();
    let mut state = ParserState::new();
    let a = parse_eqn(src, &mut net, &mut state);
    assert_eq!(state.contains_key("a"), true);
    println!("{:?}", a);
}

#[test]
fn test_eqns() {
    let src = "* ~ * & * ~ R";
    let mut net = Net::new();
    let mut state = ParserState::new();
    let a = parse_eqns(src, &mut net, &mut state);
    assert_eq!(state.len(), 1);
    println!("{:?}", a);
    println!("{:?}", net);
}

#[test]
fn test_head() {
    let src = "(R, *, f)";
    let mut net = Net::new();
    let mut state = ParserState::new();
    let a = parse_head(src, &mut net, &mut state);
    println!("{:?}", a);
    println!("{:?}", net);
}

#[test]
fn test_def() {
    let src = "def a(R, *) = * ~ *";
    let mut net = Net::new();
    let mut state = ParserState::new();
    let a = parse_def(src, &mut net, &mut state);
    println!("{:?}", a);
    println!("{:?}", net);
    println!("{:?}", state.defs);
}

#[test]
fn test_def2() {
    let src = "def a(R, *)";
    let mut net = Net::new();
    let mut state = ParserState::new();
    let a = parse_def(src, &mut net, &mut state);
    println!("{:?}", a);
    println!("{:?}", net);
    println!("{:?}", state.defs);
}

#[test]
fn test_def3() {
    let src = "def a(*)";
    let mut net = Net::new();
    let mut state = ParserState::new();
    let a = parse_def(src, &mut net, &mut state);
    println!("{:?}", a);
    println!("{:?}", net);
    println!("{:?}", state.defs);
}

#[test]
fn test_def4() {
    let src = "def a()"; // ERROR
    let mut net = Net::new();
    let mut state = ParserState::new();
    let a = parse_def(src, &mut net, &mut state);
    println!("{:?}", a);
    println!("{:?}", net);
    println!("{:?}", state.defs);
}

#[test]
fn test_book() {
    let src = "
            def c10([* *])
        "; // ERROR
    let mut net = Net::new();
    let mut state = ParserState::new();
    let a = parse_book(src, &mut net, &mut state);
    println!("{:?}", a);
    println!("{:?}", net);
    println!("{:?}", state.defs);
}

#[test]
fn test_book1() {
    // a@< R | R ~ * >
    let src = "
            def a(R) = * ~ * ;
            def b(*, R) = R ~ * ;
        ";
    let mut net = Net::new();
    let mut state = ParserState::new();
    let result = parse_book(src.trim(), &mut net, &mut state);
    match result {
        Some(_) => {
            println!("Success!! {:?}", net);
            println!("{:?}", state.defs);
            let mut runtime = Runtime::new();
            assert_eq!(runtime.eval(&mut net), Ok(()));
            println!("Executed:  {:?}", net);
        }
        None => {
            println!("{:?}", state.defs);
        }
    }
}

#[test]
fn a_term_is_read_to_a_tree() {
    let src = b"  ( [ * x ]  y_1 ) rest";
    let (tree, end) = read_term(src, 0).unwrap();
    assert_eq!(
        tree,
        Tree::Lam(
            Box::new(Tree::App(Box::new(Tree::Era), Box::new(Tree::Var(8, 9)))),
            Box::new(Tree::Var(13, 16)),
        )
    );
    assert_eq!(end, 18);
    assert_eq!(read_term(b"", 0), None);
    assert_eq!(read_term(b"(a b", 0), None);
    assert_eq!(read_term(b"(a b]", 0), None);
    assert_eq!(read_term(b"(a)", 0), None);
    assert_eq!(read_term(b"1a", 0), None);
    assert_eq!(read_term(b"~", 0), None);
    assert_eq!(read_term(b"ab", 0), Some((Tree::Var(0, 2), 2)));
    assert_eq!(read_term(b"(ab)", 0), None);
}

#[test]
fn books_are_read_or_rejected() {
    assert_eq!(read_book(b"").map(|defs| defs.len()), Some(0));
    assert_eq!(read_book(b"  \n ").map(|defs| defs.len()), Some(0));
    assert_eq!(read_book(b"def a(x)").map(|defs| defs.len()), Some(1));
    assert_eq!(read_book(b"def a(x);").map(|defs| defs.len()), Some(1));
    assert_eq!(read_book(b"def a(x) ; def b(y, *) = y ~ * & * ~ *").map(|d| d.len()), Some(2));
    let defs = read_book(b"def a(x) ; def b(y, *) = y ~ * & * ~ *").unwrap();
    assert_eq!(defs[0].name, (4, 5));
    assert_eq!(defs[1].name, (15, 16));
    assert_eq!(defs[1].head, vec![Tree::Var(17, 18), Tree::Era]);
    assert_eq!(defs[1].eqns, vec![(Tree::Var(25, 26), Tree::Era), (Tree::Era, Tree::Era)]);
    assert_eq!(read_book(b"def a()"), None);
    assert_eq!(read_book(b"def a(x) def b(y)"), None);
    assert_eq!(read_book(b"def a(x);;"), None);
    assert_eq!(read_book(b"def a(x) ="), None);
    assert_eq!(read_book(b"def a(x) = x ~"), None);
    assert_eq!(read_book(b"define a(x)"), None);
    assert_eq!(read_book(b"def (x)"), None);
    assert_eq!(read_book(b"def a(x) = x ~ * &"), None);
    assert_eq!(read_book(b"; def a(x)"), None);
}

#[test]
fn a_name_stands_for_one_wire() {
    let mut net = Net::with_capacity(16);
    let mut state = ParserState::new();
    let pair = parse_eqn("(x y) ~ [y x]", &mut net, &mut state).unwrap();
    assert_eq!(state.len(), 0);
    assert_eq!(pair, (TermPtr::Ptr(Ptr::new(2)), TermPtr::Ptr(Ptr::new(3))));
    let x = TermPtr::Ptr(Ptr::new(0));
    let y = TermPtr::Ptr(Ptr::new(1));
    assert_eq!(net.store.get(Ptr::new(2)), &Some(Term::Cell(Cell::Lam(Some((x, y))))));
    assert_eq!(net.store.get(Ptr::new(3)), &Some(Term::Cell(Cell::App(Some((y, x))))));
    assert_eq!(net.store.len(), 4);
    assert_eq!(net.body.len(), 0);
    // a third use of a name hands out a new wire
    assert_eq!(parse_term("x", &mut net, &mut state), Some(TermPtr::Ptr(Ptr::new(4))));
    assert!(state.contains_key("x"));
    assert!(!state.contains_key("y"));
}

#[test]
fn a_program_is_built_and_evaluated() {
    let mut net = Net::with_capacity(64);
    assert!(parse(" def main(a, b) = * ~ (a b) ; ", &mut net));
    assert_eq!(net.head, vec![TermPtr::Ptr(Ptr::new(0)), TermPtr::Ptr(Ptr::new(1))]);
    assert_eq!(net.body, vec![(TermPtr::Era, TermPtr::Ptr(Ptr::new(2)))]);
    let mut runtime = Runtime::new();
    assert_eq!(runtime.eval(&mut net), Ok(()));
    assert_eq!(runtime.stats.comm_era_lam(), 1);
    for head in [0, 1] {
        match net.store.get(Ptr::new(head)) {
            Some(Term::Var(var)) => assert_eq!(var.read(), Some(VarValue::Era)),
            other => panic!("expected a wire, found {:?}", other),
        }
    }
}

#[test]
fn nothing_is_built_from_a_text_that_is_no_book() {
    let mut net = Net::with_capacity(64);
    assert!(!parse("def main(a, b) = * ~ (a b", &mut net));
    assert_eq!(net.store.len(), 0);
    assert_eq!(net.head.len(), 0);
    assert_eq!(net.body.len(), 0);
    let mut state = ParserState::new();
    assert_eq!(parse_term("(a b) c", &mut net, &mut state), None);
    assert_eq!(parse_def("def a()", &mut net, &mut state), None);
    assert!(!parse_head("()", &mut net, &mut state));
    assert!(!parse_eqns("", &mut net, &mut state));
    assert_eq!(state.len(), 0);
    assert_eq!(net.store.len(), 0);
}

#[test]
fn nothing_is_built_without_room() {
    let mut net = Net::with_capacity(2);
    assert!(!parse("def main(a) = * ~ (a b)", &mut net));
    assert_eq!(net.store.next(), 0);
    let mut net = Net::with_capacity(4);
    assert!(parse("def main(a) = * ~ (a b)", &mut net));
    assert_eq!(net.store.next(), 3);
}
