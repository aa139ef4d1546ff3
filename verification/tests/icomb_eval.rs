use strandal::fault::Fault;
use strandal::icomb::net::cell::{Cell, CellPtr};
use strandal::icomb::net::equation::Equation;
use strandal::icomb::net::term::{Term, TermPtr};
use strandal::icomb::net::var::VarPtr;
use strandal::icomb::net::Net;
use strandal::icomb::machine::Event;
use strandal::icomb::runtime::Runtime;
use strandal::icomb::store::{Ptr, Store};

fn wire(net: &Net, ptr: VarPtr) -> Option<TermPtr> {
    net.store.get_var(&ptr).read()
}

fn counters(runtime: &Runtime) -> [usize; 6] {
    [
        runtime.redexes(),
        runtime.annihilations(),
        runtime.commutations(),
        runtime.erasures(),
        runtime.binds(),
        runtime.connects(),
    ]
}

fn bound_to(net: &Net, head: VarPtr) -> (CellPtr, Cell) {
    match wire(net, head) {
        Some(TermPtr::CellPtr(CellPtr::Ref(ptr))) => {
            (CellPtr::Ref(ptr), *net.store.read_cell(&ptr).unwrap())
        }
        other => panic!("expected a bound wire, found {:?}", other),
    }
}

fn linked(net: &Net, from: TermPtr, to: TermPtr) -> bool {
    match (from, to) {
        (TermPtr::VarPtr(a), TermPtr::VarPtr(b)) => {
            wire(net, a) == Some(TermPtr::VarPtr(b)) || wire(net, b) == Some(TermPtr::VarPtr(a))
        }
        _ => false,
    }
}

#[test]
fn erasers_annihilate() {
    let mut net = Net::new(16);
    let left = net.era();
    let right = net.era();
    net.redex(left, right);
    let mut runtime = Runtime::new();
    assert_eq!(runtime.eval(&mut net), Ok(()));
    assert_eq!(counters(&runtime), [1, 0, 0, 1, 0, 0]);
    assert_eq!(net.store.len(), 0);
    assert_eq!(net.body.len(), 0);
}

#[test]
fn two_identities_leave_nothing() {
    let mut net = Net::new(16);
    let x = net.var();
    let i1 = net.ctr(x.0, x.1);
    let y = net.var();
    let i2 = net.ctr(y.0, y.1);
    net.redex(i1, i2);
    assert_eq!(net.store.len(), 4);
    let mut runtime = Runtime::new();
    assert_eq!(runtime.eval(&mut net), Ok(()));
    assert_eq!(counters(&runtime), [1, 1, 0, 0, 0, 2]);
    assert_eq!(net.store.len(), 0);
}

#[test]
fn an_eraser_erases_both_ports() {
    let mut net = Net::new(16);
    let a = net.var();
    let b = net.var();
    let (head_a, head_b) = (a.1.ptr, b.1.ptr);
    let dup = net.dup(a.0, b.0);
    net.head.push(head_a);
    net.head.push(head_b);
    let era = net.era();
    net.redex(era, dup);
    let mut runtime = Runtime::new();
    assert_eq!(runtime.eval(&mut net), Ok(()));
    assert_eq!(counters(&runtime), [1, 0, 1, 0, 2, 0]);
    assert_eq!(wire(&net, head_a), Some(TermPtr::CellPtr(CellPtr::Era)));
    assert_eq!(wire(&net, head_b), Some(TermPtr::CellPtr(CellPtr::Era)));
    assert_eq!(net.store.len(), 2);
    assert_eq!(net.head, vec![head_a, head_b]);
}

#[test]
fn a_duplicator_copies_an_identity() {
    let mut net = Net::new(64);
    let a = net.var();
    let b = net.var();
    let (head_a, head_b) = (a.1.ptr, b.1.ptr);
    let x = net.var();
    let id = net.ctr(x.0, x.1);
    let dup = net.dup(a.0, b.0);
    net.redex(id, dup);
    let mut runtime = Runtime::new();
    assert_eq!(runtime.eval(&mut net), Ok(()));
    assert_eq!(runtime.commutations(), 1);
    assert_eq!(runtime.annihilations(), 1);
    assert_eq!(runtime.redexes(), 2);
    let (ptr_a, copy_a) = bound_to(&net, head_a);
    let (ptr_b, copy_b) = bound_to(&net, head_b);
    assert_ne!(ptr_a, ptr_b);
    for copy in [copy_a, copy_b] {
        assert!(copy.is_ctr());
        assert!(!copy.is_dup());
        let ports = copy.ports();
        assert!(linked(&net, *ports.0, *ports.1));
    }
}

#[test]
fn a_commutation_wires_four_copies() {
    let mut net = Net::new(64);
    let a = net.var();
    let b = net.var();
    let c = net.var();
    let d = net.var();
    let heads = [a.1.ptr, b.1.ptr, c.1.ptr, d.1.ptr];
    let ctr = net.ctr(a.0, b.0);
    let dup = net.dup(c.0, d.0);
    net.redex(dup, ctr);
    let mut runtime = Runtime::new();
    assert_eq!(runtime.eval(&mut net), Ok(()));
    assert_eq!(counters(&runtime), [1, 0, 1, 0, 4, 0]);
    let v = [7, 8, 9, 10].map(|i| TermPtr::VarPtr(VarPtr(Ptr::new(i))));
    // the ports of the constructor meet the copies of the duplicator
    assert_eq!(bound_to(&net, heads[0]), (dup, Cell::Dup(v[0], v[2])));
    assert_eq!(bound_to(&net, heads[1]), (CellPtr::Ref(Ptr::new(12)), Cell::Dup(v[1], v[3])));
    // the ports of the duplicator meet the copies of the constructor
    assert_eq!(bound_to(&net, heads[2]), (ctr, Cell::Ctr(v[0], v[1])));
    assert_eq!(bound_to(&net, heads[3]), (CellPtr::Ref(Ptr::new(11)), Cell::Ctr(v[2], v[3])));
    assert_eq!(net.store.len(), 12);
}

#[test]
fn a_binding_follows_links() {
    let mut net = Net::new(16);
    let a = net.var();
    let b = net.var();
    let c = net.var();
    let head = c.1.ptr;
    let b_ptr = b.1.ptr;
    net.connect(c.0, b.0);
    net.connect(b.1, a.0);
    net.bind(a.1, CellPtr::Era);
    let _ = b_ptr;
    let mut runtime = Runtime::new();
    assert_eq!(runtime.eval(&mut net), Ok(()));
    assert_eq!(counters(&runtime), [0, 0, 0, 0, 1, 2]);
    assert_eq!(wire(&net, head), Some(TermPtr::CellPtr(CellPtr::Era)));
    assert_eq!(net.store.len(), 1);
}

#[test]
fn two_values_on_one_wire_make_a_redex() {
    let mut net = Net::new(16);
    let x = net.var();
    let left = net.ctr(CellPtr::Era, CellPtr::Era);
    net.bind(x.0, left);
    net.bind(x.1, CellPtr::Era);
    let mut runtime = Runtime::new();
    assert_eq!(runtime.eval(&mut net), Ok(()));
    // the eraser meets the constructor, then an eraser each of its ports
    assert_eq!(counters(&runtime), [3, 0, 1, 2, 2, 0]);
    assert_eq!(net.store.len(), 0);
}

#[test]
fn free_gives_a_term_a_wire() {
    let mut net = Net::new(16);
    let cell = net.ctr(CellPtr::Era, CellPtr::Era);
    let port = net.free(cell);
    assert_eq!(net.body, vec![Equation::Bind { var_ptr: port.ptr, cell_ptr: cell }]);
    let other = net.var();
    let other_ptr = other.1.ptr;
    let port = net.free(other.0);
    assert_eq!(
        net.body[1],
        Equation::Connect { left_ptr: port.ptr, right_ptr: other_ptr }
    );
    assert_eq!(net.consume_cell(cell), Cell::Ctr(TermPtr::CellPtr(CellPtr::Era), TermPtr::CellPtr(CellPtr::Era)));
}

#[test]
fn classification_does_not_depend_on_the_order() {
    let cell = TermPtr::CellPtr(CellPtr::Ref(Ptr::new(1)));
    let era = TermPtr::CellPtr(CellPtr::Era);
    let x = VarPtr(Ptr::new(2));
    let y = VarPtr(Ptr::new(3));
    assert_eq!(
        Equation::classify(cell, TermPtr::VarPtr(x)),
        Equation::classify(TermPtr::VarPtr(x), cell)
    );
    assert_eq!(
        Equation::classify(era, cell),
        Equation::Redex { left_ptr: CellPtr::Era, right_ptr: CellPtr::Ref(Ptr::new(1)) }
    );
    assert_eq!(
        Equation::classify(cell, era),
        Equation::Redex { left_ptr: CellPtr::Ref(Ptr::new(1)), right_ptr: CellPtr::Era }
    );
    assert_eq!(
        Equation::classify(TermPtr::VarPtr(x), TermPtr::VarPtr(y)),
        Equation::Connect { left_ptr: x, right_ptr: y }
    );
}

#[test]
fn the_store_hands_out_indices_from_one() {
    let mut store = Store::new(4);
    assert_eq!(store.capacity(), 4);
    let var = store.alloc_var();
    assert_eq!(var, VarPtr(Ptr::new(1)));
    let cell = store.alloc_cell(Some(Cell::Ctr(TermPtr::VarPtr(var), TermPtr::VarPtr(var))));
    assert_eq!(cell, CellPtr::Ref(Ptr::new(2)));
    assert_eq!(store.len(), 2);
    let empty = store.alloc_cell(None);
    assert_eq!(store.len(), 2);
    assert!(!store.has_room());
    let mut seen = Vec::new();
    let mut iter = store.iter();
    while let Some(term) = iter.next() {
        seen.push(*term);
    }
    assert_eq!(seen.len(), 2);
    assert!(matches!(seen[0], Term::Var(_)));
    assert!(matches!(seen[1], Term::Cell(Cell::Ctr(_, _))));
    store.free_var(var);
    assert_eq!(store.len(), 1);
    assert_eq!(store.look(1), Err(Fault::EmptySlot));
    assert_eq!(store.look(0), Err(Fault::OutOfBounds));
    assert_eq!(store.look(9), Err(Fault::OutOfBounds));
    match empty {
        CellPtr::Ref(ptr) => {
            assert_eq!(store.consume_cell(ptr), None);
            store.write_cell(&ptr, Cell::Dup(TermPtr::CellPtr(CellPtr::Era), TermPtr::CellPtr(CellPtr::Era)));
            assert!(store.consume_cell(ptr).unwrap().is_dup());
            store.free_cell(ptr);
        }
        CellPtr::Era => panic!("expected a slot"),
    }
    assert_eq!(store.len(), 1);
}

#[test]
fn faults_are_reported() {
    let mut net = Net::new(6);
    let a = net.var();
    let b = net.var();
    let c = net.var();
    let ctr = net.ctr(a.0, b.0);
    let dup = net.dup(c.0, CellPtr::Era);
    net.redex(ctr, dup);
    assert_eq!(Runtime::new().eval(&mut net), Err(Fault::ArenaExhausted));

    let mut net = Net::new(6);
    net.redex(CellPtr::Era, CellPtr::Ref(Ptr::new(3)));
    assert_eq!(Runtime::new().eval(&mut net), Err(Fault::OutOfBounds));

    let mut net = Net::new(6);
    let x = net.var();
    net.redex(CellPtr::Era, CellPtr::Ref(Ptr::new(x.0.ptr.0.get_index())));
    assert_eq!(Runtime::new().eval(&mut net), Err(Fault::KindMismatch));

    let mut net = Net::new(6);
    net.redex(CellPtr::Era, CellPtr::Era);
    net.redex(CellPtr::Era, CellPtr::Era);
    let mut runtime = Runtime::new();
    assert_eq!(runtime.eval_within(&mut net, 1), Err(Fault::StepLimit));
    assert_eq!(runtime.redexes(), 1);
}

fn busy_net() -> Net {
    let mut net = Net::new(256);
    let a = net.var();
    let b = net.var();
    let x = net.var();
    let y = net.var();
    let id = net.ctr(x.0, x.1);
    let pair = net.ctr(y.0, CellPtr::Era);
    let dup = net.dup(a.0, pair);
    let other = net.dup(b.0, y.1);
    net.head.push(a.1.ptr);
    net.head.push(b.1.ptr);
    net.redex(id, dup);
    net.redex(other, CellPtr::Era);
    net
}

fn snapshot(net: &Net) -> Vec<Option<Term>> {
    (1..net.store.next()).map(|i| net.store.look(i).ok()).collect()
}

fn rank(term: &Option<Term>) -> Option<u8> {
    match term {
        Some(Term::Var(var)) => Some(match var.read() {
            None => 0,
            Some(TermPtr::VarPtr(_)) => 1,
            Some(TermPtr::CellPtr(_)) => 2,
        }),
        _ => None,
    }
}

#[test]
fn every_redex_is_counted_once_more() {
    let mut net = busy_net();
    let mut runtime = Runtime::new();
    assert_eq!(runtime.eval(&mut net), Ok(()));
    assert!(runtime.redexes() >= 4);
    assert_eq!(
        runtime.annihilations() + runtime.commutations() + runtime.erasures(),
        runtime.redexes()
    );
}

#[test]
fn wires_of_two_kinds_only_go_forward() {
    let mut net = busy_net();
    let before = snapshot(&net);
    let occupied_before = net.store.len() as usize;
    assert_eq!(Runtime::new().eval(&mut net), Ok(()));
    let after = snapshot(&net);
    for (i, slot) in before.iter().enumerate() {
        if let Some(was) = rank(slot) {
            assert!(after[i].is_none() || rank(&after[i]).map_or(false, |now| now >= was));
        }
    }
    let handed_out = after.len() - before.len();
    let released = after
        .iter()
        .enumerate()
        .filter(|(i, slot)| slot.is_none() && (*i >= before.len() || before[*i].is_some()))
        .count();
    assert_eq!(net.store.len() as usize + released, occupied_before + handed_out);
}

#[test]
fn the_same_net_of_two_kinds_gives_the_same_store() {
    let mut first = busy_net();
    let mut second = busy_net();
    assert_eq!(Runtime::new().eval(&mut first), Ok(()));
    assert_eq!(Runtime::new().eval(&mut second), Ok(()));
    assert_eq!(snapshot(&first), snapshot(&second));
}

#[test]
fn a_counter_of_the_runtime_at_its_maximum_is_reported() {
    let mut net = Net::new(16);
    net.redex(CellPtr::Era, CellPtr::Era);
    let mut runtime = Runtime::new();
    runtime.set(Event::Redex, usize::MAX);
    assert_eq!(runtime.eval(&mut net), Err(Fault::CounterOverflow));
    assert_eq!(runtime.redexes(), usize::MAX);
    assert_eq!(runtime.erasures(), 0);
}

#[test]
fn a_reference_to_an_empty_slot_is_reported() {
    let mut net = Net::new(16);
    let x = net.var();
    let ptr = x.0.ptr;
    net.store.free_var(ptr);
    net.bind(x.1, CellPtr::Era);
    assert_eq!(Runtime::new().eval(&mut net), Err(Fault::EmptySlot));
}
