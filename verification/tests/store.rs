use strandal::strandal::store::{FreePtrs, Ptr, Store};
use strandal::strandal::term::{Cell, Term, TermPtr};
use strandal::strandal::var::{Var, VarUse, VarValue};

#[test]
fn test_alloc() {
    let mut store = Store::new();
    let ptr = store.allocate(Some(Term::Var(Var::new())));
    assert_eq!(ptr.index(), 0);
    assert_eq!(store.len(), 1);
    assert_eq!(store.next(), 1);
    assert_eq!(store.get(ptr), &Some(Term::Var(Var::new())));
    assert_eq!(store.free(ptr), Some(Term::Var(Var::new())));
    assert_eq!(store.len(), 0);
    assert_eq!(store.next(), 1);
    assert_eq!(store.get(ptr), &None);
}

#[test]
fn indices_are_never_handed_out_twice() {
    let mut store = Store::with_capacity(3);
    let a = store.allocate(Some(Term::Var(Var::new())));
    store.free(a);
    let b = store.allocate(Some(Term::Cell(Cell::Lam(None))));
    assert_eq!(a, Ptr::new(0));
    assert_eq!(b, Ptr::new(1));
    assert!(store.has_room(1));
    assert!(!store.has_room(2));
    assert_eq!(store.capacity, 3);
}

#[test]
fn overwrite_keeps_the_occupancy() {
    let mut store = Store::with_capacity(8);
    let a = store.allocate(Some(Term::Cell(Cell::App(None))));
    let lam = Term::Cell(Cell::Lam(Some((TermPtr::Era, TermPtr::Ptr(a)))));
    assert_eq!(store.set(a, lam), Some(Term::Cell(Cell::App(None))));
    assert_eq!(store.len(), 1);
    assert_eq!(store.get(a), &Some(lam));
    let b = store.allocate(None);
    assert_eq!(store.len(), 1);
    assert_eq!(store.set(b, lam), None);
    assert_eq!(store.len(), 2);
}

#[test]
fn free_ptrs_push_pop_split() {
    let mut free_ptrs = FreePtrs::new();
    assert_eq!(free_ptrs.pop(), None);
    for i in 0..5 {
        free_ptrs.push(Ptr::new(i));
    }
    assert_eq!(free_ptrs.len(), 5);
    let mut rest = free_ptrs.split(2);
    assert_eq!(free_ptrs.len(), 2);
    assert_eq!(rest.len(), 3);
    assert_eq!(rest.pop(), Some(Ptr::new(4)));
    assert_eq!(rest.pop(), Some(Ptr::new(3)));
    assert_eq!(rest.pop(), Some(Ptr::new(2)));
    assert_eq!(rest.pop(), None);
    assert_eq!(free_ptrs.pop(), Some(Ptr::new(1)));
    assert_eq!(free_ptrs.pop(), Some(Ptr::new(0)));
    assert!(!free_ptrs.is_full());
}

#[test]
fn wire_words() {
    assert_eq!(VarValue::to_u64(None), 0);
    assert_eq!(VarValue::to_u64(Some(VarValue::Var(Ptr::new(7)))), (1u64 << 62) | 7);
    assert_eq!(VarValue::to_u64(Some(VarValue::Era)), 2u64 << 62);
    assert_eq!(VarValue::to_u64(Some(VarValue::Cell(Ptr::new(u32::MAX)))), (3u64 << 62) | 0xFFFF_FFFF);
    for state in [
        None,
        Some(VarValue::Var(Ptr::new(0))),
        Some(VarValue::Var(Ptr::new(u32::MAX))),
        Some(VarValue::Era),
        Some(VarValue::Cell(Ptr::new(12345))),
    ] {
        assert_eq!(VarValue::from_u64(VarValue::to_u64(state)), Ok(state));
    }
}

#[test]
fn wire_swaps_hand_back_the_prior_state() {
    let mut var = Var::new();
    assert_eq!(var.read(), None);
    assert_eq!(var.link(Ptr::new(3)), None);
    assert_eq!(var.read(), Some(VarValue::Var(Ptr::new(3))));
    assert_eq!(var.link(Ptr::new(4)), Some(VarValue::Var(Ptr::new(3))));
    assert_eq!(var.assign_cell(Ptr::new(9)), Some(VarValue::Var(Ptr::new(4))));
    assert_eq!(var.assign_era(), Some(VarValue::Cell(Ptr::new(9))));
    assert_eq!(var.set(VarValue::Era), Some(VarValue::Era));
    assert_eq!(var.read(), Some(VarValue::Era));
}

#[test]
fn a_wire_end_is_a_term_reference() {
    let end = VarUse::new(Ptr::new(5));
    assert_eq!(end.ptr(), Ptr::new(5));
    assert_eq!(TermPtr::from(end), TermPtr::Ptr(Ptr::new(5)));
}
