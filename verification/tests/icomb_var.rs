use strandal::icomb::net::cell::CellPtr;
use strandal::icomb::net::term::TermPtr;
use strandal::icomb::net::var::{Var, VarPtr, VarValue};
use strandal::icomb::store::Ptr;

#[test]
fn test_var_value_cell_ref() {
    let var_value = VarValue(Some(TermPtr::CellPtr(CellPtr::Ref(Ptr::new(1)))));
    let value = u64::from(var_value);
    assert_eq!(VarValue::try_from(value).unwrap(), var_value);
}

#[test]
fn test_var_value_cell_era() {
    let var_value = VarValue(Some(TermPtr::CellPtr(CellPtr::Era)));
    let value = u64::from(var_value);
    assert_eq!(VarValue::try_from(value).unwrap(), var_value);
}

#[test]
fn test_var_value_var_ptr() {
    let var_value = VarValue(Some(TermPtr::VarPtr(VarPtr(Ptr::new(1)))));
    let value = u64::from(var_value);
    assert_eq!(VarValue::try_from(value).unwrap(), var_value);
}

#[test]
fn test_var_value_none() {
    let var_value = VarValue(None);
    let value = u64::from(var_value);
    assert_eq!(VarValue::try_from(value).unwrap(), var_value);
}

#[test]
fn var_value_words() {
    assert_eq!(u64::from(VarValue(None)), 0);
    assert_eq!(
        u64::from(VarValue(Some(TermPtr::CellPtr(CellPtr::Ref(Ptr::new(9)))))),
        (1u64 << 63) | 9
    );
    assert_eq!(
        u64::from(VarValue(Some(TermPtr::CellPtr(CellPtr::Era)))),
        (1u64 << 63) | (1u64 << 61)
    );
    assert_eq!(
        u64::from(VarValue(Some(TermPtr::VarPtr(VarPtr(Ptr::new(u32::MAX)))))),
        (1u64 << 63) | (1u64 << 62) | 0xFFFF_FFFF
    );
}

#[test]
fn every_word_stands_for_a_state() {
    assert_eq!(VarValue::try_from(u64::MAX).map(|state| state.0.is_some()), Ok(true));
    assert_eq!(VarValue::try_from(1u64 << 62), Ok(VarValue(None)));
    assert_eq!(CellPtr::try_from_index(0), Err(0));
    assert_eq!(CellPtr::try_from_index(4), Ok(CellPtr::Ref(Ptr::new(4))));
}

#[test]
fn a_wire_hands_back_what_it_was_set_to() {
    let mut var = Var::new();
    assert_eq!(var.read(), None);
    let cell = TermPtr::CellPtr(CellPtr::Ref(Ptr::new(3)));
    let wire = TermPtr::VarPtr(VarPtr(Ptr::new(5)));
    assert_eq!(var.set(wire), None);
    assert_eq!(var.set(cell), Some(wire));
    assert_eq!(var.set(TermPtr::CellPtr(CellPtr::Era)), Some(cell));
    assert_eq!(var.read(), Some(TermPtr::CellPtr(CellPtr::Era)));
}

#[test]
fn pointers_know_their_index() {
    let ptr: Ptr<CellPtr> = Ptr::new(12);
    assert_eq!(ptr.get_index(), 12);
    assert!(!ptr.is_nil());
    assert_eq!(CellPtr::Ref(ptr).get_ptr(), Some(&ptr));
    assert_eq!(CellPtr::Era.get_ptr(), None);
    assert_eq!(CellPtr::from_ptr(ptr), Some(CellPtr::Ref(ptr)));
}
