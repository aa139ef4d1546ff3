use strandal::icomb::heap::{Cell, Heap, Ptr, Term};
use strandal::icomb::{CellPtr, TermPtr, VarPtr};

#[test]
fn alloc_cell() {
    let mut heap = Heap::new(1 << 30);
    let ptr = heap.alloc_ctr((CellPtr::Era, CellPtr::Era).into());
    assert_eq!(ptr, CellPtr::CtrPtr(Ptr::new(0)));
    assert_eq!(
        heap.consume_cell(ptr),
        (CellPtr::Era.into(), CellPtr::Era.into())
    )
}

#[test]
fn alloc_var() {
    let mut heap = Heap::new(1 << 30);
    let ptr = heap.alloc_var();
    assert_eq!(ptr, VarPtr(Ptr::new(0)));
    assert_eq!(heap.read_var(ptr), None)
}

#[test]
fn alloc_cell_set_ctr() {
    let mut heap = Heap::new(1 << 30);
    let cell_ptr = heap.alloc_ctr((CellPtr::Era, CellPtr::Era).into());
    heap.set_cell(
        cell_ptr,
        Cell::Ctr(CellPtr::Era.into(), CellPtr::Era.into()),
    );
    assert_eq!(cell_ptr, CellPtr::CtrPtr(Ptr::new(0)));
    assert_eq!(
        heap.consume_cell(cell_ptr),
        (CellPtr::Era.into(), CellPtr::Era.into())
    );
}

#[test]
fn alloc_cell_set_dup() {
    let mut heap = Heap::new(1 << 30);
    let cell_ptr = heap.alloc_dup((CellPtr::Era, CellPtr::Era).into());
    heap.set_cell(
        cell_ptr,
        Cell::Dup(CellPtr::Era.into(), CellPtr::Era.into()),
    );
    assert_eq!(cell_ptr, CellPtr::DupPtr(Ptr::new(0)));
    assert_eq!(
        heap.consume_cell(cell_ptr),
        (CellPtr::Era.into(), CellPtr::Era.into())
    );
}

#[test]
fn heap_wires_swap() {
    let mut heap = Heap::new(8);
    let var = heap.alloc_var();
    let ctr = heap.alloc_ctr(Some((var, CellPtr::Era)));
    let dup = heap.alloc_dup(Some((CellPtr::Era, ctr)));
    assert_eq!(heap.len(), 3);
    assert_eq!(heap.read_var(var), None);
    assert_eq!(heap.swap_var(var, ctr), None);
    assert_eq!(heap.read_var(var), Some(ctr));
    // the same value again hands back what was there
    assert_eq!(heap.swap_var(var, ctr), Some(ctr));
    assert_eq!(heap.read_var(var), Some(ctr));
    assert_eq!(heap.swap_var(var, dup), Some(ctr));
    assert_eq!(heap.swap_var(var, CellPtr::Era), Some(dup));
    assert_eq!(heap.read_var(var), Some(CellPtr::Era));
    // the eraser is told apart from the constructor in the first slot
    assert_eq!(heap.swap_var(var, CellPtr::CtrPtr(Ptr::new(0))), Some(CellPtr::Era));
    assert_eq!(heap.swap_var(var, CellPtr::Era), Some(CellPtr::CtrPtr(Ptr::new(0))));
    assert_eq!(heap.read_cell(dup), (TermPtr::CellPtr(CellPtr::Era), TermPtr::CellPtr(ctr)));
    heap.free_cell(ctr);
    heap.free_var(var);
    assert_eq!(heap.len(), 1);
    let mut seen = Vec::new();
    let mut iter = heap.iter();
    while let Some(term) = iter.next() {
        seen.push(term);
    }
    assert_eq!(seen, vec![Term::Cell(Cell::Dup(TermPtr::CellPtr(CellPtr::Era), TermPtr::CellPtr(ctr)))]);
}

#[test]
fn heap_words() {
    assert_eq!(u64::from(CellPtr::CtrPtr(Ptr::new(0))), 0);
    assert_eq!(u64::from(CellPtr::CtrPtr(Ptr::new(5))), 10);
    assert_eq!(u64::from(CellPtr::DupPtr(Ptr::new(5))), 11);
    assert_eq!(u64::from(CellPtr::Era), u64::MAX - 1);
    for cell_ptr in [
        CellPtr::Era,
        CellPtr::CtrPtr(Ptr::new(0)),
        CellPtr::DupPtr(Ptr::new(0)),
        CellPtr::CtrPtr(Ptr::new(u32::MAX)),
        CellPtr::DupPtr(Ptr::new(u32::MAX)),
    ] {
        assert_eq!(CellPtr::try_from(u64::from(cell_ptr)), Ok(cell_ptr));
    }
    assert_eq!(CellPtr::try_from(1u64 << 40), Err(1u64 << 40));
    assert_eq!(Ptr::try_from_cell_ptr(CellPtr::Era), Err(CellPtr::Era));
    assert_eq!(Ptr::try_from_cell_ptr(CellPtr::DupPtr(Ptr::new(3))), Ok(Ptr::new(3)));
}

#[test]
fn heap_text() {
    let mut heap = Heap::new(8);
    let var = heap.alloc_var();
    let ctr = heap.alloc_ctr(Some((var, CellPtr::Era)));
    let dup = heap.alloc_dup(Some((ctr, var)));
    assert_eq!(var.to_string(), "x.0");
    assert_eq!(heap.display_cell(CellPtr::Era).to_string(), "(era)");
    assert_eq!(heap.display_cell(ctr).to_string(), "(Ctr x.0 (era))");
    assert_eq!(heap.display_term(TermPtr::CellPtr(dup)).to_string(), "(Dup (Ctr x.0 (era)) x.0)");
    assert_eq!(heap.display_redex(ctr, CellPtr::Era), "(Ctr x.0 (era)) ⋈ (era)");
    assert_eq!(heap.display_bind(var, CellPtr::Era), "x.0 ← (era)");
    assert_eq!(heap.display_connect(var, VarPtr(Ptr::new(12))), "x.0 ↔ x.12");
    assert_eq!(heap.display_cell(CellPtr::CtrPtr(Ptr::new(7))).to_string(), "<n/a>");
}
