//! Builders of small nets: the multiplexors and two lambda terms.

use vstd::prelude::*;

use crate::strandal::net::NetBuilder;
use crate::strandal::net::NetModel;
use crate::strandal::net::IntoTermPtr;
use crate::strandal::store::Ptr;
use crate::strandal::term::Cell;
use crate::strandal::term::TermPtr;
use crate::strandal::var::VarUse;

verus! {

/// The reference to the slot `offset` slots after the next one of the net.
pub open spec fn slot(net: NetModel, offset: nat) -> TermPtr {
    TermPtr::Ptr(Ptr((net.arena.slots.len() + offset) as u32))
}

/// The net after `m_2`: two wires, a lambda over them, and a root wire that
/// is set equal to the lambda.
pub open spec fn with_m_2(net: NetModel) -> NetModel {
    net.with_var().with_var().with_cell(Cell::Lam(Some((slot(net, 0), slot(net, 1))))).with_var().with_eqn(
        slot(net, 3),
        slot(net, 2),
    )
}

/// The net after `m_3`: that of `m_2`, two more wires and a lambda over
/// them.
pub open spec fn with_m_3(net: NetModel) -> NetModel {
    with_m_2(net).with_var().with_var().with_cell(Cell::Lam(Some((slot(net, 4), slot(net, 5)))))
}

/// The net after `id`: a wire, the lambda that joins its two ends, and a
/// result wire that is set equal to the lambda.
pub open spec fn with_id(net: NetModel) -> NetModel {
    net.with_var().with_cell(Cell::Lam(Some((slot(net, 0), slot(net, 0))))).with_var().with_eqn(
        slot(net, 2),
        slot(net, 1),
    )
}

/// The net after `dup`: two wires, the three agents of the term that
/// applies its argument to itself, and a result wire that is set equal to
/// the outer lambda.
pub open spec fn with_dup(net: NetModel) -> NetModel {
    net.with_var().with_var().with_cell(Cell::Lam(Some((slot(net, 1), slot(net, 0))))).with_cell(
        Cell::Dup(Some((slot(net, 1), slot(net, 2))), None),
    ).with_cell(Cell::Lam(Some((slot(net, 3), slot(net, 0))))).with_var().with_eqn(
        slot(net, 5),
        slot(net, 4),
    )
}

/// The multiplexor of no input: an eraser.
pub fn m_0<B: NetBuilder>(net: &mut B) -> (root: TermPtr)
    ensures
        root == TermPtr::Era,
        final(net).model() == old(net).model(),
        final(net).wf() == old(net).wf(),
{
    let era = net.era();
    return era;
}

/// The multiplexor of one input: a wire, whose two ends are the root and
/// the input.
pub fn m_1<B: NetBuilder>(net: &mut B) -> (ends: (VarUse, VarUse))
    requires
        old(net).wf(),
        old(net).model().arena.has_room(1),
    ensures
        final(net).wf(),
        final(net).model() == old(net).model().with_var(),
        ends.0.ptr == old(net).model().arena.next(),
        ends.1.ptr == old(net).model().arena.next(),
{
    let (root, x0) = net.var();
    return (root, x0);
}

/// The multiplexor of two inputs. Returns the root and the two inputs.
pub fn m_2<B: NetBuilder>(net: &mut B) -> (mux: (TermPtr, [VarUse; 2]))
    requires
        old(net).wf(),
        old(net).model().arena.has_room(4),
        old(net).model().arena.capacity <= u32::MAX,
    ensures
        final(net).wf(),
        final(net).model() == with_m_2(old(net).model()),
        mux.0 == slot(old(net).model(), 3),
        mux.1@.len() == 2,
        mux.1@[0].term_ptr() == slot(old(net).model(), 0),
        mux.1@[1].term_ptr() == slot(old(net).model(), 1),
{
    let aux_0 = net.var();
    let aux_1 = net.var();
    let ctr = net.lam(aux_0.0, aux_1.0);
    let (root, aux) = m_1(net);
    net.eqn(aux, ctr);
    return (root.into_term_ptr(), [aux_0.1, aux_1.1]);
}

/// The multiplexor of three inputs, as far as it is built: the
/// multiplexor of two, and a second lambda over two fresh wires. Returns the
/// root, the first input of the multiplexor of two, and the two fresh wires.
pub fn m_3<B: NetBuilder>(net: &mut B) -> (mux: (TermPtr, [VarUse; 3]))
    requires
        old(net).wf(),
        old(net).model().arena.has_room(7),
        old(net).model().arena.capacity <= u32::MAX,
    ensures
        final(net).wf(),
        final(net).model() == with_m_3(old(net).model()),
        mux.0 == slot(old(net).model(), 3),
        mux.1@.len() == 3,
        mux.1@[0].term_ptr() == slot(old(net).model(), 0),
        mux.1@[1].term_ptr() == slot(old(net).model(), 4),
        mux.1@[2].term_ptr() == slot(old(net).model(), 5),
{
    let (root, aux) = m_2(net);
    let aux_0 = aux[0];
    let new_aux_1 = net.var();
    let aux_2 = net.var();
    let _ctr = net.lam(new_aux_1.0, aux_2.0);
    return (root, [aux_0, new_aux_1.1, aux_2.1]);
}

/// The identity. Returns the free end of its result wire.
pub fn id<B: NetBuilder>(b: &mut B) -> (result: VarUse)
    requires
        old(b).wf(),
        old(b).model().arena.has_room(3),
        old(b).model().arena.capacity <= u32::MAX,
    ensures
        final(b).wf(),
        final(b).model() == with_id(old(b).model()),
        result.term_ptr() == slot(old(b).model(), 2),
{
    let id_var = b.var();
    let lam = b.lam(id_var.0, id_var.1);

    let result = b.var();
    b.eqn(result.0, lam);
    return result.1;
}

/// The term that applies its argument to itself. Returns the free end of
/// its result wire.
pub fn dup<B: NetBuilder>(b: &mut B) -> (result: VarUse)
    requires
        old(b).wf(),
        old(b).model().arena.has_room(6),
        old(b).model().arena.capacity <= u32::MAX,
    ensures
        final(b).wf(),
        final(b).model() == with_dup(old(b).model()),
        result.term_ptr() == slot(old(b).model(), 5),
{
    let var1 = b.var();
    let var2 = b.var();

    let app_ref = b.lam(var2.0, var1.0);
    let dup_ref = b.dup(var2.1, app_ref);
    let lam_ref = b.lam(dup_ref, var1.1);

    let result = b.var();
    b.eqn(result.0, lam_ref);
    return result.1;
}

} // verus!
