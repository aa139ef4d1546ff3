use strandal::fault::Fault;
use strandal::strandal::net::{Net, NetBuilder};
use strandal::strandal::machine::Class;
use strandal::strandal::runtime::{Runtime, Scope};
use strandal::strandal::stats::{Counter, LocalStats};
use strandal::strandal::store::{FreePtrs, Ptr, Store};
use strandal::strandal::term::{Cell, Term, TermPtr};
use strandal::strandal::var::{Var, VarValue};

fn wire(net: &Net, ptr: Ptr) -> Option<VarValue> {
    match net.store.get(ptr) {
        Some(Term::Var(var)) => var.read(),
        other => panic!("expected a wire at {:?}, found {:?}", ptr, other),
    }
}

fn cell(net: &Net, ptr: Ptr) -> Cell {
    match net.store.get(ptr) {
        Some(Term::Cell(cell)) => *cell,
        other => panic!("expected an agent at {:?}, found {:?}", ptr, other),
    }
}

fn ptr_of(term: TermPtr) -> Ptr {
    match term {
        TermPtr::Ptr(ptr) => ptr,
        TermPtr::Era => panic!("expected a slot"),
    }
}

fn bound_cell(net: &Net, head: Ptr) -> (Ptr, Cell) {
    match wire(net, head) {
        Some(VarValue::Cell(ptr)) => (ptr, cell(net, ptr)),
        other => panic!("expected a bound wire, found {:?}", other),
    }
}

/// The two ports are wires that name each other.
fn is_identity(net: &Net, ports: Option<(TermPtr, TermPtr)>) -> bool {
    let (p0, p1) = ports.expect("ports");
    let (p0, p1) = (ptr_of(p0), ptr_of(p1));
    wire(net, p0) == Some(VarValue::Var(p1)) && wire(net, p1) == Some(VarValue::Var(p0))
}

fn rule_counters(runtime: &Runtime) -> [usize; 11] {
    let s = &runtime.stats;
    [
        s.anni_era_era(),
        s.anni_app_app(),
        s.anni_lam_lam(),
        s.anni_dup_dup(),
        s.comm_dup_dup(),
        s.comm_era_app(),
        s.comm_era_lam(),
        s.comm_era_dup(),
        s.comm_app_lam(),
        s.comm_app_dup(),
        s.comm_lam_dup(),
    ]
}

#[test]
fn test_net() {
    let mut net = Net::new();
    let r = net.var();
    let i1_var = net.var();
    let i1 = net.lam(i1_var.0, i1_var.1);
    let i2_var = net.var();
    let i2 = net.lam(i2_var.0, i2_var.1);
    let app = net.app(r.0, i2);
    net.head(r.1);
    net.eqn(i1, app);

    let mut runtime = Runtime::new();
    assert_eq!(runtime.eval(&mut net), Ok(()));
}

#[test]
fn trivial_erasure() {
    let mut net = Net::with_capacity(16);
    let left = net.era();
    let right = net.era();
    net.eqn(left, right);
    let mut runtime = Runtime::new();
    assert_eq!(runtime.eval(&mut net), Ok(()));
    assert_eq!(rule_counters(&runtime), [1, 0, 0, 0, 0, 0, 0, 0, 0, 0, 0]);
    assert_eq!(runtime.stats.binds(), 0);
    assert_eq!(runtime.stats.connects(), 0);
    assert_eq!(runtime.stats.allocs(), 0);
    assert_eq!(net.head.len(), 0);
    assert_eq!(net.body.len(), 0);
    assert_eq!(net.store.len(), 0);
}

#[test]
fn identity_on_identity() {
    let mut net = Net::with_capacity(16);
    let x = net.var();
    let i1 = net.lam(x.0, x.1);
    let y = net.var();
    let i2 = net.lam(y.0, y.1);
    net.eqn(i1, i2);
    assert_eq!(net.store.len(), 4);
    let mut runtime = Runtime::new();
    assert_eq!(runtime.eval(&mut net), Ok(()));
    assert_eq!(rule_counters(&runtime), [0, 0, 1, 0, 0, 0, 0, 0, 0, 0, 0]);
    assert_eq!(runtime.stats.connects(), 2);
    assert_eq!(runtime.stats.binds(), 0);
    assert_eq!(net.store.len(), 0);
    assert_eq!(net.store.next(), 4);
}

#[test]
fn identity_applied_to_identity() {
    let mut net = Net::with_capacity(64);
    let r = net.var();
    let head = r.1.ptr();
    let x = net.var();
    let i1 = net.lam(x.0, x.1);
    let y = net.var();
    let i2 = net.lam(y.0, y.1);
    let app = net.app(r.0, i2);
    net.head(r.1);
    net.eqn(i1, app);
    let mut runtime = Runtime::new();
    assert_eq!(runtime.eval(&mut net), Ok(()));
    assert!(runtime.stats.anni_lam_lam() >= 1 || runtime.stats.comm_app_lam() >= 1);
    assert_eq!(runtime.stats.comm_app_lam(), 1);
    assert_eq!(runtime.stats.anni_lam_lam(), 1);
    assert_eq!(runtime.stats.anni_app_app(), 1);
    assert_eq!(runtime.stats.alloc_vars(), 4);
    assert_eq!(runtime.stats.alloc_cells(), 2);
    let (_, lam) = bound_cell(&net, head);
    match lam {
        Cell::Lam(ports) => assert!(is_identity(&net, ports)),
        other => panic!("expected a lambda, found {:?}", other),
    }
    // the head wire, the lambda and its two wires are what is left
    assert_eq!(net.store.len(), 4);
    assert_eq!(net.head, vec![TermPtr::Ptr(head)]);
}

#[test]
fn eraser_meets_duplicator() {
    let mut net = Net::with_capacity(16);
    let a = net.var();
    let b = net.var();
    let (head_a, head_b) = (a.1.ptr(), b.1.ptr());
    let dup = net.dup(a.0, b.0);
    net.head(a.1);
    net.head(b.1);
    let era = net.era();
    net.eqn(era, dup);
    let mut runtime = Runtime::new();
    assert_eq!(runtime.eval(&mut net), Ok(()));
    assert_eq!(rule_counters(&runtime), [0, 0, 0, 0, 0, 0, 0, 1, 0, 0, 0]);
    assert_eq!(runtime.stats.binds(), 2);
    assert_eq!(wire(&net, head_a), Some(VarValue::Era));
    assert_eq!(wire(&net, head_b), Some(VarValue::Era));
    assert_eq!(net.store.len(), 2);
    assert_eq!(net.store.get(ptr_of(dup)), &None);
}

#[test]
fn duplicator_duplicates_an_identity() {
    let mut net = Net::with_capacity(64);
    let a = net.var();
    let b = net.var();
    let (head_a, head_b) = (a.1.ptr(), b.1.ptr());
    let x = net.var();
    let id = net.lam(x.0, x.1);
    let dup = net.dup_with_label(a.0, b.0, Ptr::new(7));
    net.head(a.1);
    net.head(b.1);
    net.eqn(id, dup);
    let mut runtime = Runtime::new();
    assert_eq!(runtime.eval(&mut net), Ok(()));
    assert_eq!(runtime.stats.comm_lam_dup(), 1);
    assert_eq!(runtime.stats.anni_dup_dup(), 1);
    assert_eq!(runtime.stats.annihilations() + runtime.stats.commutations(), 2);
    let (ptr_a, copy_a) = bound_cell(&net, head_a);
    let (ptr_b, copy_b) = bound_cell(&net, head_b);
    assert_ne!(ptr_a, ptr_b);
    match (copy_a, copy_b) {
        (Cell::Lam(ports_a), Cell::Lam(ports_b)) => {
            assert!(is_identity(&net, ports_a));
            assert!(is_identity(&net, ports_b));
            assert_ne!(ports_a, ports_b);
        }
        other => panic!("expected two lambdas, found {:?}", other),
    }
}

#[test]
fn four_agent_commute_cascade() {
    let mut net = Net::with_capacity(64);
    let a = net.var();
    let b = net.var();
    let c = net.var();
    let d = net.var();
    let heads = [a.1.ptr(), b.1.ptr(), c.1.ptr(), d.1.ptr()];
    let left = ptr_of(net.dup_with_label(a.0, b.0, Ptr::new(1)));
    let right = ptr_of(net.dup_with_label(c.0, d.0, Ptr::new(2)));
    net.head(a.1);
    net.head(b.1);
    net.head(c.1);
    net.head(d.1);
    net.eqn(TermPtr::Ptr(left), TermPtr::Ptr(right));
    let mut runtime = Runtime::new();
    assert_eq!(runtime.eval(&mut net), Ok(()));
    assert_eq!(rule_counters(&runtime), [0, 0, 0, 0, 1, 0, 0, 0, 0, 0, 0]);
    assert_eq!(runtime.stats.alloc_vars(), 4);
    // four agents stand where two stood: both slots are reused, two are new
    assert_eq!(runtime.stats.alloc_cells(), 2);
    assert_eq!(net.store.len(), 4 + 4 + 4);
    let x = [Ptr::new(6), Ptr::new(7), Ptr::new(8), Ptr::new(9)];
    let x = x.map(TermPtr::Ptr);
    // a and b meet the copies of the right duplicator, c and d those of the left one
    assert_eq!(bound_cell(&net, heads[0]), (right, Cell::Dup(Some((x[0], x[3])), Some(Ptr::new(2)))));
    assert_eq!(
        bound_cell(&net, heads[1]),
        (Ptr::new(11), Cell::Dup(Some((x[2], x[1])), Some(Ptr::new(2))))
    );
    assert_eq!(bound_cell(&net, heads[2]), (left, Cell::Dup(Some((x[0], x[2])), Some(Ptr::new(1)))));
    assert_eq!(
        bound_cell(&net, heads[3]),
        (Ptr::new(10), Cell::Dup(Some((x[3], x[1])), Some(Ptr::new(1))))
    );
    for p in [6, 7, 8, 9] {
        assert_eq!(wire(&net, Ptr::new(p)), None);
    }
}

#[test]
fn the_same_net_gives_the_same_heads() {
    let build = || {
        let mut net = Net::with_capacity(64);
        let a = net.var();
        let b = net.var();
        let x = net.var();
        let id = net.lam(x.0, x.1);
        let dup = net.dup(a.0, b.0);
        net.head(a.1);
        net.head(b.1);
        net.eqn(id, dup);
        net
    };
    let mut first = build();
    let mut second = build();
    assert_eq!(Runtime::new().eval(&mut first), Ok(()));
    assert_eq!(Runtime::new().eval(&mut second), Ok(()));
    for i in 0..first.store.next() {
        assert_eq!(first.store.get(Ptr::new(i)), second.store.get(Ptr::new(i)));
    }
    assert_eq!(first.head, second.head);
}

#[test]
fn an_equation_gives_the_same_counts_either_way_round() {
    let build = |flip: bool| {
        let mut net = Net::with_capacity(64);
        let a = net.var();
        let x = net.var();
        let lam = net.lam(x.0, x.1);
        let app = net.app(a.0, TermPtr::Era);
        net.head(a.1);
        if flip {
            net.eqn(app, lam);
        } else {
            net.eqn(lam, app);
        }
        let mut runtime = Runtime::new();
        assert_eq!(runtime.eval(&mut net), Ok(()));
        (rule_counters(&runtime), runtime.stats.binds(), runtime.stats.connects(), net.store.len())
    };
    assert_eq!(build(false), build(true));
}

#[test]
fn arena_exhaustion_is_reported() {
    let mut net = Net::with_capacity(6);
    let a = net.var();
    let b = net.var();
    let c = net.var();
    let d = net.var();
    let lam = net.lam(a.0, b.0);
    let dup = net.dup(c.0, d.0);
    net.eqn(lam, dup);
    let mut runtime = Runtime::new();
    assert_eq!(runtime.eval(&mut net), Err(Fault::ArenaExhausted));
    assert_eq!(net.store.next(), 6);
}

#[test]
fn a_dangling_reference_is_reported() {
    let mut net = Net::with_capacity(6);
    net.eqn(TermPtr::Era, TermPtr::Ptr(Ptr::new(3)));
    assert_eq!(Runtime::new().eval(&mut net), Err(Fault::OutOfBounds));

    let mut net = Net::with_capacity(6);
    let a = net.var();
    net.store.free(a.0.ptr());
    net.eqn(TermPtr::Era, a.1);
    assert_eq!(Runtime::new().eval(&mut net), Err(Fault::EmptySlot));
}

#[test]
fn an_agent_under_a_wire_is_a_kind_mismatch() {
    let mut store = Store::with_capacity(4);
    let lam = store.allocate(Some(Term::Cell(Cell::Lam(None))));
    let runtime = Runtime::new();
    assert_eq!(runtime.swap(&mut store, lam, VarValue::Era), Err(Fault::KindMismatch));
    assert_eq!(runtime.get_var(&store, lam), Err(Fault::KindMismatch));
    assert_eq!(runtime.get_cell(&store, lam), Ok(Cell::Lam(None)));
}

#[test]
fn the_step_limit_is_reported() {
    let mut net = Net::with_capacity(16);
    let a = net.var();
    let b = net.var();
    let dup = net.dup(a.0, b.0);
    net.head(a.1);
    net.head(b.1);
    net.eqn(TermPtr::Era, dup);
    let mut runtime = Runtime::new();
    assert_eq!(runtime.eval_within(&mut net, 2), Err(Fault::StepLimit));

    let mut net = Net::with_capacity(16);
    let a = net.var();
    let b = net.var();
    let dup = net.dup(a.0, b.0);
    net.head(a.1);
    net.head(b.1);
    net.eqn(TermPtr::Era, dup);
    let mut runtime = Runtime::new();
    assert_eq!(runtime.eval_within(&mut net, 3), Ok(()));
}

#[test]
fn a_chain_of_three_wires_carries_a_binding_to_its_end() {
    let mut net = Net::with_capacity(16);
    let a = net.var();
    let b = net.var();
    let c = net.var();
    let head = c.1.ptr();
    net.head(c.1);
    net.eqn(a.0, b.0);
    net.eqn(b.1, c.0);
    net.eqn(a.1, TermPtr::Era);
    let mut runtime = Runtime::new();
    assert_eq!(runtime.eval(&mut net), Ok(()));
    assert_eq!(runtime.stats.connects(), 2);
    assert_eq!(runtime.stats.binds(), 1);
    assert_eq!(wire(&net, head), Some(VarValue::Era));
    assert_eq!(net.store.len(), 1);
}

fn rank(term: &Option<Term>) -> Option<u8> {
    match term {
        Some(Term::Var(var)) => Some(match var.read() {
            None => 0,
            Some(VarValue::Var(_)) => 1,
            Some(VarValue::Era) | Some(VarValue::Cell(_)) => 2,
        }),
        _ => None,
    }
}

fn snapshot(net: &Net) -> Vec<Option<Term>> {
    (0..net.store.next()).map(|i| *net.store.get(Ptr::new(i))).collect()
}

/// Two lambdas over shared wires, an application, a duplicator and an
/// eraser, with two wires left to observe.
fn busy_net() -> Net {
    let mut net = Net::with_capacity(256);
    let a = net.var();
    let b = net.var();
    let x = net.var();
    let y = net.var();
    let id = net.lam(x.0, x.1);
    let pair = net.lam(y.0, TermPtr::Era);
    let dup = net.dup(a.0, pair);
    let app = net.app(b.0, y.1);
    net.head(a.1);
    net.head(b.1);
    net.eqn(id, dup);
    net.eqn(app, TermPtr::Era);
    net
}

#[test]
fn wires_only_go_forward() {
    let mut net = busy_net();
    let before = snapshot(&net);
    assert_eq!(Runtime::new().eval(&mut net), Ok(()));
    let after = snapshot(&net);
    let mut wires = 0;
    for (i, slot) in before.iter().enumerate() {
        if let Some(was) = rank(slot) {
            wires += 1;
            assert!(
                after[i].is_none() || rank(&after[i]).map_or(false, |now| now >= was),
                "slot {} went from {:?} to {:?}",
                i,
                slot,
                after[i]
            );
        }
        if slot.is_none() {
            assert!(after[i].is_none());
        }
    }
    assert_eq!(wires, 4);
}

#[test]
fn slots_handed_out_less_released_are_the_change_in_occupancy() {
    let mut net = busy_net();
    let before = snapshot(&net);
    let occupied_before = net.store.len();
    let mut runtime = Runtime::new();
    assert_eq!(runtime.eval(&mut net), Ok(()));
    let after = snapshot(&net);
    let handed_out = after.len() - before.len();
    let released = after
        .iter()
        .enumerate()
        .filter(|(i, slot)| slot.is_none() && (*i >= before.len() || before[*i].is_some()))
        .count();
    assert_eq!(runtime.stats.allocs(), handed_out);
    assert_eq!(
        net.store.len() as usize + released,
        occupied_before as usize + handed_out
    );
    assert!(released > 0);
}

#[test]
fn every_rewrite_is_counted_once() {
    let mut net = busy_net();
    let mut runtime = Runtime::new();
    assert_eq!(runtime.eval(&mut net), Ok(()));
    let by_rule: usize = rule_counters(&runtime).iter().sum();
    assert_eq!(runtime.stats.annihilations() + runtime.stats.commutations(), by_rule);
    // lambda against duplicator, the two copies of the duplicator against each other,
    // application against eraser, and eraser against the lambda that the application held
    assert_eq!(runtime.stats.comm_lam_dup(), 1);
    assert_eq!(runtime.stats.anni_dup_dup(), 1);
    assert_eq!(runtime.stats.comm_era_app(), 1);
    assert!(by_rule >= 3);
}

#[test]
fn the_kind_of_an_equation_does_not_depend_on_the_order() {
    let mut net = Net::with_capacity(16);
    let x = net.var();
    let lam = net.lam(TermPtr::Era, TermPtr::Era);
    let dup = net.dup(TermPtr::Era, TermPtr::Era);
    let gone = net.var();
    net.store.free(gone.0.ptr());
    let terms = [
        TermPtr::Era,
        TermPtr::Ptr(x.0.ptr()),
        lam,
        dup,
        TermPtr::Ptr(gone.1.ptr()),
        TermPtr::Ptr(Ptr::new(99)),
    ];
    let runtime = Runtime::new();
    for left in terms {
        for right in terms {
            assert_eq!(
                runtime.classify(&net.store, left, right),
                runtime.classify(&net.store, right, left)
            );
        }
    }
    assert_eq!(runtime.classify(&net.store, terms[0], terms[0]), Class::Void);
    assert_eq!(runtime.classify(&net.store, terms[0], terms[2]), Class::Erase);
    assert_eq!(runtime.classify(&net.store, terms[0], terms[1]), Class::BindEra);
    assert_eq!(runtime.classify(&net.store, terms[2], terms[3]), Class::Interact);
    assert_eq!(runtime.classify(&net.store, terms[1], terms[3]), Class::BindCell);
    assert_eq!(runtime.classify(&net.store, terms[1], terms[1]), Class::Connect);
    assert_eq!(runtime.classify(&net.store, terms[4], terms[0]), Class::Broken(Fault::EmptySlot));
    assert_eq!(runtime.classify(&net.store, terms[4], terms[5]), Class::Broken(Fault::OutOfBounds));
    assert_eq!(runtime.classify(&net.store, terms[5], terms[4]), Class::Broken(Fault::OutOfBounds));
}

#[test]
fn a_counter_at_its_maximum_is_reported() {
    let runtime = Runtime::new();
    let mut stats = LocalStats::new();
    stats.set(Counter::Binds, usize::MAX);
    assert_eq!(stats.get(Counter::Binds), usize::MAX);
    assert_eq!(runtime.count(&mut stats, Counter::Binds), Err(Fault::CounterOverflow));
    assert_eq!(runtime.count(&mut stats, Counter::Connects), Ok(()));
    assert_eq!(stats.get(Counter::Connects), 1);

    // the counters of a task that do not fit are not merged
    let mut runtime = Runtime::new();
    runtime.stats.update(stats);
    let mut net = Net::with_capacity(16);
    let x = net.var();
    net.head(x.1);
    net.eqn(x.0, TermPtr::Era);
    assert_eq!(runtime.eval(&mut net), Err(Fault::CounterOverflow));
    assert_eq!(runtime.stats.binds(), usize::MAX);
}

#[test]
fn a_full_buffer_releases_at_once() {
    // more agents are consumed in one task than its buffer holds
    let mut net = Net::with_capacity(256);
    let mut left = TermPtr::Era;
    let mut right = TermPtr::Era;
    for _ in 0..15 {
        left = net.lam(TermPtr::Era, left);
        right = net.lam(TermPtr::Era, right);
    }
    net.eqn(left, right);
    assert_eq!(net.store.len(), 30);
    let mut runtime = Runtime::new();
    assert_eq!(runtime.eval(&mut net), Ok(()));
    assert_eq!(runtime.stats.anni_lam_lam(), 15);
    assert_eq!(runtime.stats.anni_era_era(), 16);
    assert_eq!(net.store.len(), 0);
}

#[test]
fn two_duplicators_cross_wherever_they_stand() {
    let mut net = Net::with_capacity(64);
    // slots that have nothing to do with the equation, before and between
    let spare = net.var();
    let d = net.var();
    let c = net.var();
    let lam = net.lam(TermPtr::Era, TermPtr::Era);
    let right = ptr_of(net.dup_with_label(c.0, d.0, Ptr::new(3)));
    let b = net.var();
    let a = net.var();
    let left = ptr_of(net.dup_with_label(a.0, b.0, Ptr::new(7)));
    let heads = [a.1.ptr(), b.1.ptr(), c.1.ptr(), d.1.ptr()];
    net.head(a.1);
    net.head(b.1);
    net.head(c.1);
    net.head(d.1);
    net.head(spare.1);
    net.eqn(TermPtr::Ptr(left), TermPtr::Ptr(right));
    let first = net.store.next();
    let before = snapshot(&net);
    let mut runtime = Runtime::new();
    assert_eq!(runtime.eval(&mut net), Ok(()));
    assert_eq!(rule_counters(&runtime), [0, 0, 0, 0, 1, 0, 0, 0, 0, 0, 0]);
    assert_eq!(runtime.stats.alloc_vars(), 4);
    assert_eq!(runtime.stats.alloc_cells(), 2);
    assert_eq!(runtime.stats.binds(), 4);
    assert_eq!(runtime.stats.connects(), 0);
    assert_eq!(net.store.next(), first + 6);
    let x = [first, first + 1, first + 2, first + 3].map(|i| TermPtr::Ptr(Ptr::new(i)));
    assert_eq!(bound_cell(&net, heads[0]), (right, Cell::Dup(Some((x[0], x[3])), Some(Ptr::new(3)))));
    assert_eq!(
        bound_cell(&net, heads[1]),
        (Ptr::new(first + 5), Cell::Dup(Some((x[2], x[1])), Some(Ptr::new(3))))
    );
    assert_eq!(bound_cell(&net, heads[2]), (left, Cell::Dup(Some((x[0], x[2])), Some(Ptr::new(7)))));
    assert_eq!(
        bound_cell(&net, heads[3]),
        (Ptr::new(first + 4), Cell::Dup(Some((x[3], x[1])), Some(Ptr::new(7))))
    );
    for i in 0..4 {
        assert_eq!(wire(&net, Ptr::new(first + i)), None);
    }
    // the slots that the equation does not name are as they were
    assert_eq!(*net.store.get(spare.0.ptr()), before[spare.0.ptr().index() as usize]);
    assert_eq!(*net.store.get(ptr_of(lam)), before[ptr_of(lam).index() as usize]);
}

#[test]
fn a_connection_counts_the_same_either_way_round() {
    // a bound wire against an unset one, the end of a chain against a bound wire,
    // two unset wires
    for shape in 0..3 {
        let build = |flip: bool| {
            let mut net = Net::with_capacity(64);
            let a = net.var();
            let b = net.var();
            let (left, right) = match shape {
                0 => {
                    let lam = net.lam(TermPtr::Era, TermPtr::Era);
                    net.head(b.1);
                    net.eqn(a.0, lam);
                    (a.1, b.0)
                }
                1 => {
                    let c = net.var();
                    net.head(a.1);
                    net.eqn(a.0, b.0);
                    net.eqn(c.0, TermPtr::Era);
                    (b.1, c.1)
                }
                _ => {
                    net.head(a.1);
                    net.head(b.1);
                    (a.0, b.0)
                }
            };
            if flip {
                net.eqn(right, left);
            } else {
                net.eqn(left, right);
            }
            let mut runtime = Runtime::new();
            let done = runtime.eval(&mut net);
            (done, rule_counters(&runtime), runtime.stats.binds(), runtime.stats.connects())
        };
        assert_eq!(build(false), build(true));
        assert_eq!(build(false).0, Ok(()));
    }
}

#[test]
fn two_agents_of_one_kind_count_the_same_either_way_round() {
    let build = |flip: bool, same_label: bool| {
        let mut net = Net::with_capacity(64);
        let a = net.var();
        let b = net.var();
        net.head(a.1);
        net.head(b.1);
        let left = net.dup_with_label(a.0, TermPtr::Era, Ptr::new(1));
        let right = net.dup_with_label(b.0, TermPtr::Era, Ptr::new(if same_label { 1 } else { 2 }));
        if flip {
            net.eqn(right, left);
        } else {
            net.eqn(left, right);
        }
        let mut runtime = Runtime::new();
        assert_eq!(runtime.eval(&mut net), Ok(()));
        (
            rule_counters(&runtime),
            runtime.stats.binds(),
            runtime.stats.connects(),
            runtime.stats.alloc_vars(),
            runtime.stats.alloc_cells(),
        )
    };
    assert_eq!(build(false, false), build(true, false));
    assert_eq!(build(false, true), build(true, true));
    // the two second copies are erased, and the erasers meet on the wire they share
    assert_eq!(build(false, false).0, [1, 0, 0, 0, 1, 0, 0, 2, 0, 0, 0]);
    assert_eq!(build(false, true).0, [1, 0, 0, 1, 0, 0, 0, 0, 0, 0, 0]);
}

/// A store with the wires in the given states, in order of their slots.
fn wires(states: &[Option<VarValue>]) -> Store {
    let mut store = Store::with_capacity(16);
    for state in states {
        let mut var = Var::new();
        if let Some(value) = state {
            var.set(*value);
        }
        store.allocate(Some(Term::Var(var)));
    }
    store
}

fn state(store: &Store, index: u32) -> Option<Option<VarValue>> {
    match store.get(Ptr::new(index)) {
        Some(Term::Var(var)) => Some(var.read()),
        _ => None,
    }
}

#[test]
fn a_walk_empties_the_wires_it_passes_and_rests_on_an_unset_one() {
    let link = |index: u32| Some(VarValue::Var(Ptr::new(index)));
    let mut store = wires(&[link(1), link(2), None, None]);
    let runtime = Runtime::new();
    let (mut scope, mut free_ptrs, mut stats) = (Scope::new(), FreePtrs::new(), LocalStats::new());
    let value = VarValue::Cell(Ptr::new(9));
    let found =
        runtime.walk_var(&mut scope, &mut store, Ptr::new(0), None, &mut free_ptrs, &mut stats, value);
    assert_eq!(found, Ok(VarValue::Var(Ptr::new(2))));
    assert_eq!(state(&store, 0), None);
    assert_eq!(state(&store, 1), None);
    assert_eq!(state(&store, 2), Some(Some(value)));
    assert_eq!(state(&store, 3), Some(None));
    assert_eq!(store.len(), 2);
    assert_eq!(free_ptrs.len(), 0);
    assert_eq!(scope.len(), 0);
}

#[test]
fn a_walk_retires_the_bound_wire_it_ends_on() {
    let link = |index: u32| Some(VarValue::Var(Ptr::new(index)));
    for bound in [VarValue::Era, VarValue::Cell(Ptr::new(7))] {
        let mut store = wires(&[link(1), Some(bound)]);
        let runtime = Runtime::new();
        let (mut scope, mut free_ptrs, mut stats) = (Scope::new(), FreePtrs::new(), LocalStats::new());
        let found = runtime.walk_var(
            &mut scope,
            &mut store,
            Ptr::new(0),
            None,
            &mut free_ptrs,
            &mut stats,
            VarValue::Era,
        );
        assert_eq!(found, Ok(bound));
        assert_eq!(state(&store, 0), None);
        // the bound wire waits in the buffer with the value written over it
        assert_eq!(state(&store, 1), Some(Some(VarValue::Era)));
        assert_eq!(free_ptrs.len(), 1);
        assert_eq!(free_ptrs.pop(), Some(Ptr::new(1)));
    }
}

#[test]
fn a_walk_ends_on_a_link_back_to_where_it_came_from() {
    let link = |index: u32| Some(VarValue::Var(Ptr::new(index)));
    let mut store = wires(&[link(1), link(0)]);
    let runtime = Runtime::new();
    let (mut scope, mut free_ptrs, mut stats) = (Scope::new(), FreePtrs::new(), LocalStats::new());
    let value = VarValue::Var(Ptr::new(5));
    let found =
        runtime.walk_var(&mut scope, &mut store, Ptr::new(0), None, &mut free_ptrs, &mut stats, value);
    assert_eq!(found, Ok(VarValue::Var(Ptr::new(1))));
    assert_eq!(state(&store, 0), None);
    assert_eq!(state(&store, 1), Some(Some(value)));
    assert_eq!(free_ptrs.len(), 0);
}
