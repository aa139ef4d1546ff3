use strandal::icomb::net::cell::CellPtr;
use strandal::icomb::net::equation::Equation;
use strandal::icomb::net::term::TermPtr as IcombTermPtr;
use strandal::icomb::net::var::VarPtr;
use strandal::icomb::net::Net as IcombNet;
use strandal::icomb::store::Ptr as IcombPtr;
use strandal::strandal::display::{
    display_agent, display_term, CellDisplay, CellPtrDisplay, TermDisplay, VarDisplay,
};
use strandal::strandal::net::{Net, NetBuilder};
use strandal::strandal::stats::{GlobalStats, LocalStats, Stats};
use strandal::strandal::store::Ptr;
use strandal::strandal::term::{Cell, Term, TermPtr};
use strandal::strandal::var::Var;
use strandal::text::decimal_string;

#[test]
fn numbers_are_written_in_decimal() {
    assert_eq!(decimal_string(0), "0");
    assert_eq!(decimal_string(7), "7");
    assert_eq!(decimal_string(10), "10");
    assert_eq!(decimal_string(4096), "4096");
    assert_eq!(decimal_string(u64::MAX), "18446744073709551615");
    assert_eq!(Ptr::new(42).to_string(), "#42");
}

#[test]
fn terms_are_written_with_their_slots() {
    let mut net = Net::with_capacity(16);
    let x = net.var();
    let y = net.var();
    let lam = net.lam(x.0, TermPtr::Era);
    let app = net.app(lam, y.0);
    let dup = net.store.allocate(Some(Term::Cell(Cell::Dup(
        Some((app, TermPtr::Ptr(x.1.ptr()))),
        Some(Ptr::new(9)),
    ))));
    let bare = net.store.allocate(Some(Term::Cell(Cell::Lam(None))));
    assert_eq!(VarDisplay(Ptr::new(1), &Var::new()).to_string(), "x.1");
    assert_eq!(TermDisplay(&net.store, &TermPtr::Era).to_string(), "ε");
    assert_eq!(TermDisplay(&net.store, &lam).to_string(), "(λ.2 x.0 ε)");
    assert_eq!(TermDisplay(&net.store, &app).to_string(), "(@.3 (λ.2 x.0 ε) x.1)");
    assert_eq!(
        CellPtrDisplay(&net.store, dup).to_string(),
        "(δ.4 (@.3 (λ.2 x.0 ε) x.1) x.0 {9})"
    );
    assert_eq!(CellPtrDisplay(&net.store, bare).to_string(), "(@#5 ⊢ ⊣)");
    assert_eq!(CellPtrDisplay(&net.store, Ptr::new(99)).to_string(), "<n/a>");
    let loose = Cell::Dup(Some((TermPtr::Era, lam)), None);
    assert_eq!(CellDisplay(&net.store, None, &loose).to_string(), "(δ ε (λ.2 x.0 ε))");
    assert_eq!(CellDisplay(&net.store, None, &Cell::App(None)).to_string(), "(@ ⊢ ⊣)");
    assert_eq!(display_term(&net.store, app, 1), "(@.3 ... x.1)");
    assert_eq!(display_agent(&net.store, None, &loose, 0), "...");
    assert_eq!(CellDisplay::ERA_SYMBOL, "ε");
    assert_eq!(CellDisplay::DUP_SYMBOL, "δ");
    assert_eq!(CellDisplay::APP_SYMBOL, "@");
    assert_eq!(CellDisplay::LAM_SYMBOL, "λ");
}

#[test]
fn the_counters_are_summed_up_in_three_lines() {
    let mut global_stats = GlobalStats::new();
    let mut stats = LocalStats::new();
    stats.inc_anni_era_era();
    stats.inc_anni_lam_lam();
    stats.inc_anni_lam_lam();
    stats.inc_comm_app_dup();
    stats.inc_comm_dup_dup();
    stats.inc_binds();
    stats.inc_alloc_vars();
    stats.inc_alloc_cells();
    global_stats.update(stats);
    assert_eq!(
        global_stats.to_string(),
        "SUMMARY | annis: 3, comms: 2, binds: 1, connects: 0, allocs: 2\n\
         ANNIS   | ERA-ERA: 1, LAM-LAM: 2, APP-APP: 0, DUP-DUP: 0\n\
         COMMS   | ERA-APP: 0, ERA-LAM: 0, ERA-DUP: 0, APP-LAM: 0, APP-DUP: 1, LAM-DUP: 0"
    );
}

#[test]
fn a_net_of_two_kinds_is_written_with_its_equations() {
    let mut net = IcombNet::new(16);
    let x = net.var();
    let y = net.var();
    let (x_ptr, y_ptr) = (x.1.ptr, y.1.ptr);
    let ctr = net.ctr(x.0, CellPtr::Era);
    let dup = net.dup(ctr, y.0);
    net.head.push(x_ptr);
    net.head.push(y_ptr);
    net.redex(dup, CellPtr::Era);
    net.bind(x.1, CellPtr::Era);
    net.connect(y.1, strandal::icomb::net::equation::Port { ptr: x_ptr });
    assert_eq!(x_ptr.to_string(), "x.1");
    assert_eq!(net.store.display_cell(&ctr).to_string(), "(Ctr x.1 *)");
    assert_eq!(
        net.store.display_term(&IcombTermPtr::CellPtr(dup)).to_string(),
        "(Dup (Ctr x.1 *) x.2)"
    );
    assert_eq!(net.store.display_redex(&dup, &CellPtr::Era), "(Dup (Ctr x.1 *) x.2) ⋈ *");
    assert_eq!(net.store.display_bind(&x_ptr, &ctr), "x.1 ← (Ctr x.1 *)");
    assert_eq!(net.store.display_connect(x_ptr, y_ptr), "x.1 ↔ x.2");
    let bind = Equation::Bind { var_ptr: y_ptr, cell_ptr: CellPtr::Era };
    assert_eq!(net.display_equation(&bind, &net.store).to_string(), "x.2 ↔ *");
    assert_eq!(
        net.to_string(),
        "≪ x.1, x.2 | (Dup (Ctr x.1 *) x.2) ⋈ *, x.1 ↔ *, x.2 ↔ x.1 ≫"
    );
    assert_eq!(IcombNet::new(4).to_string(), "≪  |  ≫");
    assert_eq!(
        net.store.display_cell(&CellPtr::Ref(IcombPtr::new(9))).to_string(),
        "<n/a>"
    );
    assert_eq!(VarPtr(IcombPtr::new(3)).to_string(), "x.3");
    let era = IcombTermPtr::CellPtr(CellPtr::Era);
    assert_eq!(strandal::icomb::net::cell::Cell::Ctr(era, era).to_string(), "(Ctr 0 0)");
    assert_eq!(strandal::icomb::net::cell::Cell::Dup(era, era).to_string(), "(Dup 0 0)");
}
