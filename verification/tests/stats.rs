use strandal::strandal::stats::{Counter, GlobalStats, LocalStats, Stats};

#[test]
fn test_stats() {
    let mut global_stats = GlobalStats::new();
    assert_eq!(global_stats.annihilations(), 0);
    assert_eq!(global_stats.commutations(), 0);
    assert_eq!(global_stats.binds(), 0);
    assert_eq!(global_stats.connects(), 0);

    let mut stats = LocalStats::new();
    stats.inc_anni_era_era();
    stats.inc_anni_app_app();
    stats.inc_anni_lam_lam();
    stats.inc_anni_dup_dup();
    stats.inc_comm_dup_dup();
    stats.inc_comm_era_app();
    stats.inc_comm_era_lam();
    stats.inc_commute_era_dup();
    stats.inc_comm_app_lam();
    stats.inc_comm_app_dup();
    stats.inc_comm_lam_dup();
    stats.inc_binds();
    stats.inc_connects();

    global_stats.update(stats);
    assert_eq!(global_stats.annihilations(), 4);
    assert_eq!(global_stats.commutations(), 7);
    assert_eq!(global_stats.binds(), 1);
    assert_eq!(global_stats.connects(), 1);
    assert_eq!(global_stats.allocs(), 0);
}

#[test]
fn every_counter_is_merged_once() {
    let mut global_stats = GlobalStats::new();
    let mut first = LocalStats::new();
    first.inc_alloc_cells();
    first.inc_alloc_vars();
    first.inc_alloc_vars();
    first.inc_binds();
    let mut second = LocalStats::new();
    second.inc_anni_dup_dup();
    second.inc_comm_lam_dup();
    second.inc_binds();
    assert!(global_stats.fits(&first));
    global_stats.update(first);
    global_stats.update(second);
    assert_eq!(global_stats.alloc_cells(), 1);
    assert_eq!(global_stats.alloc_vars(), 2);
    assert_eq!(global_stats.allocs(), 3);
    assert_eq!(global_stats.binds(), 2);
    assert_eq!(global_stats.anni_dup_dup(), 1);
    assert_eq!(global_stats.comm_lam_dup(), 1);
    assert_eq!(global_stats.anni_era_era(), 0);
    assert_eq!(global_stats.annihilations() + global_stats.commutations(), 2);
}

#[test]
fn totals_that_do_not_fit_are_not_merged() {
    let mut global_stats = GlobalStats::new();
    let mut most = LocalStats::new();
    most.set(Counter::AnniEraEra, usize::MAX - 1);
    most.set(Counter::AllocVars, usize::MAX);
    assert!(global_stats.fits(&most));
    global_stats.update(most);
    assert_eq!(global_stats.annihilations(), usize::MAX - 1);
    assert_eq!(global_stats.allocs(), usize::MAX);

    // one more rewrite of another rule still fits, a second does not
    let mut one = LocalStats::new();
    one.inc_comm_lam_dup();
    assert!(global_stats.fits(&one));
    let mut two = LocalStats::new();
    two.inc_comm_lam_dup();
    two.inc_anni_lam_lam();
    assert!(!global_stats.fits(&two));
    // no other slot fits, wire or agent
    let mut cell = LocalStats::new();
    cell.inc_alloc_cells();
    assert!(!global_stats.fits(&cell));
    // bindings and connections have no total
    let mut binds = LocalStats::new();
    binds.set(Counter::Binds, usize::MAX);
    binds.set(Counter::Connects, usize::MAX);
    assert!(global_stats.fits(&binds));

    global_stats.update(one);
    assert_eq!(global_stats.annihilations(), usize::MAX - 1);
    assert_eq!(global_stats.commutations(), 1);
    assert_eq!(global_stats.to_string().lines().count(), 3);
}
