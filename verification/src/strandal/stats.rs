//! Counters of what an evaluation did: one set per task, merged into one
//! set per runtime when the task is done.

use vstd::prelude::*;
use vstd::string::StringExecFns;

use crate::text::decimal;
use crate::text::decimal_string;

verus! {

/// The events that are counted.
#[derive(Debug, Clone, Copy, PartialEq, Eq, Structural)]
pub enum Counter {
    /// Eraser met eraser.
    AnniEraEra,
    /// Application met application.
    AnniAppApp,
    /// Lambda met lambda.
    AnniLamLam,
    /// Two duplicators of one label met.
    AnniDupDup,
    /// Two duplicators of different labels met.
    CommDupDup,
    /// Eraser met application.
    CommEraApp,
    /// Eraser met lambda.
    CommEraLam,
    /// Eraser met duplicator.
    CommEraDup,
    /// Application met lambda.
    CommAppLam,
    /// Application met duplicator.
    CommAppDup,
    /// Lambda met duplicator.
    CommLamDup,
    /// A wire was bound to a value.
    Binds,
    /// Two wires were connected.
    Connects,
    /// An agent slot was handed out.
    AllocCells,
    /// A wire slot was handed out.
    AllocVars,
}

/// A set of counters as a value.
pub struct Tally {
    pub anni_era_era: nat,
    pub anni_app_app: nat,
    pub anni_lam_lam: nat,
    pub anni_dup_dup: nat,
    pub comm_dup_dup: nat,
    pub comm_era_app: nat,
    pub comm_era_lam: nat,
    pub comm_era_dup: nat,
    pub comm_app_lam: nat,
    pub comm_app_dup: nat,
    pub comm_lam_dup: nat,
    pub binds: nat,
    pub connects: nat,
    pub alloc_cells: nat,
    pub alloc_vars: nat,
}

impl Tally {
    /// All counters at zero.
    pub open spec fn zero() -> Tally {
        Tally {
            anni_era_era: 0,
            anni_app_app: 0,
            anni_lam_lam: 0,
            anni_dup_dup: 0,
            comm_dup_dup: 0,
            comm_era_app: 0,
            comm_era_lam: 0,
            comm_era_dup: 0,
            comm_app_lam: 0,
            comm_app_dup: 0,
            comm_lam_dup: 0,
            binds: 0,
            connects: 0,
            alloc_cells: 0,
            alloc_vars: 0,
        }
    }

    /// The value of one counter.
    pub open spec fn get(self, counter: Counter) -> nat {
        match counter {
            Counter::AnniEraEra => self.anni_era_era,
            Counter::AnniAppApp => self.anni_app_app,
            Counter::AnniLamLam => self.anni_lam_lam,
            Counter::AnniDupDup => self.anni_dup_dup,
            Counter::CommDupDup => self.comm_dup_dup,
            Counter::CommEraApp => self.comm_era_app,
            Counter::CommEraLam => self.comm_era_lam,
            Counter::CommEraDup => self.comm_era_dup,
            Counter::CommAppLam => self.comm_app_lam,
            Counter::CommAppDup => self.comm_app_dup,
            Counter::CommLamDup => self.comm_lam_dup,
            Counter::Binds => self.binds,
            Counter::Connects => self.connects,
            Counter::AllocCells => self.alloc_cells,
            Counter::AllocVars => self.alloc_vars,
        }
    }

    /// The tally with one counter at the given value.
    pub open spec fn with(self, counter: Counter, value: nat) -> Tally {
        match counter {
            Counter::AnniEraEra => Tally { anni_era_era: value, ..self },
            Counter::AnniAppApp => Tally { anni_app_app: value, ..self },
            Counter::AnniLamLam => Tally { anni_lam_lam: value, ..self },
            Counter::AnniDupDup => Tally { anni_dup_dup: value, ..self },
            Counter::CommDupDup => Tally { comm_dup_dup: value, ..self },
            Counter::CommEraApp => Tally { comm_era_app: value, ..self },
            Counter::CommEraLam => Tally { comm_era_lam: value, ..self },
            Counter::CommEraDup => Tally { comm_era_dup: value, ..self },
            Counter::CommAppLam => Tally { comm_app_lam: value, ..self },
            Counter::CommAppDup => Tally { comm_app_dup: value, ..self },
            Counter::CommLamDup => Tally { comm_lam_dup: value, ..self },
            Counter::Binds => Tally { binds: value, ..self },
            Counter::Connects => Tally { connects: value, ..self },
            Counter::AllocCells => Tally { alloc_cells: value, ..self },
            Counter::AllocVars => Tally { alloc_vars: value, ..self },
        }
    }

    /// The tally with one counter one higher.
    pub open spec fn bump(self, counter: Counter) -> Tally {
        match counter {
            Counter::AnniEraEra => Tally { anni_era_era: self.anni_era_era + 1, ..self },
            Counter::AnniAppApp => Tally { anni_app_app: self.anni_app_app + 1, ..self },
            Counter::AnniLamLam => Tally { anni_lam_lam: self.anni_lam_lam + 1, ..self },
            Counter::AnniDupDup => Tally { anni_dup_dup: self.anni_dup_dup + 1, ..self },
            Counter::CommDupDup => Tally { comm_dup_dup: self.comm_dup_dup + 1, ..self },
            Counter::CommEraApp => Tally { comm_era_app: self.comm_era_app + 1, ..self },
            Counter::CommEraLam => Tally { comm_era_lam: self.comm_era_lam + 1, ..self },
            Counter::CommEraDup => Tally { comm_era_dup: self.comm_era_dup + 1, ..self },
            Counter::CommAppLam => Tally { comm_app_lam: self.comm_app_lam + 1, ..self },
            Counter::CommAppDup => Tally { comm_app_dup: self.comm_app_dup + 1, ..self },
            Counter::CommLamDup => Tally { comm_lam_dup: self.comm_lam_dup + 1, ..self },
            Counter::Binds => Tally { binds: self.binds + 1, ..self },
            Counter::Connects => Tally { connects: self.connects + 1, ..self },
            Counter::AllocCells => Tally { alloc_cells: self.alloc_cells + 1, ..self },
            Counter::AllocVars => Tally { alloc_vars: self.alloc_vars + 1, ..self },
        }
    }

    /// The sum of two tallies, counter by counter.
    pub open spec fn plus(self, other: Tally) -> Tally {
        Tally {
            anni_era_era: self.anni_era_era + other.anni_era_era,
            anni_app_app: self.anni_app_app + other.anni_app_app,
            anni_lam_lam: self.anni_lam_lam + other.anni_lam_lam,
            anni_dup_dup: self.anni_dup_dup + other.anni_dup_dup,
            comm_dup_dup: self.comm_dup_dup + other.comm_dup_dup,
            comm_era_app: self.comm_era_app + other.comm_era_app,
            comm_era_lam: self.comm_era_lam + other.comm_era_lam,
            comm_era_dup: self.comm_era_dup + other.comm_era_dup,
            comm_app_lam: self.comm_app_lam + other.comm_app_lam,
            comm_app_dup: self.comm_app_dup + other.comm_app_dup,
            comm_lam_dup: self.comm_lam_dup + other.comm_lam_dup,
            binds: self.binds + other.binds,
            connects: self.connects + other.connects,
            alloc_cells: self.alloc_cells + other.alloc_cells,
            alloc_vars: self.alloc_vars + other.alloc_vars,
        }
    }

    /// Every counter of the sum with `other` fits in a `usize`, and so do
    /// the number of all rewrites and the number of all slots handed out.
    pub open spec fn fits(self, other: Tally) -> bool {
        &&& self.interactions() + other.interactions() <= usize::MAX
        &&& self.allocs() + other.allocs() <= usize::MAX
        &&& self.anni_era_era + other.anni_era_era <= usize::MAX
        &&& self.anni_app_app + other.anni_app_app <= usize::MAX
        &&& self.anni_lam_lam + other.anni_lam_lam <= usize::MAX
        &&& self.anni_dup_dup + other.anni_dup_dup <= usize::MAX
        &&& self.comm_dup_dup + other.comm_dup_dup <= usize::MAX
        &&& self.comm_era_app + other.comm_era_app <= usize::MAX
        &&& self.comm_era_lam + other.comm_era_lam <= usize::MAX
        &&& self.comm_era_dup + other.comm_era_dup <= usize::MAX
        &&& self.comm_app_lam + other.comm_app_lam <= usize::MAX
        &&& self.comm_app_dup + other.comm_app_dup <= usize::MAX
        &&& self.comm_lam_dup + other.comm_lam_dup <= usize::MAX
        &&& self.binds + other.binds <= usize::MAX
        &&& self.connects + other.connects <= usize::MAX
        &&& self.alloc_cells + other.alloc_cells <= usize::MAX
        &&& self.alloc_vars + other.alloc_vars <= usize::MAX
    }

    /// Rewrites between two agents of one kind (and, for duplicators, of
    /// one label).
    pub open spec fn annihilations(self) -> nat {
        self.anni_era_era + self.anni_app_app + self.anni_lam_lam + self.anni_dup_dup
    }

    /// Rewrites between two agents that differ in kind or label.
    pub open spec fn commutations(self) -> nat {
        self.comm_dup_dup + self.comm_era_app + self.comm_era_lam + self.comm_era_dup
            + self.comm_app_lam + self.comm_app_dup + self.comm_lam_dup
    }

    /// All rewrites: every counter of a rule, each rule counted once.
    pub open spec fn interactions(self) -> nat {
        self.get(Counter::AnniEraEra) + self.get(Counter::AnniAppApp) + self.get(
            Counter::AnniLamLam,
        ) + self.get(Counter::AnniDupDup) + self.get(Counter::CommDupDup) + self.get(
            Counter::CommEraApp,
        ) + self.get(Counter::CommEraLam) + self.get(Counter::CommEraDup) + self.get(
            Counter::CommAppLam,
        ) + self.get(Counter::CommAppDup) + self.get(Counter::CommLamDup)
    }

    /// Slots handed out, wires and agents together.
    pub open spec fn allocs(self) -> nat {
        self.alloc_vars + self.alloc_cells
    }

    /// The summary of the counters in three lines: the totals, the
    /// annihilations by rule, and the commutations by rule.
    pub open spec fn summary(self) -> Seq<char> {
        "SUMMARY | annis: "@ + decimal(self.annihilations()) + ", comms: "@ + decimal(
            self.commutations(),
        ) + ", binds: "@ + decimal(self.binds) + ", connects: "@ + decimal(self.connects)
            + ", allocs: "@ + decimal(self.allocs()) + "\nANNIS   | ERA-ERA: "@ + decimal(
            self.anni_era_era,
        ) + ", LAM-LAM: "@ + decimal(self.anni_lam_lam) + ", APP-APP: "@ + decimal(
            self.anni_app_app,
        ) + ", DUP-DUP: "@ + decimal(self.anni_dup_dup) + "\nCOMMS   | ERA-APP: "@ + decimal(
            self.comm_era_app,
        ) + ", ERA-LAM: "@ + decimal(self.comm_era_lam) + ", ERA-DUP: "@ + decimal(
            self.comm_era_dup,
        ) + ", APP-LAM: "@ + decimal(self.comm_app_lam) + ", APP-DUP: "@ + decimal(
            self.comm_app_dup,
        ) + ", LAM-DUP: "@ + decimal(self.comm_lam_dup)
    }
}

impl Counter {
    /// The counter belongs to a rewrite rule.
    pub open spec fn is_rule(self) -> bool {
        !(self is Binds || self is Connects || self is AllocCells || self is AllocVars)
    }
}

/// Annihilations and commutations together are all the rewrites.
pub proof fn lemma_rewrites_partition(tally: Tally)
    ensures
        tally.annihilations() + tally.commutations() == tally.interactions(),
{
}

/// Counting one event raises its counter by one and leaves the others.
pub proof fn lemma_bump_get(tally: Tally, counter: Counter, other: Counter)
    ensures
        tally.bump(counter).get(other) == tally.get(other) + if other == counter {
            1nat
        } else {
            0nat
        },
{
    match counter {
        Counter::AnniEraEra => {},
        Counter::AnniAppApp => {},
        Counter::AnniLamLam => {},
        Counter::AnniDupDup => {},
        Counter::CommDupDup => {},
        Counter::CommEraApp => {},
        Counter::CommEraLam => {},
        Counter::CommEraDup => {},
        Counter::CommAppLam => {},
        Counter::CommAppDup => {},
        Counter::CommLamDup => {},
        Counter::Binds => {},
        Counter::Connects => {},
        Counter::AllocCells => {},
        Counter::AllocVars => {},
    }
}

/// Counting one event of a rule adds one rewrite, as an annihilation or as
/// a commutation and never as both; counting another event adds none.
pub proof fn lemma_bump_counts_once(tally: Tally, counter: Counter)
    ensures
        tally.bump(counter).interactions() == tally.interactions() + if counter.is_rule() {
            1nat
        } else {
            0nat
        },
        tally.bump(counter).annihilations() + tally.bump(counter).commutations()
            == tally.annihilations() + tally.commutations() + if counter.is_rule() {
            1nat
        } else {
            0nat
        },
        tally.bump(counter).annihilations() >= tally.annihilations(),
        tally.bump(counter).commutations() >= tally.commutations(),
{
    match counter {
        Counter::AnniEraEra => {},
        Counter::AnniAppApp => {},
        Counter::AnniLamLam => {},
        Counter::AnniDupDup => {},
        Counter::CommDupDup => {},
        Counter::CommEraApp => {},
        Counter::CommEraLam => {},
        Counter::CommEraDup => {},
        Counter::CommAppLam => {},
        Counter::CommAppDup => {},
        Counter::CommLamDup => {},
        Counter::Binds => {},
        Counter::Connects => {},
        Counter::AllocCells => {},
        Counter::AllocVars => {},
    }
}

/// Merging tallies merges their rewrites.
pub proof fn lemma_plus_interactions(a: Tally, b: Tally)
    ensures
        a.plus(b).interactions() == a.interactions() + b.interactions(),
        a.plus(b).annihilations() == a.annihilations() + b.annihilations(),
        a.plus(b).commutations() == a.commutations() + b.commutations(),
{
}

/// The events that an evaluation counts, one method for each.
pub trait Stats {
    /// The counters as a value.
    spec fn tally(&self) -> Tally;

    fn inc_anni_era_era(&mut self)
        requires
            old(self).tally().anni_era_era < usize::MAX,
        ensures
            final(self).tally() == old(self).tally().bump(Counter::AnniEraEra),
    ;

    fn inc_anni_app_app(&mut self)
        requires
            old(self).tally().anni_app_app < usize::MAX,
        ensures
            final(self).tally() == old(self).tally().bump(Counter::AnniAppApp),
    ;

    fn inc_anni_lam_lam(&mut self)
        requires
            old(self).tally().anni_lam_lam < usize::MAX,
        ensures
            final(self).tally() == old(self).tally().bump(Counter::AnniLamLam),
    ;

    fn inc_anni_dup_dup(&mut self)
        requires
            old(self).tally().anni_dup_dup < usize::MAX,
        ensures
            final(self).tally() == old(self).tally().bump(Counter::AnniDupDup),
    ;

    fn inc_comm_dup_dup(&mut self)
        requires
            old(self).tally().comm_dup_dup < usize::MAX,
        ensures
            final(self).tally() == old(self).tally().bump(Counter::CommDupDup),
    ;

    fn inc_comm_era_app(&mut self)
        requires
            old(self).tally().comm_era_app < usize::MAX,
        ensures
            final(self).tally() == old(self).tally().bump(Counter::CommEraApp),
    ;

    fn inc_comm_era_lam(&mut self)
        requires
            old(self).tally().comm_era_lam < usize::MAX,
        ensures
            final(self).tally() == old(self).tally().bump(Counter::CommEraLam),
    ;

    fn inc_commute_era_dup(&mut self)
        requires
            old(self).tally().comm_era_dup < usize::MAX,
        ensures
            final(self).tally() == old(self).tally().bump(Counter::CommEraDup),
    ;

    fn inc_comm_app_lam(&mut self)
        requires
            old(self).tally().comm_app_lam < usize::MAX,
        ensures
            final(self).tally() == old(self).tally().bump(Counter::CommAppLam),
    ;

    fn inc_comm_app_dup(&mut self)
        requires
            old(self).tally().comm_app_dup < usize::MAX,
        ensures
            final(self).tally() == old(self).tally().bump(Counter::CommAppDup),
    ;

    fn inc_comm_lam_dup(&mut self)
        requires
            old(self).tally().comm_lam_dup < usize::MAX,
        ensures
            final(self).tally() == old(self).tally().bump(Counter::CommLamDup),
    ;

    fn inc_binds(&mut self)
        requires
            old(self).tally().binds < usize::MAX,
        ensures
            final(self).tally() == old(self).tally().bump(Counter::Binds),
    ;

    fn inc_connects(&mut self)
        requires
            old(self).tally().connects < usize::MAX,
        ensures
            final(self).tally() == old(self).tally().bump(Counter::Connects),
    ;

    fn inc_alloc_cells(&mut self)
        requires
            old(self).tally().alloc_cells < usize::MAX,
        ensures
            final(self).tally() == old(self).tally().bump(Counter::AllocCells),
    ;

    fn inc_alloc_vars(&mut self)
        requires
            old(self).tally().alloc_vars < usize::MAX,
        ensures
            final(self).tally() == old(self).tally().bump(Counter::AllocVars),
    ;

}

/// The counters of one runtime, into which the tasks merge theirs.
pub struct GlobalStats {
    anni_era_era: usize,
    anni_app_app: usize,
    anni_lam_lam: usize,
    anni_dup_dup: usize,
    comm_dup_dup: usize,
    comm_era_app: usize,
    comm_era_lam: usize,
    comm_era_dup: usize,
    comm_app_lam: usize,
    comm_app_dup: usize,
    comm_lam_dup: usize,
    binds: usize,
    connects: usize,
    alloc_cells: usize,
    alloc_vars: usize,
}

impl GlobalStats {
    /// The number of all rewrites and the number of all slots handed out
    /// fit in a `usize`.
    #[verifier::type_invariant]
    spec fn totals_fit(self) -> bool {
        &&& self.tally().interactions() <= usize::MAX
        &&& self.tally().allocs() <= usize::MAX
    }

    /// The counters as a value.
    pub closed spec fn tally(&self) -> Tally {
        Tally {
            anni_era_era: self.anni_era_era as nat,
            anni_app_app: self.anni_app_app as nat,
            anni_lam_lam: self.anni_lam_lam as nat,
            anni_dup_dup: self.anni_dup_dup as nat,
            comm_dup_dup: self.comm_dup_dup as nat,
            comm_era_app: self.comm_era_app as nat,
            comm_era_lam: self.comm_era_lam as nat,
            comm_era_dup: self.comm_era_dup as nat,
            comm_app_lam: self.comm_app_lam as nat,
            comm_app_dup: self.comm_app_dup as nat,
            comm_lam_dup: self.comm_lam_dup as nat,
            binds: self.binds as nat,
            connects: self.connects as nat,
            alloc_cells: self.alloc_cells as nat,
            alloc_vars: self.alloc_vars as nat,
        }
    }

    pub fn new() -> (stats: GlobalStats)
        ensures
            stats.tally() == Tally::zero(),
    {
        GlobalStats {
            anni_era_era: 0,
            anni_app_app: 0,
            anni_lam_lam: 0,
            anni_dup_dup: 0,
            comm_dup_dup: 0,
            comm_era_app: 0,
            comm_era_lam: 0,
            comm_era_dup: 0,
            comm_app_lam: 0,
            comm_app_dup: 0,
            comm_lam_dup: 0,
            binds: 0,
            connects: 0,
            alloc_cells: 0,
            alloc_vars: 0,
        }
    }

    /// Rewrites between two agents of one kind.
    pub fn annihilations(&self) -> (n: usize)
        ensures
            n == self.tally().annihilations(),
    {
        proof {
            use_type_invariant(self);
        }
        self.anni_era_era() + self.anni_app_app() + self.anni_lam_lam() + self.anni_dup_dup()
    }

    /// Rewrites between two agents that differ in kind or label.
    pub fn commutations(&self) -> (n: usize)
        ensures
            n == self.tally().commutations(),
    {
        proof {
            use_type_invariant(self);
        }
        self.comm_dup_dup() + self.comm_era_app() + self.comm_era_lam() + self.comm_era_dup()
            + self.comm_app_lam() + self.comm_app_dup() + self.comm_lam_dup()
    }

    /// Slots handed out, wires and agents together.
    pub fn allocs(&self) -> (n: usize)
        ensures
            n == self.tally().allocs(),
    {
        proof {
            use_type_invariant(self);
        }
        self.alloc_vars() + self.alloc_cells()
    }

    /// The summary of the counters: the totals, the annihilations by rule,
    /// and the commutations by rule.
    pub fn to_string(&self) -> (text: String)
        ensures
            text@ == self.tally().summary(),
    {
        let mut text = String::from_str("SUMMARY | annis: ");
        text.append(decimal_string(self.annihilations() as u64).as_str());
        text.append(", comms: ");
        text.append(decimal_string(self.commutations() as u64).as_str());
        text.append(", binds: ");
        text.append(decimal_string(self.binds() as u64).as_str());
        text.append(", connects: ");
        text.append(decimal_string(self.connects() as u64).as_str());
        text.append(", allocs: ");
        text.append(decimal_string(self.allocs() as u64).as_str());
        text.append("\nANNIS   | ERA-ERA: ");
        text.append(decimal_string(self.anni_era_era() as u64).as_str());
        text.append(", LAM-LAM: ");
        text.append(decimal_string(self.anni_lam_lam() as u64).as_str());
        text.append(", APP-APP: ");
        text.append(decimal_string(self.anni_app_app() as u64).as_str());
        text.append(", DUP-DUP: ");
        text.append(decimal_string(self.anni_dup_dup() as u64).as_str());
        text.append("\nCOMMS   | ERA-APP: ");
        text.append(decimal_string(self.comm_era_app() as u64).as_str());
        text.append(", ERA-LAM: ");
        text.append(decimal_string(self.comm_era_lam() as u64).as_str());
        text.append(", ERA-DUP: ");
        text.append(decimal_string(self.comm_era_dup() as u64).as_str());
        text.append(", APP-LAM: ");
        text.append(decimal_string(self.comm_app_lam() as u64).as_str());
        text.append(", APP-DUP: ");
        text.append(decimal_string(self.comm_app_dup() as u64).as_str());
        text.append(", LAM-DUP: ");
        text.append(decimal_string(self.comm_lam_dup() as u64).as_str());
        text
    }

    /// Whether the counters of a task can be merged in: no counter runs
    /// over, and neither does the number of all rewrites or of all slots.
    pub fn fits(&self, stats: &LocalStats) -> (fits: bool)
        ensures
            fits == self.tally().fits(stats.tally()),
    {
        proof {
            use_type_invariant(self);
        }
        let rewrites: u128 = self.anni_era_era as u128 + self.anni_app_app as u128
            + self.anni_lam_lam as u128 + self.anni_dup_dup as u128 + self.comm_dup_dup as u128
            + self.comm_era_app as u128 + self.comm_era_lam as u128 + self.comm_era_dup as u128
            + self.comm_app_lam as u128 + self.comm_app_dup as u128 + self.comm_lam_dup as u128;
        let more: u128 = stats.anni_era_era as u128 + stats.anni_app_app as u128
            + stats.anni_lam_lam as u128 + stats.anni_dup_dup as u128 + stats.comm_dup_dup as u128
            + stats.comm_era_app as u128 + stats.comm_era_lam as u128 + stats.comm_era_dup as u128
            + stats.comm_app_lam as u128 + stats.comm_app_dup as u128 + stats.comm_lam_dup as u128;
        let slots: u128 = self.alloc_vars as u128 + self.alloc_cells as u128
            + stats.alloc_vars as u128 + stats.alloc_cells as u128;
        rewrites + more <= usize::MAX as u128 && slots <= usize::MAX as u128
            && self.anni_era_era <= usize::MAX - stats.anni_era_era
            && self.anni_app_app <= usize::MAX - stats.anni_app_app
            && self.anni_lam_lam <= usize::MAX - stats.anni_lam_lam
            && self.anni_dup_dup <= usize::MAX - stats.anni_dup_dup
            && self.comm_dup_dup <= usize::MAX - stats.comm_dup_dup
            && self.comm_era_app <= usize::MAX - stats.comm_era_app
            && self.comm_era_lam <= usize::MAX - stats.comm_era_lam
            && self.comm_era_dup <= usize::MAX - stats.comm_era_dup
            && self.comm_app_lam <= usize::MAX - stats.comm_app_lam
            && self.comm_app_dup <= usize::MAX - stats.comm_app_dup
            && self.comm_lam_dup <= usize::MAX - stats.comm_lam_dup
            && self.binds <= usize::MAX - stats.binds
            && self.connects <= usize::MAX - stats.connects
            && self.alloc_cells <= usize::MAX - stats.alloc_cells
            && self.alloc_vars <= usize::MAX - stats.alloc_vars
    }

    /// Adds the counters of a finished task, counter by counter.
    pub fn update(&mut self, stats: LocalStats)
        requires
            old(self).tally().fits(stats.tally()),
        ensures
            final(self).tally() == old(self).tally().plus(stats.tally()),
    {
        self.anni_era_era = self.anni_era_era + stats.anni_era_era;
        self.anni_app_app = self.anni_app_app + stats.anni_app_app;
        self.anni_lam_lam = self.anni_lam_lam + stats.anni_lam_lam;
        self.anni_dup_dup = self.anni_dup_dup + stats.anni_dup_dup;
        self.comm_dup_dup = self.comm_dup_dup + stats.comm_dup_dup;
        self.comm_era_app = self.comm_era_app + stats.comm_era_app;
        self.comm_era_lam = self.comm_era_lam + stats.comm_era_lam;
        self.comm_era_dup = self.comm_era_dup + stats.comm_era_dup;
        self.comm_app_lam = self.comm_app_lam + stats.comm_app_lam;
        self.comm_app_dup = self.comm_app_dup + stats.comm_app_dup;
        self.comm_lam_dup = self.comm_lam_dup + stats.comm_lam_dup;
        self.binds = self.binds + stats.binds;
        self.connects = self.connects + stats.connects;
        self.alloc_cells = self.alloc_cells + stats.alloc_cells;
        self.alloc_vars = self.alloc_vars + stats.alloc_vars;
    }

    pub fn anni_era_era(&self) -> (n: usize)
        ensures
            n == self.tally().anni_era_era,
    {
        self.anni_era_era
    }

    pub fn anni_app_app(&self) -> (n: usize)
        ensures
            n == self.tally().anni_app_app,
    {
        self.anni_app_app
    }

    pub fn anni_lam_lam(&self) -> (n: usize)
        ensures
            n == self.tally().anni_lam_lam,
    {
        self.anni_lam_lam
    }

    pub fn anni_dup_dup(&self) -> (n: usize)
        ensures
            n == self.tally().anni_dup_dup,
    {
        self.anni_dup_dup
    }

    pub fn comm_dup_dup(&self) -> (n: usize)
        ensures
            n == self.tally().comm_dup_dup,
    {
        self.comm_dup_dup
    }

    pub fn comm_era_app(&self) -> (n: usize)
        ensures
            n == self.tally().comm_era_app,
    {
        self.comm_era_app
    }

    pub fn comm_era_lam(&self) -> (n: usize)
        ensures
            n == self.tally().comm_era_lam,
    {
        self.comm_era_lam
    }

    pub fn comm_era_dup(&self) -> (n: usize)
        ensures
            n == self.tally().comm_era_dup,
    {
        self.comm_era_dup
    }

    pub fn comm_app_lam(&self) -> (n: usize)
        ensures
            n == self.tally().comm_app_lam,
    {
        self.comm_app_lam
    }

    pub fn comm_app_dup(&self) -> (n: usize)
        ensures
            n == self.tally().comm_app_dup,
    {
        self.comm_app_dup
    }

    pub fn comm_lam_dup(&self) -> (n: usize)
        ensures
            n == self.tally().comm_lam_dup,
    {
        self.comm_lam_dup
    }

    pub fn binds(&self) -> (n: usize)
        ensures
            n == self.tally().binds,
    {
        self.binds
    }

    pub fn connects(&self) -> (n: usize)
        ensures
            n == self.tally().connects,
    {
        self.connects
    }

    pub fn alloc_cells(&self) -> (n: usize)
        ensures
            n == self.tally().alloc_cells,
    {
        self.alloc_cells
    }

    pub fn alloc_vars(&self) -> (n: usize)
        ensures
            n == self.tally().alloc_vars,
    {
        self.alloc_vars
    }

}

/// The counters of one task.
pub struct LocalStats {
    anni_era_era: usize,
    anni_app_app: usize,
    anni_lam_lam: usize,
    anni_dup_dup: usize,
    comm_dup_dup: usize,
    comm_era_app: usize,
    comm_era_lam: usize,
    comm_era_dup: usize,
    comm_app_lam: usize,
    comm_app_dup: usize,
    comm_lam_dup: usize,
    binds: usize,
    connects: usize,
    alloc_cells: usize,
    alloc_vars: usize,
}

impl LocalStats {
    pub fn new() -> (stats: LocalStats)
        ensures
            stats.tally() == Tally::zero(),
    {
        LocalStats {
            anni_era_era: 0,
            anni_app_app: 0,
            anni_lam_lam: 0,
            anni_dup_dup: 0,
            comm_dup_dup: 0,
            comm_era_app: 0,
            comm_era_lam: 0,
            comm_era_dup: 0,
            comm_app_lam: 0,
            comm_app_dup: 0,
            comm_lam_dup: 0,
            binds: 0,
            connects: 0,
            alloc_cells: 0,
            alloc_vars: 0,
        }
    }

    /// The value of one counter.
    pub fn get(&self, counter: Counter) -> (value: usize)
        ensures
            value == self.tally().get(counter),
    {
        match counter {
            Counter::AnniEraEra => self.anni_era_era,
            Counter::AnniAppApp => self.anni_app_app,
            Counter::AnniLamLam => self.anni_lam_lam,
            Counter::AnniDupDup => self.anni_dup_dup,
            Counter::CommDupDup => self.comm_dup_dup,
            Counter::CommEraApp => self.comm_era_app,
            Counter::CommEraLam => self.comm_era_lam,
            Counter::CommEraDup => self.comm_era_dup,
            Counter::CommAppLam => self.comm_app_lam,
            Counter::CommAppDup => self.comm_app_dup,
            Counter::CommLamDup => self.comm_lam_dup,
            Counter::Binds => self.binds,
            Counter::Connects => self.connects,
            Counter::AllocCells => self.alloc_cells,
            Counter::AllocVars => self.alloc_vars,
        }
    }

    /// Sets one counter to the given value and leaves the others.
    pub fn set(&mut self, counter: Counter, value: usize)
        ensures
            final(self).tally() == old(self).tally().with(counter, value as nat),
    {
        match counter {
            Counter::AnniEraEra => {
                self.anni_era_era = value;
            },
            Counter::AnniAppApp => {
                self.anni_app_app = value;
            },
            Counter::AnniLamLam => {
                self.anni_lam_lam = value;
            },
            Counter::AnniDupDup => {
                self.anni_dup_dup = value;
            },
            Counter::CommDupDup => {
                self.comm_dup_dup = value;
            },
            Counter::CommEraApp => {
                self.comm_era_app = value;
            },
            Counter::CommEraLam => {
                self.comm_era_lam = value;
            },
            Counter::CommEraDup => {
                self.comm_era_dup = value;
            },
            Counter::CommAppLam => {
                self.comm_app_lam = value;
            },
            Counter::CommAppDup => {
                self.comm_app_dup = value;
            },
            Counter::CommLamDup => {
                self.comm_lam_dup = value;
            },
            Counter::Binds => {
                self.binds = value;
            },
            Counter::Connects => {
                self.connects = value;
            },
            Counter::AllocCells => {
                self.alloc_cells = value;
            },
            Counter::AllocVars => {
                self.alloc_vars = value;
            },
        }
    }

    /// Whether one more event of the given kind can be counted.
    pub fn has_headroom(&self, counter: Counter) -> (headroom: bool)
        ensures
            headroom == (self.tally().get(counter) < usize::MAX),
    {
        let value = match counter {
            Counter::AnniEraEra => self.anni_era_era,
            Counter::AnniAppApp => self.anni_app_app,
            Counter::AnniLamLam => self.anni_lam_lam,
            Counter::AnniDupDup => self.anni_dup_dup,
            Counter::CommDupDup => self.comm_dup_dup,
            Counter::CommEraApp => self.comm_era_app,
            Counter::CommEraLam => self.comm_era_lam,
            Counter::CommEraDup => self.comm_era_dup,
            Counter::CommAppLam => self.comm_app_lam,
            Counter::CommAppDup => self.comm_app_dup,
            Counter::CommLamDup => self.comm_lam_dup,
            Counter::Binds => self.binds,
            Counter::Connects => self.connects,
            Counter::AllocCells => self.alloc_cells,
            Counter::AllocVars => self.alloc_vars,
        };
        value < usize::MAX
    }

    /// Counts one event of the given kind.
    pub fn inc(&mut self, counter: Counter)
        requires
            old(self).tally().get(counter) < usize::MAX,
        ensures
            final(self).tally() == old(self).tally().bump(counter),
    {
        match counter {
            Counter::AnniEraEra => self.inc_anni_era_era(),
            Counter::AnniAppApp => self.inc_anni_app_app(),
            Counter::AnniLamLam => self.inc_anni_lam_lam(),
            Counter::AnniDupDup => self.inc_anni_dup_dup(),
            Counter::CommDupDup => self.inc_comm_dup_dup(),
            Counter::CommEraApp => self.inc_comm_era_app(),
            Counter::CommEraLam => self.inc_comm_era_lam(),
            Counter::CommEraDup => self.inc_commute_era_dup(),
            Counter::CommAppLam => self.inc_comm_app_lam(),
            Counter::CommAppDup => self.inc_comm_app_dup(),
            Counter::CommLamDup => self.inc_comm_lam_dup(),
            Counter::Binds => self.inc_binds(),
            Counter::Connects => self.inc_connects(),
            Counter::AllocCells => self.inc_alloc_cells(),
            Counter::AllocVars => self.inc_alloc_vars(),
        }
    }
}

impl Stats for LocalStats {
    closed spec fn tally(&self) -> Tally {
        Tally {
            anni_era_era: self.anni_era_era as nat,
            anni_app_app: self.anni_app_app as nat,
            anni_lam_lam: self.anni_lam_lam as nat,
            anni_dup_dup: self.anni_dup_dup as nat,
            comm_dup_dup: self.comm_dup_dup as nat,
            comm_era_app: self.comm_era_app as nat,
            comm_era_lam: self.comm_era_lam as nat,
            comm_era_dup: self.comm_era_dup as nat,
            comm_app_lam: self.comm_app_lam as nat,
            comm_app_dup: self.comm_app_dup as nat,
            comm_lam_dup: self.comm_lam_dup as nat,
            binds: self.binds as nat,
            connects: self.connects as nat,
            alloc_cells: self.alloc_cells as nat,
            alloc_vars: self.alloc_vars as nat,
        }
    }

    fn inc_anni_era_era(&mut self) {
        self.anni_era_era = self.anni_era_era + 1;
    }

    fn inc_anni_app_app(&mut self) {
        self.anni_app_app = self.anni_app_app + 1;
    }

    fn inc_anni_lam_lam(&mut self) {
        self.anni_lam_lam = self.anni_lam_lam + 1;
    }

    fn inc_anni_dup_dup(&mut self) {
        self.anni_dup_dup = self.anni_dup_dup + 1;
    }

    fn inc_comm_dup_dup(&mut self) {
        self.comm_dup_dup = self.comm_dup_dup + 1;
    }

    fn inc_comm_era_app(&mut self) {
        self.comm_era_app = self.comm_era_app + 1;
    }

    fn inc_comm_era_lam(&mut self) {
        self.comm_era_lam = self.comm_era_lam + 1;
    }

    fn inc_commute_era_dup(&mut self) {
        self.comm_era_dup = self.comm_era_dup + 1;
    }

    fn inc_comm_app_lam(&mut self) {
        self.comm_app_lam = self.comm_app_lam + 1;
    }

    fn inc_comm_app_dup(&mut self) {
        self.comm_app_dup = self.comm_app_dup + 1;
    }

    fn inc_comm_lam_dup(&mut self) {
        self.comm_lam_dup = self.comm_lam_dup + 1;
    }

    fn inc_binds(&mut self) {
        self.binds = self.binds + 1;
    }

    fn inc_connects(&mut self) {
        self.connects = self.connects + 1;
    }

    fn inc_alloc_cells(&mut self) {
        self.alloc_cells = self.alloc_cells + 1;
    }

    fn inc_alloc_vars(&mut self) {
        self.alloc_vars = self.alloc_vars + 1;
    }

}

} // verus!
