//! The manager: owns the ordered unit table, drives bring-up and
//! shutdown, services control-plane operations, and decides each
//! supervisor tick.
//!
//! The supervisor loop itself sleeps between ticks and therefore
//! lives outside the library; it drives this sequence:
//!
//! ```text
//! manager.start_units(..);          // bring every unit up, in order
//! manager.start_units_probes();     // then start every running unit's probes
//! loop {
//!     if !manager.run_tick(..) { break; }   // false once stop was requested
//!     sleep(1s);
//! }
//! manager.run_shutdown(..);         // stop every unit, reset the flag
//! ```

use vstd::prelude::*;

use crate::graph;
use crate::process::{ExitObservation, KillOutcome, SpawnOutcome};
use crate::restart_policy::RestartPolicy;
use crate::unit::{all_reachable_ready, units_wf, Unit};

verus! {

/// The first table index whose unit carries this name, if any.
pub open spec fn is_first_match(units: Seq<Unit>, name: Seq<char>, j: int) -> bool {
    &&& 0 <= j < units.len()
    &&& units[j].name@ == name
    &&& forall|j2: int| 0 <= j2 < j ==> units[j2].name@ != name
}

/// No unit of the table carries this name.
pub open spec fn no_match(units: Seq<Unit>, name: Seq<char>) -> bool {
    forall|j: int| 0 <= j < units.len() ==> units[j].name@ != name
}

/// The named unit's dependencies all point below `len`.
pub open spec fn deps_fit(unit: Unit, len: int) -> bool {
    forall|k: int| 0 <= k < unit.dependencies@.len() ==> (#[trigger] unit.dependencies@[k] as int)
        < len
}

/// The monitor can and must keep this unit up: its policy is
/// `Always`, it is enabled, its kill outcome is no refusal, and
/// every unit it could pull up with it is enabled with a successful
/// spawn outcome.
pub open spec fn restartable(
    units: Seq<Unit>,
    j: int,
    kills: Seq<KillOutcome>,
    outcomes: Seq<SpawnOutcome>,
) -> bool {
    &&& units[j].restart_policy is Always
    &&& units[j].enabled
    &&& !(kills[j] is KillFailed || kills[j] is WaitFailed)
    &&& all_reachable_ready(units, j, outcomes)
}

/// The unit counts as running once its reap observation is applied:
/// its handle is held and the child has not exited, or its process
/// probe still reports `Alive`.
pub open spec fn observed_running(u: Unit, obs: ExitObservation) -> bool {
    (u.process.child is Some && obs is StillRunning)
        || u.probe_manager.spec_process_probe_state() is Alive
}

/// No other unit's dependency closure contains this one, so no
/// restart of another unit can pull it back up.
pub open spec fn no_dependents(units: Seq<Unit>, j: int) -> bool {
    forall|j2: int|
        0 <= j2 < units.len() && j2 != j ==> !(#[trigger] graph::reachable(units, j2, j))
}

/// The owner of all units and of the shared shutdown flag.
#[derive(Debug)]
pub struct UnitManager {
    /// Configuration order is preserved; dependencies are indices
    /// into this table.
    pub units: Vec<Unit>,
    /// The shared shutdown flag the supervisor loop consults.
    pub stop_requested: bool,
}

impl UnitManager {
    /// Every unit is well-formed, every dependency resolves, and the
    /// dependency relation is acyclic.
    pub open spec fn wf(self) -> bool {
        &&& units_wf(self.units@)
        &&& graph::acyclic(self.units@)
    }

    pub fn new() -> (r: UnitManager)
        ensures
            r.units@.len() == 0,
            !r.stop_requested,
            r.wf(),
    {
        let manager = UnitManager { units: Vec::new(), stop_requested: false };
        proof {
            let rank = Map::<int, nat>::new(|j: int| true, |j: int| 0nat);
            assert(graph::valid_rank(manager.units@, rank));
        }
        manager
    }

    /// Appends a unit to the table.  When the appended unit's
    /// dependencies all point into the existing table, the manager
    /// stays well-formed: the new unit cannot close a cycle.
    pub fn add_unit(&mut self, unit: Unit)
        ensures
            final(self).units@ == old(self).units@.push(unit),
            final(self).stop_requested == old(self).stop_requested,
            old(self).wf() && unit.wf() && deps_fit(unit, old(self).units@.len() as int)
                ==> final(self).wf(),
    {
        proof {
            if old(self).wf() && unit.wf() && deps_fit(unit, old(self).units@.len() as int) {
                lemma_acyclic_push(old(self).units@, unit);
            }
        }
        self.units.push(unit);
    }

    /// A borrow of the table, for read-only walks.
    pub fn get_units(&self) -> (r: &Vec<Unit>)
        ensures
            r@ == self.units@,
    {
        &self.units
    }

    /// How many units the manager owns.
    pub fn unit_count(&self) -> (r: usize)
        ensures
            r == self.units@.len(),
    {
        self.units.len()
    }

    /// The first table index whose unit carries this name.
    pub fn find_unit_index(&self, name: &String) -> (r: Option<usize>)
        ensures
            r matches Some(j) ==> is_first_match(self.units@, name@, j as int),
            r is None ==> no_match(self.units@, name@),
    {
        let mut j: usize = 0;
        while j < self.units.len()
            invariant
                0 <= j <= self.units@.len(),
                forall|j2: int| 0 <= j2 < j ==> self.units@[j2].name@ != name@,
            decreases self.units@.len() - j,
        {
            if self.units[j].name.eq(name) {
                return Some(j);
            }
            j = j + 1;
        }
        None
    }

    /// Sets the shared shutdown flag; the supervisor loop exits at
    /// its next tick.
    pub fn request_stop(&mut self)
        ensures
            *final(self) == (UnitManager { stop_requested: true, ..*old(self) }),
    {
        self.stop_requested = true;
    }

    /// Clears the shared shutdown flag.
    pub fn reset_stop_request(&mut self)
        ensures
            *final(self) == (UnitManager { stop_requested: false, ..*old(self) }),
    {
        self.stop_requested = false;
    }

    /// Whether shutdown has been requested.
    pub fn stop_requested(&self) -> (r: bool)
        ensures
            r == self.stop_requested,
    {
        self.stop_requested
    }

    /// Starts the named unit: a running unit is a successful no-op;
    /// a stopped one is started together with its stopped
    /// dependencies, its restart policy is then demoted to
    /// `DisabledTemporarily` so the supervisor will not interfere
    /// until the next reload, and its probes are started.  Naming an
    /// unknown unit fails.
    #[verifier::rlimit(50)]
    #[verifier::spinoff_prover]
    pub fn start_unit(&mut self, name: String, outcomes: &Vec<SpawnOutcome>) -> (r: Result<
        bool,
        String,
    >)
        requires
            old(self).wf(),
            outcomes@.len() == old(self).units@.len(),
        ensures
            final(self).wf(),
            final(self).units@.len() == old(self).units@.len(),
            final(self).stop_requested == old(self).stop_requested,
            forall|j: int|
                0 <= j < final(self).units@.len() ==> #[trigger] final(self).units@[
                    j
                ].same_identity(old(self).units@[j]),
            old(self).stop_requested ==> (r matches Err(e) && e@ == "Cannot start unit "@
                + name@ + ": shutting down"@) && *final(self) == *old(self),
            !old(self).stop_requested && no_match(old(self).units@, name@) ==> (r matches Err(e)
                && e@ == "Unit "@ + name@ + " not found"@) && *final(self) == *old(self),
            forall|j: int|
                !old(self).stop_requested && is_first_match(old(self).units@, name@, j) && old(
                    self,
                ).units@[j].spec_is_running() ==> r == Ok::<bool, String>(true) && *final(self)
                    == *old(self),
            forall|j: int|
                is_first_match(old(self).units@, name@, j) && !old(self).units@[
                    j
                ].spec_is_running() && r is Ok ==> {
                    &&& r == Ok::<bool, String>(true)
                    &&& final(self).units@[j].state is Running
                    &&& final(self).units@[j].process.child is Some
                    &&& final(self).units@[j].restart_policy is DisabledTemporarily
                    &&& final(self).units@[j].probe_manager.is_running
                },
            forall|j: int, j2: int|
                #![trigger is_first_match(old(self).units@, name@, j), final(self).units@[j2].restart_policy]
                is_first_match(old(self).units@, name@, j) && 0 <= j2 < final(self).units@.len()
                    && j2 != j ==> final(self).units@[j2].restart_policy == old(self).units@[j2].restart_policy,
            r is Err ==> forall|j2: int|
                0 <= j2 < final(self).units@.len() ==> #[trigger] final(self).units@[
                    j2
                ].restart_policy == old(self).units@[j2].restart_policy,
            forall|j: int|
                !old(self).stop_requested && is_first_match(old(self).units@, name@, j) && old(
                    self,
                ).units@[j].enabled && all_reachable_ready(old(self).units@, j, outcomes@)
                    ==> r is Ok,
    {
        if self.stop_requested() {
            // a start that arrives during shutdown is refused outright
            let mut message = String::from_str("Cannot start unit ");
            message.append(name.as_str());
            message.append(": shutting down");
            return Err(message);
        }
        let found = self.find_unit_index(&name);
        match found {
            None => {
                let mut message = String::from_str("Unit ");
                message.append(name.as_str());
                message.append(" not found");
                Err(message)
            },
            Some(j) => {
                if self.units[j].is_running() {
                    return Ok(true);
                }
                let start_result = Unit::start(&mut self.units, j, outcomes);
                proof {
                    graph::lemma_same_deps(old(self).units@, self.units@);
                }
                match start_result {
                    Ok(_) => {
                        let ghost pre = self.units@;
                        {
                            let unit = &mut self.units[j];
                            unit.set_restart_policy(RestartPolicy::DisabledTemporarily);
                            unit.start_probes();
                        }
                        proof {
                            assert forall|jj: int|
                                0 <= jj < pre.len() implies #[trigger] self.units@[
                                jj
                            ].same_identity(pre[jj]) by {
                                if jj != j as int {
                                    assert(self.units@[jj] == pre[jj]);
                                }
                            }
                            lemma_identity_same_graph(pre, self.units@);
                            assert forall|jj: int|
                                0 <= jj < self.units@.len() implies #[trigger] self.units@[
                                jj
                            ].wf() by {
                                assert(pre[jj].wf());
                                if jj != j as int {
                                    assert(self.units@[jj] == pre[jj]);
                                }
                            }
                        }
                        Ok(true)
                    },
                    Err(error) => {
                        let mut message = String::from_str("Error starting unit ");
                        message.append(name.as_str());
                        message.append(": ");
                        message.append(error.as_str());
                        Err(message)
                    },
                }
            },
        }
    }

    /// Stops the named unit: a stopped unit is a successful no-op; a
    /// running one is stopped, and unless `restart` asks to keep the
    /// policy, automatic restart is suppressed by demoting the policy
    /// to `DisabledTemporarily`.  Naming an unknown unit fails.
    #[verifier::rlimit(50)]
    #[verifier::spinoff_prover]
    pub fn stop_unit(&mut self, name: String, restart: bool, kill: &KillOutcome) -> (r: Result<
        bool,
        String,
    >)
        requires
            old(self).wf(),
        ensures
            final(self).wf(),
            final(self).units@.len() == old(self).units@.len(),
            final(self).stop_requested == old(self).stop_requested,
            forall|j: int|
                0 <= j < final(self).units@.len() ==> #[trigger] final(self).units@[
                    j
                ].same_identity(old(self).units@[j]),
            no_match(old(self).units@, name@) ==> (r matches Err(e) && e@ == "Unit "@ + name@
                + " not found"@) && *final(self) == *old(self),
            r is Err ==> forall|j2: int|
                0 <= j2 < final(self).units@.len() ==> #[trigger] final(self).units@[
                    j2
                ].restart_policy == old(self).units@[j2].restart_policy,
            forall|j: int|
                is_first_match(old(self).units@, name@, j) && !old(self).units@[
                    j
                ].spec_is_running() ==> r == Ok::<bool, String>(true) && *final(self) == *old(self),
            forall|j: int|
                is_first_match(old(self).units@, name@, j) && old(self).units@[
                    j
                ].spec_is_running() ==> {
                    &&& (r is Ok <==> !(old(self).units@[j].process.child is Some && (
                    kill is KillFailed || kill is WaitFailed)))
                    &&& (r is Ok ==> r == Ok::<bool, String>(true) && final(self).units@[
                        j
                    ].state is Stopped && !final(self).units@[j].spec_is_running())
                    &&& (r is Ok && !restart ==> final(self).units@[
                        j
                    ].restart_policy is DisabledTemporarily)
                    &&& (r is Ok && restart ==> final(self).units@[j].restart_policy == old(self).units@[j].restart_policy)
                },
            forall|j: int, j2: int|
                #![trigger is_first_match(old(self).units@, name@, j), final(self).units@[j2]]
                is_first_match(old(self).units@, name@, j) && 0 <= j2 < final(self).units@.len()
                    && j2 != j ==> final(self).units@[j2] == old(self).units@[j2],
    {
        let found = self.find_unit_index(&name);
        match found {
            None => {
                let mut message = String::from_str("Unit ");
                message.append(name.as_str());
                message.append(" not found");
                Err(message)
            },
            Some(j) => {
                if !self.units[j].is_running() {
                    return Ok(true);
                }
                let ghost pre = self.units@;
                let stop_result = {
                    let unit = &mut self.units[j];
                    unit.stop(kill)
                };
                proof {
                    assert forall|jj: int|
                        0 <= jj < pre.len() implies #[trigger] self.units@[jj].same_identity(
                        pre[jj],
                    ) by {
                        if jj != j as int {
                            assert(self.units@[jj] == pre[jj]);
                        }
                    }
                    lemma_identity_same_graph(pre, self.units@);
                    assert forall|jj: int|
                        0 <= jj < self.units@.len() implies #[trigger] self.units@[jj].wf() by {
                        assert(pre[jj].wf());
                        if jj != j as int {
                            assert(self.units@[jj] == pre[jj]);
                        }
                    }
                }
                match stop_result {
                    Ok(_) => {
                        let ghost pre2 = self.units@;
                        if !restart {
                            let unit = &mut self.units[j];
                            unit.set_restart_policy(RestartPolicy::DisabledTemporarily);
                        }
                        proof {
                            assert forall|jj: int|
                                0 <= jj < pre2.len() implies #[trigger] self.units@[
                                jj
                            ].same_identity(pre2[jj]) by {
                                if jj != j as int {
                                    assert(self.units@[jj] == pre2[jj]);
                                }
                            }
                            lemma_identity_same_graph(pre2, self.units@);
                            assert forall|jj: int|
                                0 <= jj < self.units@.len() implies #[trigger] self.units@[
                                jj
                            ].wf() by {
                                assert(pre2[jj].wf());
                                if jj != j as int {
                                    assert(self.units@[jj] == pre2[jj]);
                                }
                            }
                        }
                        Ok(true)
                    },
                    Err(error) => {
                        let mut message = String::from_str("Error stopping unit ");
                        message.append(name.as_str());
                        message.append(": ");
                        message.append(error.as_str());
                        Err(message)
                    },
                }
            },
        }
    }

    /// One bring-up pass: clears the shutdown flag, then walks the
    /// table in order and starts every unit that is not already
    /// running, leaving failed units stopped.  A single pass
    /// suffices because `Unit::start` is transitively
    /// dependency-aware.
    #[verifier::rlimit(50)]
    #[verifier::spinoff_prover]
    pub fn start_units(&mut self, outcomes: &Vec<SpawnOutcome>)
        requires
            old(self).wf(),
            outcomes@.len() == old(self).units@.len(),
        ensures
            final(self).wf(),
            final(self).units@.len() == old(self).units@.len(),
            !final(self).stop_requested,
            forall|j: int|
                0 <= j < final(self).units@.len() ==> #[trigger] final(self).units@[
                    j
                ].same_identity(old(self).units@[j]),
            forall|j: int|
                0 <= j < final(self).units@.len() ==> #[trigger] final(self).units@[
                    j
                ].restart_policy == old(self).units@[j].restart_policy,
            forall|j: int|
                0 <= j < final(self).units@.len() && old(self).units@[j].spec_is_running()
                    ==> final(self).units@[j] == old(self).units@[j],
            forall|j: int|
                0 <= j < final(self).units@.len() && old(self).units@[j].enabled
                    && all_reachable_ready(old(self).units@, j, outcomes@)
                    ==> #[trigger] final(self).units@[j].spec_is_running(),
    {
        self.reset_stop_request();
        let n = self.units.len();
        let mut j: usize = 0;
        while j < n
            invariant
                self.wf(),
                units_wf(old(self).units@),
                graph::acyclic(old(self).units@),
                n == self.units@.len(),
                self.units@.len() == old(self).units@.len(),
                outcomes@.len() == n,
                0 <= j <= n,
                !self.stop_requested,
                forall|jj: int|
                    0 <= jj < n ==> #[trigger] self.units@[jj].same_identity(
                        old(self).units@[jj],
                    ),
                forall|jj: int|
                    0 <= jj < n ==> #[trigger] self.units@[jj].restart_policy == old(
                        self,
                    ).units@[jj].restart_policy,
                forall|jj: int|
                    0 <= jj < n && old(self).units@[jj].spec_is_running() ==> self.units@[jj]
                        == old(self).units@[jj],
                forall|jj: int|
                    0 <= jj < j && old(self).units@[jj].enabled && all_reachable_ready(
                        old(self).units@,
                        jj,
                        outcomes@,
                    ) ==> #[trigger] self.units@[jj].spec_is_running(),
            decreases n - j,
        {
            let already_running = self.units[j].is_running();
            if !already_running {
                let ghost mid = self.units@;
                proof {
                    if old(self).units@[j as int].enabled && all_reachable_ready(
                        old(self).units@,
                        j as int,
                        outcomes@,
                    ) {
                        assert(mid[j as int].enabled) by {
                            assert(mid[j as int].same_identity(old(self).units@[j as int]));
                        }
                        assert(all_reachable_ready(mid, j as int, outcomes@)) by {
                            assert forall|x: int|
                                0 <= x < old(self).units@.len() implies old(self).units@[
                                x
                            ].dependencies == mid[x].dependencies by {
                                assert(mid[x].same_identity(old(self).units@[x]));
                            }
                            graph::lemma_same_deps(old(self).units@, mid);
                            assert forall|q: int|
                                0 <= q < mid.len() && #[trigger] graph::reachable(
                                mid,
                                j as int,
                                q,
                            ) implies mid[q].enabled && outcomes@[q] is Spawned by {
                                assert(graph::reachable(old(self).units@, j as int, q));
                                assert(old(self).units@[q].enabled && outcomes@[q] is Spawned);
                                assert(mid[q].same_identity(old(self).units@[q]));
                            }
                        }
                    }
                }
                let start_result = Unit::start(&mut self.units, j, outcomes);
                proof {
                    assert forall|jj: int|
                        0 <= jj < n implies #[trigger] self.units@[jj].same_identity(
                        old(self).units@[jj],
                        ) by {
                        assert(self.units@[jj].same_identity(mid[jj]));
                        assert(self.units@[jj].restart_policy == mid[jj].restart_policy);
                        assert(mid[jj].same_identity(old(self).units@[jj]));
                        assert(mid[jj].restart_policy == old(self).units@[jj].restart_policy);
                    }
                    assert forall|jj: int|
                        0 <= jj < n implies #[trigger] self.units@[jj].restart_policy == old(
                        self,
                        ).units@[jj].restart_policy by {
                        assert(self.units@[jj].same_identity(mid[jj]));
                        assert(self.units@[jj].restart_policy == mid[jj].restart_policy);
                        assert(mid[jj].same_identity(old(self).units@[jj]));
                        assert(mid[jj].restart_policy == old(self).units@[jj].restart_policy);
                    }
                    assert forall|jj: int|
                        0 <= jj < n && old(self).units@[jj].spec_is_running() implies self.units@[
                        jj
                    ] == old(self).units@[jj] by {
                        assert(mid[jj] == old(self).units@[jj]);
                        assert(mid[jj].spec_is_running());
                    }
                    assert forall|jj: int|
                        0 <= jj <= j && old(self).units@[jj].enabled && all_reachable_ready(
                            old(self).units@,
                            jj,
                            outcomes@,
                        ) implies #[trigger] self.units@[jj].spec_is_running() by {
                        if jj == j as int {
                            assert(start_result is Ok);
                            assert(self.units@[jj].process.child is Some);
                        } else {
                            assert(mid[jj].spec_is_running());
                            assert(self.units@[jj] == mid[jj]);
                        }
                    }
                }
            } else {
                proof {
                    if old(self).units@[j as int].enabled && all_reachable_ready(
                        old(self).units@,
                        j as int,
                        outcomes@,
                    ) {
                        assert(self.units@[j as int].spec_is_running());
                    }
                }
            }
            j = j + 1;
        }
    }

    /// One shutdown pass: walks the table once and stops every unit,
    /// dependents and dependencies alike.  Every unit whose kill
    /// outcome is not a refusal rests `Stopped` afterwards.
    #[verifier::rlimit(50)]
    #[verifier::spinoff_prover]
    pub fn stop_units(&mut self, kills: &Vec<KillOutcome>)
        requires
            old(self).wf(),
            kills@.len() == old(self).units@.len(),
        ensures
            final(self).wf(),
            final(self).units@.len() == old(self).units@.len(),
            final(self).stop_requested == old(self).stop_requested,
            forall|j: int|
                0 <= j < final(self).units@.len() ==> #[trigger] final(self).units@[
                    j
                ].same_identity(old(self).units@[j]),
            forall|j: int|
                0 <= j < final(self).units@.len() ==> #[trigger] final(self).units@[
                    j
                ].restart_policy == old(self).units@[j].restart_policy,
            forall|j: int|
                0 <= j < final(self).units@.len() && !(old(self).units@[j].process.child is Some
                    && (kills@[j] is KillFailed || kills@[j] is WaitFailed)) ==> final(self).units@[j].state is Stopped && !final(self).units@[j].spec_is_running(),
    {
        let n = self.units.len();
        let mut j: usize = 0;
        while j < n
            invariant
                self.wf(),
                units_wf(old(self).units@),
                graph::acyclic(old(self).units@),
                n == self.units@.len(),
                self.units@.len() == old(self).units@.len(),
                kills@.len() == n,
                0 <= j <= n,
                self.stop_requested == old(self).stop_requested,
                forall|jj: int|
                    0 <= jj < n ==> #[trigger] self.units@[jj].same_identity(
                        old(self).units@[jj],
                    ),
                forall|jj: int|
                    0 <= jj < n ==> #[trigger] self.units@[jj].restart_policy == old(
                        self,
                    ).units@[jj].restart_policy,
                forall|jj: int| j <= jj < n ==> self.units@[jj] == old(self).units@[jj],
                forall|jj: int|
                    0 <= jj < j && !(old(self).units@[jj].process.child is Some && (kills@[
                        jj
                    ] is KillFailed || kills@[jj] is WaitFailed)) ==> self.units@[
                        jj
                    ].state is Stopped && !self.units@[jj].spec_is_running(),
            decreases n - j,
        {
            let ghost pre = self.units@;
            let _ = {
                let unit = &mut self.units[j];
                unit.stop(&kills[j])
            };
            proof {
                assert forall|jj: int|
                    0 <= jj < pre.len() implies #[trigger] self.units@[jj].same_identity(
                    pre[jj],
                ) && self.units@[jj].restart_policy == pre[jj].restart_policy by {
                    if jj != j as int {
                        assert(self.units@[jj] == pre[jj]);
                    }
                }
                lemma_identity_same_graph(pre, self.units@);
                assert forall|jj: int|
                    0 <= jj < self.units@.len() implies #[trigger] self.units@[jj].wf() by {
                    assert(pre[jj].wf());
                    if jj != j as int {
                        assert(self.units@[jj] == pre[jj]);
                    }
                }
                assert forall|jj: int|
                    0 <= jj < n implies #[trigger] self.units@[jj].same_identity(
                    old(self).units@[jj],
                    ) by {
                    assert(self.units@[jj].same_identity(pre[jj]));
                    assert(self.units@[jj].restart_policy == pre[jj].restart_policy);
                    assert(pre[jj].same_identity(old(self).units@[jj]));
                }
                assert forall|jj: int|
                    0 <= jj < n implies #[trigger] self.units@[jj].restart_policy == old(
                    self,
                    ).units@[jj].restart_policy by {
                    assert(self.units@[jj].same_identity(pre[jj]));
                    assert(self.units@[jj].restart_policy == pre[jj].restart_policy);
                    assert(pre[jj].same_identity(old(self).units@[jj]));
                }
            }
            j = j + 1;
        }
    }

    /// Starts the probes of every running unit, after bring-up.
    #[verifier::rlimit(50)]
    #[verifier::spinoff_prover]
    pub fn start_units_probes(&mut self)
        requires
            old(self).wf(),
        ensures
            final(self).wf(),
            final(self).units@.len() == old(self).units@.len(),
            final(self).stop_requested == old(self).stop_requested,
            forall|j: int|
                0 <= j < final(self).units@.len() && old(self).units@[j].spec_is_running()
                    ==> #[trigger] final(self).units@[j].probe_manager.is_running,
            forall|j: int|
                0 <= j < final(self).units@.len() && !old(self).units@[j].spec_is_running()
                    ==> final(self).units@[j] == old(self).units@[j],
    {
        let n = self.units.len();
        let mut j: usize = 0;
        while j < n
            invariant
                self.wf(),
                units_wf(old(self).units@),
                graph::acyclic(old(self).units@),
                n == self.units@.len(),
                self.units@.len() == old(self).units@.len(),
                0 <= j <= n,
                self.stop_requested == old(self).stop_requested,
                forall|jj: int| j <= jj < n ==> self.units@[jj] == old(self).units@[jj],
                forall|jj: int|
                    0 <= jj < j && old(self).units@[jj].spec_is_running() ==> #[trigger] self.units@[
                        jj
                    ].probe_manager.is_running,
                forall|jj: int|
                    0 <= jj < j && !old(self).units@[jj].spec_is_running() ==> self.units@[jj]
                        == old(self).units@[jj],
            decreases n - j,
        {
            let ghost pre = self.units@;
            {
                let unit = &mut self.units[j];
                unit.start_probes();
            }
            proof {
                assert forall|jj: int|
                    0 <= jj < pre.len() implies #[trigger] self.units@[jj].same_identity(
                    pre[jj],
                ) && self.units@[jj].restart_policy == pre[jj].restart_policy by {
                    if jj != j as int {
                        assert(self.units@[jj] == pre[jj]);
                    }
                }
                lemma_identity_same_graph(pre, self.units@);
                assert forall|jj: int|
                    0 <= jj < self.units@.len() implies #[trigger] self.units@[jj].wf() by {
                    assert(pre[jj].wf());
                    if jj != j as int {
                        assert(self.units@[jj] == pre[jj]);
                    }
                }
            }
            j = j + 1;
        }
    }

    /// One monitoring pass, as the supervisor performs it each tick:
    /// apply each unit's reap observation; a unit observed stopped is
    /// stopped outright (reclaiming any straggling handles), and then
    /// restarted — probes included — exactly when its policy is
    /// `Always`.  Other policies leave it stopped.
    #[verifier::rlimit(50)]
    #[verifier::spinoff_prover]
    pub fn monitor(
        &mut self,
        observations: &Vec<ExitObservation>,
        kills: &Vec<KillOutcome>,
        outcomes: &Vec<SpawnOutcome>,
    )
        requires
            old(self).wf(),
            observations@.len() == old(self).units@.len(),
            kills@.len() == old(self).units@.len(),
            outcomes@.len() == old(self).units@.len(),
        ensures
            final(self).wf(),
            final(self).units@.len() == old(self).units@.len(),
            final(self).stop_requested == old(self).stop_requested,
            forall|j: int|
                0 <= j < final(self).units@.len() ==> #[trigger] final(self).units@[
                    j
                ].same_identity(old(self).units@[j]),
            forall|j: int|
                0 <= j < final(self).units@.len() ==> #[trigger] final(self).units@[
                    j
                ].restart_policy == old(self).units@[j].restart_policy,
            forall|j: int|
                0 <= j < final(self).units@.len() && restartable(
                    old(self).units@,
                    j,
                    kills@,
                    outcomes@,
                ) ==> #[trigger] final(self).units@[j].spec_is_running(),
            forall|j: int|
                0 <= j < final(self).units@.len() && !observed_running(
                    old(self).units@[j],
                    observations@[j],
                ) && old(self).units@[j].restart_policy !is Always && no_dependents(
                    old(self).units@,
                    j,
                ) ==> #[trigger] final(self).units@[j].state is Stopped && final(self).units@[
                    j
                ].process.child is None && !final(self).units@[j].spec_is_running(),
            forall|j: int|
                0 <= j < final(self).units@.len() && old(self).units@[j].spec_is_running()
                    && observations@[j] is StillRunning ==> #[trigger] final(self).units@[j]
                    == old(self).units@[j],
    {
        let n = self.units.len();
        let mut j: usize = 0;
        while j < n
            invariant
                self.wf(),
                units_wf(old(self).units@),
                graph::acyclic(old(self).units@),
                n == self.units@.len(),
                self.units@.len() == old(self).units@.len(),
                observations@.len() == n,
                kills@.len() == n,
                outcomes@.len() == n,
                0 <= j <= n,
                self.stop_requested == old(self).stop_requested,
                forall|jj: int|
                    0 <= jj < n ==> #[trigger] self.units@[jj].same_identity(
                        old(self).units@[jj],
                    ),
                forall|jj: int|
                    0 <= jj < n ==> #[trigger] self.units@[jj].restart_policy == old(
                        self,
                    ).units@[jj].restart_policy,
                forall|jj: int|
                    0 <= jj < j && restartable(old(self).units@, jj, kills@, outcomes@)
                        ==> #[trigger] self.units@[jj].spec_is_running(),
                forall|jj: int|
                    0 <= jj < j && !observed_running(old(self).units@[jj], observations@[jj])
                        && old(self).units@[jj].restart_policy !is Always && no_dependents(
                        old(self).units@,
                        jj,
                    ) ==> #[trigger] self.units@[jj].state is Stopped && self.units@[
                        jj
                    ].process.child is None && !self.units@[jj].spec_is_running(),
                forall|jj: int|
                    0 <= jj < j && old(self).units@[jj].spec_is_running() && observations@[
                        jj
                    ] is StillRunning ==> #[trigger] self.units@[jj] == old(self).units@[jj],
                forall|jj: int|
                    j <= jj < n && old(self).units@[jj].spec_is_running() ==> #[trigger] self.units@[
                        jj
                    ] == old(self).units@[jj],
                forall|jj: int|
                    j <= jj < n && no_dependents(old(self).units@, jj) ==> #[trigger] self.units@[
                        jj
                    ] == old(self).units@[jj],
            decreases n - j,
        {
            let ghost pre_refresh = self.units@;
            {
                let unit = &mut self.units[j];
                let _ = unit.refresh(observations[j]);
            }
            proof {
                assert forall|jj: int|
                    0 <= jj < n implies #[trigger] self.units@[jj].same_identity(
                    old(self).units@[jj],
                ) by {
                    if jj == j as int {
                        assert(self.units@[jj].same_identity(pre_refresh[jj]));
                    } else {
                        assert(self.units@[jj] == pre_refresh[jj]);
                    }
                    assert(pre_refresh[jj].same_identity(old(self).units@[jj]));
                }
                assert forall|jj: int|
                    0 <= jj < n implies #[trigger] self.units@[jj].restart_policy == old(
                    self,
                ).units@[jj].restart_policy by {
                    if jj == j as int {
                        assert(self.units@[jj].restart_policy == pre_refresh[jj].restart_policy);
                    } else {
                        assert(self.units@[jj] == pre_refresh[jj]);
                    }
                    assert(pre_refresh[jj].restart_policy == old(self).units@[
                        jj
                    ].restart_policy);
                }
                lemma_identity_same_graph(old(self).units@, self.units@);
                assert forall|jj: int|
                    0 <= jj < self.units@.len() implies #[trigger] self.units@[jj].wf() by {
                    assert(pre_refresh[jj].wf());
                    if jj != j as int {
                        assert(self.units@[jj] == pre_refresh[jj]);
                    }
                }
                if no_dependents(old(self).units@, j as int) {
                    assert(pre_refresh[j as int] == old(self).units@[j as int]);
                    assert(self.units@[j as int].spec_is_running() == observed_running(
                        old(self).units@[j as int],
                        observations@[j as int],
                    ));
                }
                if old(self).units@[j as int].spec_is_running() && observations@[
                    j as int
                ] is StillRunning {
                    assert(pre_refresh[j as int] == old(self).units@[j as int]);
                    assert(self.units@[j as int] == old(self).units@[j as int]);
                    assert(self.units@[j as int].spec_is_running());
                }
            }
            let running = self.units[j].is_running();
            if !running {
                let ghost pre_stop = self.units@;
                let _ = {
                    let unit = &mut self.units[j];
                    unit.stop(&kills[j])
                };
                proof {
                    assert(pre_stop[j as int].process.child is None);
                    assert(self.units@[j as int].state is Stopped);
                    assert(self.units@[j as int].process.child is None);
                    assert(!self.units@[j as int].spec_is_running());
                    assert forall|jj: int|
                        0 <= jj < n implies #[trigger] self.units@[jj].same_identity(
                        old(self).units@[jj],
                    ) by {
                        if jj == j as int {
                            assert(self.units@[jj].same_identity(pre_stop[jj]));
                        } else {
                            assert(self.units@[jj] == pre_stop[jj]);
                        }
                        assert(pre_stop[jj].same_identity(old(self).units@[jj]));
                    }
                    assert forall|jj: int|
                        0 <= jj < n implies #[trigger] self.units@[jj].restart_policy == old(
                        self,
                    ).units@[jj].restart_policy by {
                        if jj == j as int {
                            assert(self.units@[jj].restart_policy == pre_stop[
                                jj
                            ].restart_policy);
                        } else {
                            assert(self.units@[jj] == pre_stop[jj]);
                        }
                        assert(pre_stop[jj].restart_policy == old(self).units@[
                            jj
                        ].restart_policy);
                    }
                    lemma_identity_same_graph(old(self).units@, self.units@);
                    assert forall|jj: int|
                        0 <= jj < self.units@.len() implies #[trigger] self.units@[jj].wf() by {
                        assert(pre_stop[jj].wf());
                        if jj != j as int {
                            assert(self.units@[jj] == pre_stop[jj]);
                        }
                    }
                }
                if self.units[j].get_restart_policy() == RestartPolicy::Always {
                    let ghost mid = self.units@;
                    proof {
                        assert forall|x: int|
                            0 <= x < old(self).units@.len() implies old(self).units@[
                            x
                        ].dependencies == mid[x].dependencies by {
                            assert(mid[x].same_identity(old(self).units@[x]));
                        }
                        graph::lemma_same_deps(old(self).units@, mid);
                        if restartable(old(self).units@, j as int, kills@, outcomes@) {
                            assert(mid[j as int].enabled) by {
                                assert(mid[j as int].same_identity(old(self).units@[j as int]));
                            }
                            assert(all_reachable_ready(mid, j as int, outcomes@)) by {
                                assert forall|q: int|
                                    0 <= q < mid.len() && #[trigger] graph::reachable(
                                    mid,
                                    j as int,
                                    q,
                                ) implies mid[q].enabled && outcomes@[q] is Spawned by {
                                    assert(graph::reachable(old(self).units@, j as int, q));
                                    assert(old(self).units@[q].enabled && outcomes@[
                                        q
                                    ] is Spawned);
                                    assert(mid[q].same_identity(old(self).units@[q]));
                                }
                            }
                        }
                    }
                    let restart_result = Unit::restart(&mut self.units, j, &kills[j], outcomes);
                    proof {
                        assert forall|jj: int|
                            0 <= jj < n implies #[trigger] self.units@[jj].same_identity(
                            old(self).units@[jj],
                        ) by {
                            assert(self.units@[jj].same_identity(mid[jj]));
                            assert(mid[jj].same_identity(old(self).units@[jj]));
                        }
                        assert forall|jj: int|
                            0 <= jj < n implies #[trigger] self.units@[jj].restart_policy == old(
                            self,
                        ).units@[jj].restart_policy by {
                            assert(self.units@[jj].restart_policy == mid[jj].restart_policy);
                            assert(mid[jj].restart_policy == old(self).units@[jj].restart_policy);
                        }
                        assert forall|jj: int|
                            0 <= jj < j && !observed_running(
                                old(self).units@[jj],
                                observations@[jj],
                            ) && old(self).units@[jj].restart_policy !is Always && no_dependents(
                                old(self).units@,
                                jj,
                            ) implies #[trigger] self.units@[jj].state is Stopped && self.units@[
                            jj
                        ].process.child is None && !self.units@[jj].spec_is_running() by {
                            assert(!graph::reachable(old(self).units@, j as int, jj));
                            assert(!graph::reachable(mid, j as int, jj));
                            assert(self.units@[jj] == mid[jj]);
                        }
                        assert forall|jj: int|
                            0 <= jj < j && old(self).units@[jj].spec_is_running()
                                && observations@[jj] is StillRunning implies #[trigger] self.units@[
                            jj
                        ] == old(self).units@[jj] by {
                            assert(mid[jj] == old(self).units@[jj]);
                            assert(mid[jj].spec_is_running());
                            assert(self.units@[jj] == mid[jj]);
                        }
                        if restartable(old(self).units@, j as int, kills@, outcomes@) {
                            assert(restart_result is Ok);
                        }
                    }
                    match restart_result {
                        Ok(_) => {
                            let ghost pre_probes = self.units@;
                            {
                                let unit = &mut self.units[j];
                                unit.start_probes();
                            }
                            proof {
                                assert forall|jj: int|
                                    0 <= jj < n implies #[trigger] self.units@[jj].same_identity(
                                    old(self).units@[jj],
                                ) by {
                                    if jj == j as int {
                                        assert(self.units@[jj].same_identity(pre_probes[jj]));
                                    } else {
                                        assert(self.units@[jj] == pre_probes[jj]);
                                    }
                                    assert(pre_probes[jj].same_identity(old(self).units@[jj]));
                                }
                                assert forall|jj: int|
                                    0 <= jj < n implies #[trigger] self.units@[jj].restart_policy
                                    == old(self).units@[jj].restart_policy by {
                                    if jj == j as int {
                                        assert(self.units@[jj].restart_policy == pre_probes[
                                            jj
                                        ].restart_policy);
                                    } else {
                                        assert(self.units@[jj] == pre_probes[jj]);
                                    }
                                    assert(pre_probes[jj].restart_policy == old(self).units@[
                                        jj
                                    ].restart_policy);
                                }
                                lemma_identity_same_graph(old(self).units@, self.units@);
                                assert forall|jj: int|
                                    0 <= jj < self.units@.len() implies #[trigger] self.units@[
                                    jj
                                ].wf() by {
                                    assert(pre_probes[jj].wf());
                                    if jj != j as int {
                                        assert(self.units@[jj] == pre_probes[jj]);
                                    }
                                }
                                assert forall|jj: int|
                                    0 <= jj <= j && restartable(
                                        old(self).units@,
                                        jj,
                                        kills@,
                                        outcomes@,
                                    ) implies #[trigger] self.units@[jj].spec_is_running() by {
                                    if jj == j as int {
                                        assert(pre_probes[jj].spec_is_running());
                                        assert(self.units@[jj].spec_is_running());
                                    } else {
                                        assert(self.units@[jj] == pre_probes[jj]);
                                        assert(pre_probes[jj].spec_is_running());
                                    }
                                }
                                assert forall|jj: int|
                                    0 <= jj < j && !observed_running(
                                        old(self).units@[jj],
                                        observations@[jj],
                                    ) && old(self).units@[jj].restart_policy !is Always
                                    && no_dependents(old(self).units@, jj) implies #[trigger] self.units@[
                                    jj
                                ].state is Stopped && self.units@[jj].process.child is None
                                    && !self.units@[jj].spec_is_running() by {
                                    assert(self.units@[jj] == pre_probes[jj]);
                                }
                                assert forall|jj: int|
                                    0 <= jj < j && old(self).units@[jj].spec_is_running()
                                        && observations@[jj] is StillRunning implies #[trigger] self.units@[
                                    jj
                                ] == old(self).units@[jj] by {
                                    assert(self.units@[jj] == pre_probes[jj]);
                                }
                            }
                        },
                        Err(_) => {
                            proof {
                                assert(!restartable(old(self).units@, j as int, kills@, outcomes@));
                            }
                        },
                    }
                } else {
                    proof {
                        if restartable(old(self).units@, j as int, kills@, outcomes@) {
                            assert(self.units@[j as int].restart_policy is Always);
                        }
                    }
                }
            } else {
                proof {
                    if restartable(old(self).units@, j as int, kills@, outcomes@) {
                        assert(self.units@[j as int].spec_is_running());
                    }
                    if !observed_running(old(self).units@[j as int], observations@[j as int])
                        && no_dependents(old(self).units@, j as int) {
                        assert(!self.units@[j as int].spec_is_running());
                    }
                }
            }
            j = j + 1;
        }
    }

    /// One supervisor tick: once shutdown has been requested nothing
    /// more is done and `false` asks the loop to exit; otherwise the
    /// monitoring pass runs and the loop goes on.
    pub fn run_tick(
        &mut self,
        observations: &Vec<ExitObservation>,
        kills: &Vec<KillOutcome>,
        outcomes: &Vec<SpawnOutcome>,
    ) -> (r: bool)
        requires
            old(self).wf(),
            observations@.len() == old(self).units@.len(),
            kills@.len() == old(self).units@.len(),
            outcomes@.len() == old(self).units@.len(),
        ensures
            r == !old(self).stop_requested,
            !r ==> *final(self) == *old(self),
            final(self).wf(),
            final(self).units@.len() == old(self).units@.len(),
            final(self).stop_requested == old(self).stop_requested,
            forall|j: int|
                0 <= j < final(self).units@.len() ==> #[trigger] final(self).units@[
                    j
                ].same_identity(old(self).units@[j]),
            r ==> forall|j: int|
                0 <= j < final(self).units@.len() && restartable(
                    old(self).units@,
                    j,
                    kills@,
                    outcomes@,
                ) ==> #[trigger] final(self).units@[j].spec_is_running(),
            r ==> forall|j: int|
                0 <= j < final(self).units@.len() && !observed_running(
                    old(self).units@[j],
                    observations@[j],
                ) && old(self).units@[j].restart_policy !is Always && no_dependents(
                    old(self).units@,
                    j,
                ) ==> #[trigger] final(self).units@[j].state is Stopped && !final(self).units@[
                    j
                ].spec_is_running(),
            r ==> forall|j: int|
                0 <= j < final(self).units@.len() && old(self).units@[j].spec_is_running()
                    && observations@[j] is StillRunning ==> #[trigger] final(self).units@[j]
                    == old(self).units@[j],
    {
        if self.stop_requested() {
            return false;
        }
        self.monitor(observations, kills, outcomes);
        true
    }

    /// The supervisor loop's tail: stop every unit once, then reset
    /// the shutdown flag.
    pub fn run_shutdown(&mut self, kills: &Vec<KillOutcome>)
        requires
            old(self).wf(),
            kills@.len() == old(self).units@.len(),
        ensures
            final(self).wf(),
            final(self).units@.len() == old(self).units@.len(),
            !final(self).stop_requested,
            forall|j: int|
                0 <= j < final(self).units@.len() ==> #[trigger] final(self).units@[
                    j
                ].same_identity(old(self).units@[j]),
            forall|j: int|
                0 <= j < final(self).units@.len() && !(old(self).units@[j].process.child is Some
                    && (kills@[j] is KillFailed || kills@[j] is WaitFailed)) ==> final(self).units@[j].state is Stopped && !final(self).units@[j].spec_is_running(),
    {
        self.stop_units(kills);
        self.reset_stop_request();
    }

    /// True exactly when every unit counts as running.
    pub fn all_units_running(&self) -> (r: bool)
        ensures
            r == forall|j: int|
                0 <= j < self.units@.len() ==> #[trigger] self.units@[j].spec_is_running(),
    {
        let mut j: usize = 0;
        while j < self.units.len()
            invariant
                0 <= j <= self.units@.len(),
                forall|j2: int| 0 <= j2 < j ==> #[trigger] self.units@[j2].spec_is_running(),
            decreases self.units@.len() - j,
        {
            if !self.units[j].is_running() {
                return false;
            }
            j = j + 1;
        }
        true
    }

    /// True exactly when no unit counts as running.
    pub fn all_units_stopped(&self) -> (r: bool)
        ensures
            r == forall|j: int|
                0 <= j < self.units@.len() ==> !(#[trigger] self.units@[j].spec_is_running()),
    {
        let mut j: usize = 0;
        while j < self.units.len()
            invariant
                0 <= j <= self.units@.len(),
                forall|j2: int| 0 <= j2 < j ==> !(#[trigger] self.units@[j2].spec_is_running()),
            decreases self.units@.len() - j,
        {
            if self.units[j].is_running() {
                return false;
            }
            j = j + 1;
        }
        true
    }
}

/// Tables whose units keep their identity keep their dependency
/// graph.
proof fn lemma_identity_same_graph(a: Seq<Unit>, b: Seq<Unit>)
    requires
        a.len() == b.len(),
        graph::deps_in_range(a),
        graph::acyclic(a),
        forall|j: int| 0 <= j < a.len() ==> #[trigger] b[j].same_identity(a[j]),
    ensures
        graph::deps_in_range(b),
        graph::acyclic(b),
{
    assert forall|j: int| 0 <= j < a.len() implies a[j].dependencies == b[j].dependencies by {
        assert(b[j].same_identity(a[j]));
    }
    graph::lemma_same_deps(a, b);
}

/// An upper bound on the ranks of the named dependencies.
spec fn rank_bound(rank: Map<int, nat>, deps: Seq<usize>) -> nat
    decreases deps.len(),
{
    if deps.len() == 0 {
        0
    } else {
        let rest = rank_bound(rank, deps.drop_last());
        if rank[deps.last() as int] >= rest {
            rank[deps.last() as int]
        } else {
            rest
        }
    }
}

proof fn lemma_rank_bound(rank: Map<int, nat>, deps: Seq<usize>)
    ensures
        forall|k: int| 0 <= k < deps.len() ==> rank[#[trigger] deps[k] as int] <= rank_bound(
            rank,
            deps,
        ),
    decreases deps.len(),
{
    if deps.len() > 0 {
        lemma_rank_bound(rank, deps.drop_last());
        assert forall|k: int|
            0 <= k < deps.len() implies rank[#[trigger] deps[k] as int] <= rank_bound(
            rank,
            deps,
        ) by {
            if k < deps.len() - 1 {
                assert(deps.drop_last()[k] == deps[k]);
                assert(rank[deps[k] as int] <= rank_bound(rank, deps.drop_last()));
            }
        }
    }
}

/// Appending a unit whose dependencies point into the existing table
/// keeps the graph acyclic: the new node gets a rank above all of
/// its dependencies, and no old node names the new one.
proof fn lemma_acyclic_push(units: Seq<Unit>, unit: Unit)
    requires
        graph::deps_in_range(units),
        graph::acyclic(units),
        forall|k: int|
            0 <= k < unit.dependencies@.len() ==> (#[trigger] unit.dependencies@[k] as int)
                < units.len(),
    ensures
        graph::deps_in_range(units.push(unit)),
        graph::acyclic(units.push(unit)),
{
    let n = units.len() as int;
    let pushed = units.push(unit);
    assert forall|i: int, k: int|
        0 <= i < pushed.len() && 0 <= k < pushed[i].dependencies@.len() implies 0 <= #[trigger] graph::dep(
        pushed,
        i,
        k,
    ) < pushed.len() by {
        if i < n {
            assert(pushed[i] == units[i]);
            assert(graph::dep(units, i, k) == graph::dep(pushed, i, k));
            assert(0 <= graph::dep(units, i, k) < units.len());
        } else {
            assert(pushed[i] == unit);
        }
    }
    let rank = choose|rank: Map<int, nat>| graph::valid_rank(units, rank);
    lemma_rank_bound(rank, unit.dependencies@);
    let top = (rank_bound(rank, unit.dependencies@) + 1) as nat;
    let rank2 = rank.insert(n, top);
    assert forall|i: int, k: int|
        0 <= i < pushed.len() && 0 <= k < pushed[i].dependencies@.len() implies rank2[#[trigger] graph::dep(
        pushed,
        i,
        k,
    )] < rank2[i] by {
        if i < n {
            assert(pushed[i] == units[i]);
            assert(graph::dep(pushed, i, k) == graph::dep(units, i, k));
            assert(0 <= graph::dep(units, i, k) < n);
            assert(rank[graph::dep(units, i, k)] < rank[i]);
        } else {
            assert(pushed[i] == unit);
            assert(graph::dep(pushed, i, k) == unit.dependencies@[k] as int);
            assert(rank[unit.dependencies@[k] as int] <= rank_bound(rank, unit.dependencies@));
        }
    }
    assert(graph::valid_rank(pushed, rank2));
}

} // verus!
