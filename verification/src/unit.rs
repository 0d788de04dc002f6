//! The unit: the per-process state machine.
//!
//! A unit owns a `Process`, a `ProbeManager`, a restart policy and a
//! list of dependencies.  Units live together in the manager's table,
//! and a dependency is the table index of another unit.  Operations
//! that cross units (dependency-aware start, restart) are associated
//! functions over the whole table; everything else is a method.

use vstd::prelude::*;

use crate::probe_manager::ProbeManager;
use crate::probe_state::ProbeState;
use crate::process::{ExitObservation, KillOutcome, Process, SpawnOutcome};
use crate::process_probe::ProcessProbe;
use crate::liveness_probe::LivenessProbe;
use crate::restart_policy::RestartPolicy;
use crate::unit_state::{spec_derived_view, derived_view, UnitState};

verus! {

/// How many seconds a freshly bound process probe waits between pid
/// lookups.
pub const PROCESS_PROBE_INTERVAL_S: i32 = 5;

/// One managed long-running child process.
#[derive(Debug)]
pub struct Unit {
    /// Immutable identity, unique across the manager.
    pub name: String,
    /// Table indices of the units that must run before this one.
    pub dependencies: Vec<usize>,
    pub restart_policy: RestartPolicy,
    pub enabled: bool,
    pub process: Process,
    pub probe_manager: ProbeManager,
    /// The stored lifecycle phase; never one of the derived views.
    pub state: UnitState,
}

impl Unit {
    /// The unit's internal invariant: the process record is
    /// well-formed, only stored phases are stored, and a unit stored
    /// as `Stopped` holds no child handle and has its probes masked
    /// off.
    pub open spec fn wf(self) -> bool {
        &&& self.process.wf()
        &&& self.state.is_stored()
        &&& self.state is Stopped ==> self.process.child is None
        &&& self.state is Stopped ==> !self.probe_manager.is_running
    }

    /// Whether the unit counts as running: its process holds a child
    /// handle, or its process probe most recently reported `Alive`.
    /// The disjunction covers the window between a spawn and the
    /// first probe cycle, and short probe outages.
    pub open spec fn spec_is_running(self) -> bool {
        self.process.spec_is_running() || self.probe_manager.spec_process_probe_state() is Alive
    }

    /// The probes' view of the unit is current: they are only running
    /// while a child handle is held.  A reaped exit that the monitor
    /// has not yet acted on suspends this until the next tick.
    pub open spec fn probe_current(self) -> bool {
        self.probe_manager.is_running ==> self.process.child is Some
    }

    /// No operation of the machine ends between phases: the unit
    /// rests either stopped, or running with a held child handle.
    pub open spec fn settled(self) -> bool {
        ||| self.state is Stopped
        ||| (self.state is Running && self.process.child is Some)
    }

    /// Everything an operation of the machine leaves untouched:
    /// identity, dependencies, policy knob ownership, launch
    /// descriptor.
    pub open spec fn same_identity(self, other: Unit) -> bool {
        &&& self.name == other.name
        &&& self.dependencies == other.dependencies
        &&& self.enabled == other.enabled
        &&& self.process.same_descriptor(other.process)
        &&& self.probe_manager.unit_name == other.probe_manager.unit_name
    }

    pub fn new(
        name: String,
        executable: String,
        arguments: Vec<String>,
        restart_policy: RestartPolicy,
        uid: u32,
        gid: u32,
        enabled: bool,
    ) -> (r: Unit)
        ensures
            r.name == name,
            r.dependencies@.len() == 0,
            r.restart_policy == restart_policy,
            r.enabled == enabled,
            r.process.executable == executable,
            r.process.arguments == arguments,
            r.process.uid == uid,
            r.process.gid == gid,
            r.process.child is None,
            r.probe_manager.liveness_probe is None,
            r.probe_manager.process_probe is None,
            !r.probe_manager.is_running,
            r.state is Stopped,
            r.wf(),
            r.settled(),
            !r.spec_is_running(),
    {
        let process = Process::new(executable, arguments, uid, gid);
        let probe_manager = ProbeManager::new(name.clone());
        Unit {
            name,
            dependencies: Vec::new(),
            restart_policy,
            enabled,
            process,
            probe_manager,
            state: UnitState::Stopped,
        }
    }

    pub fn set_liveness_probe(&mut self, probe: LivenessProbe)
        ensures
            *final(self) == (Unit {
                probe_manager: final(self).probe_manager,
                ..*old(self)
            }),
            final(self).probe_manager == (ProbeManager {
                liveness_probe: Some(probe),
                ..old(self).probe_manager
            }),
    {
        self.probe_manager.set_liveness_probe(probe);
    }

    pub fn get_name(&self) -> (r: String)
        ensures
            r == self.name,
    {
        self.name.clone()
    }

    pub fn get_executable(&self) -> (r: String)
        ensures
            r == self.process.executable,
    {
        self.process.get_executable()
    }

    pub fn get_arguments(&self) -> (r: Vec<String>)
        ensures
            r@ == self.process.arguments@,
    {
        self.process.get_arguments()
    }

    /// Records that this unit depends on the unit at table index
    /// `unit_index`.
    pub fn add_dependency(&mut self, unit_index: usize)
        ensures
            *final(self) == (Unit {
                dependencies: final(self).dependencies,
                ..*old(self)
            }),
            final(self).dependencies@ == old(self).dependencies@.push(unit_index),
    {
        self.dependencies.push(unit_index);
    }

    pub fn get_dependencies(&self) -> (r: Vec<usize>)
        ensures
            r@ == self.dependencies@,
    {
        let mut out: Vec<usize> = Vec::new();
        let mut i: usize = 0;
        while i < self.dependencies.len()
            invariant
                0 <= i <= self.dependencies.len(),
                out@.len() == i,
                forall|j: int| 0 <= j < i ==> out@[j] == self.dependencies@[j],
            decreases self.dependencies.len() - i,
        {
            out.push(self.dependencies[i]);
            i = i + 1;
        }
        assert(out@ =~= self.dependencies@);
        out
    }

    pub fn get_restart_policy(&self) -> (r: RestartPolicy)
        ensures
            r == self.restart_policy,
    {
        self.restart_policy
    }

    pub fn set_restart_policy(&mut self, policy: RestartPolicy)
        ensures
            *final(self) == (Unit { restart_policy: policy, ..*old(self) }),
    {
        self.restart_policy = policy;
    }

    pub fn get_uid(&self) -> (r: u32)
        ensures
            r == self.process.uid,
    {
        self.process.get_uid()
    }

    pub fn get_gid(&self) -> (r: u32)
        ensures
            r == self.process.gid,
    {
        self.process.get_gid()
    }

    pub fn is_enabled(&self) -> (r: bool)
        ensures
            r == self.enabled,
    {
        self.enabled
    }

    pub fn get_pid(&self) -> (r: Option<u32>)
        ensures
            r == self.process.child,
    {
        self.process.get_pid()
    }

    /// The lifecycle phase a reader observes: a stored `Running` is
    /// refined by the current process-probe state into one of the two
    /// `Running*` views.
    pub fn get_state(&self) -> (r: UnitState)
        ensures
            r == spec_derived_view(self.state, self.probe_manager.spec_process_probe_state()),
    {
        let probe = self.probe_manager.get_process_probe_state();
        derived_view(self.state, probe)
    }

    pub fn get_process_probe_state(&self) -> (r: ProbeState)
        ensures
            r == self.probe_manager.spec_process_probe_state(),
    {
        self.probe_manager.get_process_probe_state()
    }

    pub fn get_liveness_probe_state(&self) -> (r: ProbeState)
        ensures
            r == self.probe_manager.spec_liveness_probe_state(),
    {
        self.probe_manager.get_liveness_probe_state()
    }

    /// Seconds since the child was spawned, measured against the
    /// caller's clock reading `now_s`.
    pub fn get_uptime(&self, now_s: u64) -> (r: Option<u64>)
        ensures
            r is Some <==> self.process.start_timestamp is Some,
            self.process.start_timestamp matches Some(t) ==> r == Some(
                if now_s >= t {
                    (now_s - t) as u64
                } else {
                    0u64
                },
            ),
    {
        self.process.get_uptime(now_s)
    }

    /// Whether the unit counts as running; see `spec_is_running`.
    pub fn is_running(&self) -> (r: bool)
        ensures
            r == self.spec_is_running(),
    {
        self.process.is_running() || self.get_process_probe_state() == ProbeState::Alive
    }

    /// A unit may start if it is enabled and not already running.
    pub fn can_start(&self) -> (r: bool)
        ensures
            r == (self.enabled && !self.spec_is_running()),
    {
        if !self.enabled {
            return false;
        }
        if self.is_running() {
            return false;
        }
        true
    }

    /// A unit may stop if it is enabled and running, regardless of
    /// its dependencies.
    pub fn can_stop(&self) -> (r: bool)
        ensures
            r == (self.enabled && self.spec_is_running()),
    {
        if !self.is_enabled() {
            return false;
        }
        if !self.is_running() {
            return false;
        }
        true
    }

    /// Applies a non-blocking reap observation to the process record;
    /// an observed exit releases the child handle.  The stored phase
    /// is left alone: acting on the loss is the monitor's decision.
    pub fn refresh(&mut self, observation: ExitObservation) -> (r: Option<i32>)
        ensures
            final(self).same_identity(*old(self)),
            final(self).restart_policy == old(self).restart_policy,
            final(self).state == old(self).state,
            final(self).probe_manager == old(self).probe_manager,
            old(self).wf() ==> final(self).wf(),
            old(self).process.child is None ==> *final(self) == *old(self) && r is None,
            old(self).process.child is Some && observation is StillRunning ==> *final(self)
                == *old(self) && r is None,
            old(self).process.child is Some && observation is Exited ==> {
                &&& final(self).process.child is None
                &&& final(self).process.start_timestamp is None
                &&& r == Some(observation->code)
            },
    {
        self.process.exit_code(observation)
    }

    /// Binds a fresh process probe to the pid of the newly spawned
    /// child.  The probe is handed to the probe manager but not yet
    /// started: the manager starts probes after bring-up completes.
    fn init_process_probe(&mut self)
        ensures
            final(self).same_identity(*old(self)),
            final(self).restart_policy == old(self).restart_policy,
            final(self).state == old(self).state,
            final(self).process == old(self).process,
            old(self).process.child matches Some(pid) ==> final(self).probe_manager == (
            ProbeManager {
                process_probe: Some(
                    ProcessProbe {
                        name: old(self).name,
                        pid,
                        interval_s: PROCESS_PROBE_INTERVAL_S,
                        state: ProbeState::Undefined,
                        stop_requested: false,
                    },
                ),
                ..old(self).probe_manager
            }),
            old(self).process.child is None ==> *final(self) == *old(self),
            final(self).probe_manager.is_running == old(self).probe_manager.is_running,
            final(self).probe_manager.liveness_probe == old(self).probe_manager.liveness_probe,
    {
        match self.process.get_pid() {
            Some(pid) => {
                let process_probe = ProcessProbe::new(
                    self.name.clone(),
                    pid,
                    PROCESS_PROBE_INTERVAL_S,
                );
                self.probe_manager.set_process_probe(process_probe);
            },
            None => {},
        }
    }

    /// Starts the probes, provided the unit is running; probes of
    /// a stopped unit stay masked off.
    pub fn start_probes(&mut self)
        ensures
            final(self).same_identity(*old(self)),
            final(self).restart_policy == old(self).restart_policy,
            final(self).state == old(self).state,
            final(self).process == old(self).process,
            old(self).spec_is_running() ==> final(self).probe_manager == (ProbeManager {
                is_running: true,
                ..old(self).probe_manager
            }),
            !old(self).spec_is_running() ==> *final(self) == *old(self),
            old(self).wf() ==> final(self).wf(),
    {
        if !self.is_running() {
            return ;
        }
        self.probe_manager.start_probes();
    }

    /// Signals cancellation to both probes and clears the shared flag.
    fn stop_probes(&mut self)
        ensures
            final(self).same_identity(*old(self)),
            final(self).restart_policy == old(self).restart_policy,
            final(self).state == old(self).state,
            final(self).process == old(self).process,
            final(self).probe_manager == old(self).probe_manager.spec_stopped(),
            !final(self).probe_manager.is_running,
            final(self).probe_manager.spec_process_probe_state() is Undefined,
    {
        self.probe_manager.stop_probes();
    }

    /// Stops the unit: records the prior phase, moves to `Stopping`,
    /// stops the probes before the child (preventing a restart race
    /// with the supervisor), then takes the kill outcome.  On success
    /// the unit rests `Stopped`; `Ok(true)` if a child was actually
    /// stopped, `Ok(false)` if none was held.  On failure the probes
    /// are resumed and the prior phase is restored.
    pub fn stop(&mut self, kill: &KillOutcome) -> (r: Result<bool, String>)
        ensures
            final(self).same_identity(*old(self)),
            final(self).restart_policy == old(self).restart_policy,
            old(self).wf() ==> final(self).wf(),
            r is Ok <==> !(old(self).process.child is Some && (kill is KillFailed
                || kill is WaitFailed)),
            r is Ok ==> {
                &&& r == Ok::<bool, String>(old(self).process.child is Some)
                &&& final(self).state is Stopped
                &&& final(self).process.child is None
                &&& (old(self).process.wf() ==> final(self).process.start_timestamp is None)
                &&& final(self).probe_manager == old(self).probe_manager.spec_stopped()
                &&& !final(self).probe_manager.is_running
                &&& final(self).settled()
                &&& !final(self).spec_is_running()
            },
            r is Err ==> {
                &&& final(self).state == old(self).state
                &&& final(self).process == old(self).process
                &&& final(self).probe_manager.is_running
            },
    {
        let current_state = self.state;
        self.state = UnitState::Stopping;
        self.stop_probes();
        let stop_result = self.process.stop(kill);
        match stop_result {
            Ok(success) => {
                self.state = UnitState::Stopped;
                Ok(success)
            },
            Err(error) => {
                self.probe_manager.resume_probes();
                self.state = current_state;
                let mut message = String::from_str("Unit ");
                message.append(self.name.as_str());
                message.append(" failed to stop: ");
                message.append(error.as_str());
                Err(message)
            },
        }
    }
}

/// Everything `start` could touch from unit `i` is ready to come
/// up: every reachable unit is enabled and holds a successful spawn
/// outcome.  Under this, `start` cannot fail.
pub open spec fn all_reachable_ready(units: Seq<Unit>, i: int, outcomes: Seq<SpawnOutcome>) -> bool {
    forall|j: int|
        0 <= j < units.len() && #[trigger] crate::graph::reachable(units, i, j) ==> units[
            j
        ].enabled && outcomes[j] is Spawned
}

/// Every unit reachable from `i` is enabled; all a start plan needs
/// to exist.
pub open spec fn all_reachable_enabled(units: Seq<Unit>, i: int) -> bool {
    forall|j: int|
        0 <= j < units.len() && #[trigger] crate::graph::reachable(units, i, j) ==> units[
            j
        ].enabled
}

/// A start plan is sound for the table: every entry is a table index
/// of an enabled, stopped unit, no entry repeats, and every
/// dependency of an entry is either already running or scheduled
/// earlier in the plan.
pub open spec fn plan_ok(units: Seq<Unit>, plan: Seq<usize>) -> bool {
    &&& forall|m: int| 0 <= m < plan.len() ==> (#[trigger] plan[m] as int) < units.len()
    &&& forall|m1: int, m2: int| 0 <= m1 < m2 < plan.len() ==> plan[m1] != plan[m2]
    &&& forall|m: int|
        0 <= m < plan.len() ==> units[#[trigger] plan[m] as int].enabled && !units[plan[
            m
        ] as int].spec_is_running()
    &&& forall|m: int, k: int|
        0 <= m < plan.len() && 0 <= k < units[plan[m] as int].dependencies@.len() ==> units[
            #[trigger] crate::graph::dep(units, plan[m] as int, k)].spec_is_running() || exists|
            m2: int,
        | 0 <= m2 < m && plan[m2] as int == crate::graph::dep(units, plan[m] as int, k)
}

/// A unit that counts as running holds a child handle, provided its
/// probes' view is current: the probe can only report `Alive` while
/// it is running, and a running probe presupposes a held handle.
/// The one window where this fails is a child reaped while the
/// probes still run, which the monitor closes at its next tick.
pub proof fn lemma_running_unit_holds_child(u: Unit)
    requires
        u.wf(),
        u.probe_current(),
    ensures
        u.spec_is_running() ==> u.process.child is Some,
{
}

/// A settled unit is stored `Stopped` exactly when it holds no
/// child handle.  Between operations — during a start, or after an
/// exit was reaped but before the monitor's next tick — the
/// equivalence is suspended.
pub proof fn lemma_stopped_iff_no_child(u: Unit)
    requires
        u.wf(),
        u.settled(),
    ensures
        u.state is Stopped <==> u.process.child is None,
{
}

/// Whether a plan already names a table index.
fn contains_index(plan: &Vec<usize>, x: usize) -> (r: bool)
    ensures
        r == exists|m: int| 0 <= m < plan@.len() && plan@[m] == x,
{
    let mut m: usize = 0;
    while m < plan.len()
        invariant
            0 <= m <= plan@.len(),
            forall|j: int| 0 <= j < m ==> plan@[j] != x,
        decreases plan@.len() - m,
    {
        if plan[m] == x {
            return true;
        }
        m = m + 1;
    }
    false
}

/// Every unit of the table satisfies its invariant and every
/// dependency resolves to a table index.
pub open spec fn units_wf(units: Seq<Unit>) -> bool {
    &&& crate::graph::deps_in_range(units)
    &&& forall|i: int| 0 <= i < units.len() ==> #[trigger] units[i].wf()
}

/// `new_u` is `old_u` brought up by the given spawn outcome: the
/// child handle and timestamp recorded, a fresh process probe bound
/// to the new pid (not yet started), and the stored phase `Running`.
pub open spec fn started_from(old_u: Unit, new_u: Unit, outcome: SpawnOutcome) -> bool {
    &&& old_u.enabled
    &&& !old_u.spec_is_running()
    &&& outcome is Spawned
    &&& new_u == (Unit {
        state: UnitState::Running,
        process: (Process {
            child: Some(outcome->Spawned_pid),
            start_timestamp: Some(outcome->Spawned_now),
            ..old_u.process
        }),
        probe_manager: (ProbeManager {
            process_probe: Some(
                ProcessProbe {
                    name: old_u.name,
                    pid: outcome->Spawned_pid,
                    interval_s: PROCESS_PROBE_INTERVAL_S,
                    state: ProbeState::Undefined,
                    stop_requested: false,
                },
            ),
            ..old_u.probe_manager
        }),
        ..old_u
    })
}

/// `new_u` is `old_u` after a failed start attempt: reverted to
/// `Stopped`, with its probes cancelled and masked off.
pub open spec fn reverted_from(old_u: Unit, new_u: Unit) -> bool {
    new_u == (Unit {
        state: UnitState::Stopped,
        probe_manager: old_u.probe_manager.spec_stopped(),
        ..old_u
    })
}

impl Unit {
    /// Starts the unit at table index `i`: moves it to `Starting`,
    /// recursively ensures every dependency is running (starting the
    /// stopped ones), then takes this unit's own spawn outcome from
    /// `outcomes[i]` and, on success, binds a fresh process probe and
    /// moves to `Running`.  A start of a running unit is downgraded
    /// to a no-op success, `Ok(false)`.  On any failure the unit
    /// reverts to `Stopped` and the originating error is returned;
    /// dependencies already brought up stay up.
    ///
    /// `outcomes[j]` is consumed exactly when unit `j` is spawned, so
    /// the caller that performs the spawns fills exactly the entries
    /// named by `start_plan`.
    pub fn start(units: &mut Vec<Unit>, i: usize, outcomes: &Vec<SpawnOutcome>) -> (r: Result<
        bool,
        String,
    >)
        requires
            units_wf(old(units)@),
            crate::graph::acyclic(old(units)@),
            i < old(units)@.len(),
            outcomes@.len() == old(units)@.len(),
        ensures
            final(units)@.len() == old(units)@.len(),
            units_wf(final(units)@),
            crate::graph::acyclic(final(units)@),
            forall|j: int|
                0 <= j < final(units)@.len() ==> #[trigger] final(units)@[j].same_identity(
                    old(units)@[j],
                ),
            forall|j: int|
                0 <= j < final(units)@.len() ==> #[trigger] final(units)@[j].restart_policy
                    == old(units)@[j].restart_policy,
            forall|j: int|
                0 <= j < final(units)@.len() && old(units)@[j].spec_is_running() ==> final(units)@[j] == old(
                    units,
                )@[j],
            forall|j: int|
                0 <= j < final(units)@.len() && !crate::graph::reachable(old(units)@, i as int, j)
                    ==> final(units)@[j] == old(units)@[j],
            r is Ok ==> forall|j: int|
                0 <= j < final(units)@.len() && j != i && final(units)@[j] != old(units)@[j]
                    ==> started_from(old(units)@[j], final(units)@[j], outcomes@[j]),
            r is Err ==> forall|j: int|
                0 <= j < final(units)@.len() && j != i && final(units)@[j] != old(units)@[j]
                    ==> started_from(old(units)@[j], final(units)@[j], outcomes@[j])
                    || reverted_from(old(units)@[j], final(units)@[j]),
            r is Ok && r->Ok_0 ==> started_from(
                old(units)@[i as int],
                final(units)@[i as int],
                outcomes@[i as int],
            ),
            r is Ok && r->Ok_0 ==> forall|k: int|
                0 <= k < final(units)@[i as int].dependencies@.len() ==> final(units)@[crate::graph::dep(
                    final(units)@,
                    i as int,
                    k,
                )].spec_is_running(),
            r is Ok ==> final(units)@[i as int].spec_is_running(),
            r is Ok && !(r->Ok_0) ==> old(units)@[i as int].spec_is_running(),
            r is Err ==> final(units)@[i as int] == old(units)@[i as int] || reverted_from(
                old(units)@[i as int],
                final(units)@[i as int],
            ),
            !old(units)@[i as int].enabled ==> r is Err && final(units)@ == old(units)@,
            old(units)@[i as int].enabled && old(units)@[i as int].spec_is_running() ==> r is Ok
                && !(r->Ok_0) && final(units)@ == old(units)@,
            old(units)@[i as int].enabled && all_reachable_ready(
                old(units)@,
                i as int,
                outcomes@,
            ) ==> r is Ok,
    {
        let ghost rank = choose|rank: Map<int, nat>|
            crate::graph::valid_rank(old(units)@, rank);
        let r = Self::start_rec(units, i, outcomes, Ghost(rank));
        proof {
            assert forall|j: int|
                0 <= j < old(units)@.len() implies old(units)@[j].dependencies == units@[
                j
            ].dependencies by {
                assert(units@[j].same_identity(old(units)@[j]));
            }
            crate::graph::lemma_same_deps(old(units)@, units@);
        }
        r
    }

    /// Stop the unit at table index `i` if it is running, then start
    /// it again, dependencies included.  Not one atomic transition:
    /// the first error wins and the unit may be left stopped.
    #[verifier::rlimit(50)]
    #[verifier::spinoff_prover]
    pub fn restart(
        units: &mut Vec<Unit>,
        i: usize,
        kill: &KillOutcome,
        outcomes: &Vec<SpawnOutcome>,
    ) -> (r: Result<bool, String>)
        requires
            units_wf(old(units)@),
            crate::graph::acyclic(old(units)@),
            i < old(units)@.len(),
            outcomes@.len() == old(units)@.len(),
        ensures
            final(units)@.len() == old(units)@.len(),
            units_wf(final(units)@),
            crate::graph::acyclic(final(units)@),
            forall|j: int|
                0 <= j < final(units)@.len() ==> #[trigger] final(units)@[j].same_identity(
                    old(units)@[j],
                ),
            forall|j: int|
                0 <= j < final(units)@.len() ==> #[trigger] final(units)@[j].restart_policy
                    == old(units)@[j].restart_policy,
            forall|j: int|
                0 <= j < final(units)@.len() && j != i && old(units)@[j].spec_is_running()
                    ==> final(units)@[j] == old(units)@[j],
            forall|j: int|
                0 <= j < final(units)@.len() && j != i && !crate::graph::reachable(
                    old(units)@,
                    i as int,
                    j,
                ) ==> final(units)@[j] == old(units)@[j],
            r is Ok ==> final(units)@[i as int].state is Running,
            r is Ok ==> final(units)@[i as int].process.child is Some,
            r is Ok ==> outcomes@[i as int] is Spawned && final(units)@[i as int].process.child
                == Some(outcomes@[i as int]->Spawned_pid),
            old(units)@[i as int].enabled && !(old(units)@[i as int].process.child is Some && (
            kill is KillFailed || kill is WaitFailed)) && all_reachable_ready(
                old(units)@,
                i as int,
                outcomes@,
            ) ==> r is Ok,
    {
        let ghost ready = old(units)@[i as int].enabled && !(old(
            units,
        )@[i as int].process.child is Some && (kill is KillFailed || kill is WaitFailed))
            && all_reachable_ready(old(units)@, i as int, outcomes@);
        let running = units[i].is_running();
        if running {
            let stop_result = {
                let unit = &mut units[i];
                unit.stop(kill)
            };
            proof {
                assert forall|j: int|
                    0 <= j < old(units)@.len() implies old(units)@[j].dependencies == units@[
                    j
                ].dependencies by {
                    if j != i as int {
                        assert(units@[j] == old(units)@[j]);
                    }
                }
                crate::graph::lemma_same_deps(old(units)@, units@);
            }
            match stop_result {
                Ok(_) => {},
                Err(error) => {
                    return Err(error);
                },
            }
        }
        let ghost before_start = units@;
        proof {
            assert forall|j: int|
                0 <= j < old(units)@.len() implies old(units)@[j].dependencies == units@[
                j
            ].dependencies by {
                if j != i as int {
                    assert(units@[j] == old(units)@[j]);
                }
            }
            crate::graph::lemma_same_deps(old(units)@, units@);
            assert(!units@[i as int].spec_is_running());
            if ready {
                assert(units@[i as int].enabled);
                assert(all_reachable_ready(units@, i as int, outcomes@)) by {
                    assert forall|j: int|
                        0 <= j < units@.len() && #[trigger] crate::graph::reachable(
                        units@,
                        i as int,
                        j,
                    ) implies units@[j].enabled && outcomes@[j] is Spawned by {
                        assert(crate::graph::reachable(old(units)@, i as int, j));
                        if j != i as int && !old(units)@[j].spec_is_running() {
                            assert(units@[j] == old(units)@[j]);
                        }
                        assert(units@[j].same_identity(old(units)@[j]));
                    }
                }
            }
        }
        let r = Self::start(units, i, outcomes);
        proof {
            assert forall|j: int|
                0 <= j < old(units)@.len() implies #[trigger] units@[j].same_identity(
                old(units)@[j],
            ) by {
                assert(units@[j].same_identity(before_start[j]));
                assert(before_start[j].same_identity(old(units)@[j]));
            }
            assert forall|j: int|
                0 <= j < old(units)@.len() implies #[trigger] units@[j].restart_policy == old(
                units,
            )@[j].restart_policy by {
                assert(units@[j].restart_policy == before_start[j].restart_policy);
                assert(before_start[j].restart_policy == old(units)@[j].restart_policy);
            }
            assert forall|j: int|
                0 <= j < old(units)@.len() implies old(units)@[j].dependencies == units@[
                j
            ].dependencies by {
                assert(units@[j].same_identity(old(units)@[j]));
            }
            crate::graph::lemma_same_deps(old(units)@, units@);
            assert forall|j: int|
                0 <= j < old(units)@.len() && j != i && !crate::graph::reachable(
                    old(units)@,
                    i as int,
                    j,
                ) implies units@[j] == old(units)@[j] by {
                assert(before_start[j] == old(units)@[j]);
                assert(!crate::graph::reachable(before_start, i as int, j));
            }
            if r is Ok {
                assert(!before_start[i as int].spec_is_running());
                if !(r->Ok_0) {
                    assert(before_start[i as int].spec_is_running());
                }
                assert(r->Ok_0);
            }
        }
        match r {
            Ok(_) => Ok(true),
            Err(error) => Err(error),
        }
    }

    /// Computes the order in which units must be spawned to bring
    /// unit `i` up: every stopped transitive dependency first, each
    /// one after its own dependencies, and `i` itself last.  The
    /// caller that performs the spawns walks the plan in order and
    /// hands the outcomes to `start`.  A running unit needs nothing
    /// spawned: its plan is empty.  The plan fails exactly like
    /// `start` fails before anything is spawned: when `i` or a
    /// needed dependency is disabled.
    pub fn start_plan(units: &Vec<Unit>, i: usize) -> (r: Result<Vec<usize>, String>)
        requires
            units_wf(units@),
            crate::graph::acyclic(units@),
            i < units@.len(),
        ensures
            r matches Ok(plan) ==> plan_ok(units@, plan@),
            !units@[i as int].spec_is_running() ==> (r matches Ok(plan) ==> plan@.len() >= 1
                && plan@[plan@.len() - 1] == i),
            units@[i as int].enabled && units@[i as int].spec_is_running() ==> (
            r matches Ok(plan) && plan@.len() == 0),
            !units@[i as int].enabled ==> r is Err,
            units@[i as int].enabled && all_reachable_enabled(units@, i as int) ==> r is Ok,
    {
        if !units[i].is_enabled() {
            let name = units[i].get_name();
            let mut message = String::from_str("Cannot start unit ");
            message.append(name.as_str());
            return Err(message);
        }
        if units[i].is_running() {
            // nothing to spawn: the start will be a no-op
            return Ok(Vec::new());
        }
        let ghost rank = choose|rank: Map<int, nat>| crate::graph::valid_rank(units@, rank);
        let mut plan: Vec<usize> = Vec::new();
        match Self::plan_rec(units, i, &mut plan, Ghost(rank)) {
            Ok(_) => Ok(plan),
            Err(error) => Err(error),
        }
    }

    /// The recursive worker behind `start_plan`.
    fn plan_rec(
        units: &Vec<Unit>,
        i: usize,
        plan: &mut Vec<usize>,
        Ghost(rank): Ghost<Map<int, nat>>,
    ) -> (r: Result<(), String>)
        requires
            units_wf(units@),
            crate::graph::valid_rank(units@, rank),
            i < units@.len(),
            units@[i as int].enabled,
            !units@[i as int].spec_is_running(),
            plan_ok(units@, old(plan)@),
            forall|m: int| 0 <= m < old(plan)@.len() ==> old(plan)@[m] != i,
        ensures
            final(plan)@.len() >= old(plan)@.len(),
            r is Ok ==> final(plan)@.len() > old(plan)@.len(),
            forall|m: int| 0 <= m < old(plan)@.len() ==> final(plan)@[m] == old(plan)@[m],
            plan_ok(units@, final(plan)@),
            forall|m: int|
                old(plan)@.len() <= m < final(plan)@.len() ==> crate::graph::reachable(
                    units@,
                    i as int,
                    #[trigger] final(plan)@[m] as int,
                ),
            r is Ok ==> final(plan)@[final(plan)@.len() - 1] == i,
            r is Err ==> forall|m: int|
                old(plan)@.len() <= m < final(plan)@.len() ==> final(plan)@[m] != i,
            all_reachable_enabled(units@, i as int) ==> r is Ok,
        decreases rank[i as int],
    {
        proof {
            crate::graph::lemma_reachable_self(units@, i as int);
        }
        let deps_len = units[i].dependencies.len();
        let mut k: usize = 0;
        while k < deps_len
            invariant
                units_wf(units@),
                crate::graph::valid_rank(units@, rank),
                i < units@.len(),
                units@[i as int].enabled,
                !units@[i as int].spec_is_running(),
                deps_len == units@[i as int].dependencies@.len(),
                0 <= k <= deps_len,
                plan@.len() >= old(plan)@.len(),
                forall|m: int| 0 <= m < old(plan)@.len() ==> plan@[m] == old(plan)@[m],
                plan_ok(units@, plan@),
                forall|m: int|
                    old(plan)@.len() <= m < plan@.len() ==> crate::graph::reachable(
                        units@,
                        i as int,
                        #[trigger] plan@[m] as int,
                    ),
                forall|m: int| 0 <= m < plan@.len() ==> plan@[m] != i,
                forall|m: int|
                    0 <= m < k ==> units@[#[trigger] crate::graph::dep(
                        units@,
                        i as int,
                        m,
                    )].spec_is_running() || exists|m2: int|
                        0 <= m2 < plan@.len() && plan@[m2] as int == crate::graph::dep(
                            units@,
                            i as int,
                            m,
                        ),
            decreases deps_len - k,
        {
            let d = units[i].dependencies[k];
            proof {
                assert(d as int == crate::graph::dep(units@, i as int, k as int));
                assert(0 <= crate::graph::dep(units@, i as int, k as int) < units@.len());
                assert(rank[d as int] < rank[i as int]);
            }
            if !units[d].is_running() && !contains_index(plan, d) {
                if !units[d].is_enabled() {
                    proof {
                        if all_reachable_enabled(units@, i as int) {
                            assert(crate::graph::dep_edge(units@, i as int, d as int)) by {
                                assert(crate::graph::dep(units@, i as int, k as int)
                                    == d as int);
                            }
                            crate::graph::lemma_edge_reachable(units@, i as int, d as int);
                            assert(units@[d as int].enabled);
                        }
                    }
                    let dep_name = units[d].get_name();
                    let mut message = String::from_str("Cannot start unit ");
                    message.append(dep_name.as_str());
                    return Err(message);
                }
                let ghost plan_before = plan@;
                proof {
                    assert forall|m: int| 0 <= m < plan@.len() implies plan@[m] != d by {}
                    if crate::graph::reachable(units@, d as int, i as int) {
                        crate::graph::lemma_reachable_rank(units@, rank, d as int, i as int);
                    }
                }
                let rec_result = Self::plan_rec(units, d, plan, Ghost(rank));
                proof {
                    if all_reachable_enabled(units@, i as int) {
                        assert(crate::graph::dep_edge(units@, i as int, d as int)) by {
                            assert(crate::graph::dep(units@, i as int, k as int) == d as int);
                        }
                        crate::graph::lemma_edge_reachable(units@, i as int, d as int);
                        assert(all_reachable_enabled(units@, d as int)) by {
                            assert forall|q: int|
                                0 <= q < units@.len() && #[trigger] crate::graph::reachable(
                                units@,
                                d as int,
                                q,
                            ) implies units@[q].enabled by {
                                crate::graph::lemma_reachable_trans(
                                    units@,
                                    i as int,
                                    d as int,
                                    q,
                                );
                            }
                        }
                        assert(rec_result is Ok);
                    }
                    assert(crate::graph::dep_edge(units@, i as int, d as int)) by {
                        assert(crate::graph::dep(units@, i as int, k as int) == d as int);
                    }
                    crate::graph::lemma_edge_reachable(units@, i as int, d as int);
                    assert forall|m: int|
                        old(plan)@.len() <= m < plan@.len() implies crate::graph::reachable(
                        units@,
                        i as int,
                        #[trigger] plan@[m] as int,
                    ) by {
                        if m >= plan_before.len() {
                            assert(crate::graph::reachable(units@, d as int, plan@[m] as int));
                            crate::graph::lemma_reachable_trans(
                                units@,
                                i as int,
                                d as int,
                                plan@[m] as int,
                            );
                        }
                    }
                    assert forall|m: int| 0 <= m < plan@.len() implies plan@[m] != i by {
                        if m >= plan_before.len() {
                            if plan@[m] == i {
                                assert(crate::graph::reachable(units@, d as int, i as int));
                                crate::graph::lemma_reachable_rank(
                                    units@,
                                    rank,
                                    d as int,
                                    i as int,
                                );
                            }
                        }
                    }
                }
                match rec_result {
                    Ok(_) => {},
                    Err(error) => {
                        return Err(error);
                    },
                }
            }
            k = k + 1;
        }
        let ghost plan_pre_push = plan@;
        plan.push(i);
        proof {
            assert forall|m: int, kk: int|
                0 <= m < plan@.len() && 0 <= kk < units@[plan@[m] as int].dependencies@.len()
                    implies units@[#[trigger] crate::graph::dep(
                units@,
                plan@[m] as int,
                kk,
            )].spec_is_running() || exists|m2: int|
                0 <= m2 < m && plan@[m2] as int == crate::graph::dep(
                    units@,
                    plan@[m] as int,
                    kk,
                ) by {
                if m < plan_pre_push.len() {
                    assert(plan@[m] == plan_pre_push[m]);
                    let pm = plan_pre_push[m] as int;
                    if !units@[crate::graph::dep(units@, pm, kk)].spec_is_running() {
                        let m2 = choose|m2: int|
                            0 <= m2 < m && plan_pre_push[m2] as int == crate::graph::dep(
                                units@,
                                pm,
                                kk,
                            );
                        assert(plan@[m2] as int == crate::graph::dep(units@, pm, kk));
                    }
                } else {
                    assert(plan@[m] == i);
                    let dk = crate::graph::dep(units@, i as int, kk);
                    if !units@[dk].spec_is_running() {
                        let m2 = choose|m2: int|
                            0 <= m2 < plan_pre_push.len() && plan_pre_push[m2] as int == dk;
                        assert(plan@[m2] as int == dk);
                    }
                }
            }
            assert(plan_ok(units@, plan@));
        }
        Ok(())
    }

    /// The recursive worker behind `start`; the ghost rank witnesses
    /// that descending into dependencies terminates.
    fn start_rec(
        units: &mut Vec<Unit>,
        i: usize,
        outcomes: &Vec<SpawnOutcome>,
        Ghost(rank): Ghost<Map<int, nat>>,
    ) -> (r: Result<bool, String>)
        requires
            units_wf(old(units)@),
            crate::graph::valid_rank(old(units)@, rank),
            i < old(units)@.len(),
            outcomes@.len() == old(units)@.len(),
        ensures
            final(units)@.len() == old(units)@.len(),
            units_wf(final(units)@),
            crate::graph::valid_rank(final(units)@, rank),
            forall|j: int|
                0 <= j < final(units)@.len() ==> #[trigger] final(units)@[j].same_identity(
                    old(units)@[j],
                ),
            forall|j: int|
                0 <= j < final(units)@.len() ==> #[trigger] final(units)@[j].restart_policy
                    == old(units)@[j].restart_policy,
            forall|j: int|
                0 <= j < final(units)@.len() && old(units)@[j].spec_is_running() ==> final(units)@[j] == old(
                    units,
                )@[j],
            forall|j: int|
                0 <= j < final(units)@.len() && !crate::graph::reachable(old(units)@, i as int, j)
                    ==> final(units)@[j] == old(units)@[j],
            r is Ok ==> forall|j: int|
                0 <= j < final(units)@.len() && j != i && final(units)@[j] != old(units)@[j]
                    ==> started_from(old(units)@[j], final(units)@[j], outcomes@[j]),
            r is Err ==> forall|j: int|
                0 <= j < final(units)@.len() && j != i && final(units)@[j] != old(units)@[j]
                    ==> started_from(old(units)@[j], final(units)@[j], outcomes@[j])
                    || reverted_from(old(units)@[j], final(units)@[j]),
            r is Ok && r->Ok_0 ==> started_from(
                old(units)@[i as int],
                final(units)@[i as int],
                outcomes@[i as int],
            ),
            r is Ok && r->Ok_0 ==> forall|k: int|
                0 <= k < final(units)@[i as int].dependencies@.len() ==> final(units)@[crate::graph::dep(
                    final(units)@,
                    i as int,
                    k,
                )].spec_is_running(),
            r is Ok ==> final(units)@[i as int].spec_is_running(),
            r is Ok && !(r->Ok_0) ==> old(units)@[i as int].spec_is_running(),
            r is Err ==> final(units)@[i as int] == old(units)@[i as int] || reverted_from(
                old(units)@[i as int],
                final(units)@[i as int],
            ),
            !old(units)@[i as int].enabled ==> r is Err && final(units)@ == old(units)@,
            old(units)@[i as int].enabled && old(units)@[i as int].spec_is_running() ==> r is Ok
                && !(r->Ok_0) && final(units)@ == old(units)@,
            old(units)@[i as int].enabled && all_reachable_ready(
                old(units)@,
                i as int,
                outcomes@,
            ) ==> r is Ok,
        decreases rank[i as int],
    {
        let n = units.len();
        let name = units[i].get_name();
        if !units[i].is_enabled() {
            let mut message = String::from_str("Cannot start unit ");
            message.append(name.as_str());
            return Err(message);
        }
        if units[i].is_running() {
            // the precondition failure is downgraded: a running unit
            // is already what a start asks for
            return Ok(false);
        }
        {
            let unit = &mut units[i];
            unit.state = UnitState::Starting;
        }
        let ghost mid0 = units@;
        proof {
            assert(units@ =~= old(units)@.update(
                i as int,
                Unit { state: UnitState::Starting, ..old(units)@[i as int] },
            ));
            crate::graph::lemma_same_deps(old(units)@, units@);
            crate::graph::lemma_reachable_self(old(units)@, i as int);
            assert forall|j: int| 0 <= j < units@.len() implies #[trigger] units@[j].wf() by {
                assert(old(units)@[j].wf());
                if j != i as int {
                    assert(units@[j] == old(units)@[j]);
                }
            }
            assert(units_wf(units@));
        }
        let deps_len = units[i].dependencies.len();
        let mut k: usize = 0;
        while k < deps_len
            invariant
                units_wf(old(units)@),
                units_wf(units@),
                crate::graph::valid_rank(units@, rank),
                crate::graph::valid_rank(old(units)@, rank),
                units@.len() == old(units)@.len(),
                units@.len() == n,
                i < n,
                0 <= k <= deps_len,
                outcomes@.len() == n,
                old(units)@[i as int].enabled,
                !old(units)@[i as int].spec_is_running(),
                name == old(units)@[i as int].name,
                deps_len == units@[i as int].dependencies@.len(),
                units@[i as int] == (Unit {
                    state: UnitState::Starting,
                    ..old(units)@[i as int]
                }),
                forall|j: int|
                    0 <= j < n ==> #[trigger] units@[j].same_identity(old(units)@[j]),
                forall|j: int|
                    0 <= j < n ==> #[trigger] units@[j].restart_policy == old(units)@[
                        j
                    ].restart_policy,
                forall|j: int|
                    0 <= j < n && old(units)@[j].spec_is_running() ==> units@[j] == old(units)@[j],
                forall|j: int|
                    0 <= j < n && !crate::graph::reachable(old(units)@, i as int, j) ==> units@[j]
                        == old(units)@[j],
                forall|j: int|
                    0 <= j < n && j != i && units@[j] != old(units)@[j] ==> started_from(
                        old(units)@[j],
                        units@[j],
                        outcomes@[j],
                    ),
                forall|m: int|
                    0 <= m < k ==> units@[#[trigger] crate::graph::dep(
                        units@,
                        i as int,
                        m,
                    )].spec_is_running(),
            decreases deps_len - k,
        {
            let d = units[i].dependencies[k];
            proof {
                assert(d as int == crate::graph::dep(units@, i as int, k as int));
                assert(0 <= crate::graph::dep(units@, i as int, k as int) < n);
                assert(rank[d as int] < rank[i as int]);
            }
            if !units[d].is_running() {
                let ghost mid = units@;
                let dep_result = Self::start_rec(units, d, outcomes, Ghost(rank));
                proof {
                    if dep_result is Ok {
                        assert(!mid[d as int].spec_is_running());
                        if !(dep_result->Ok_0) {
                            assert(mid[d as int].spec_is_running());
                        }
                        assert(dep_result->Ok_0);
                    }
                    crate::graph::lemma_same_deps(old(units)@, mid);
                    crate::graph::lemma_same_deps(old(units)@, units@);
                    assert(crate::graph::dep_edge(old(units)@, i as int, d as int)) by {
                        assert(crate::graph::dep(old(units)@, i as int, k as int) == d as int);
                    }
                    crate::graph::lemma_edge_reachable(old(units)@, i as int, d as int);
                    if crate::graph::reachable(mid, d as int, i as int) {
                        crate::graph::lemma_reachable_rank(mid, rank, d as int, i as int);
                        assert(rank[i as int] <= rank[d as int]);
                    }
                    assert(units@[i as int] == mid[i as int]);
                    assert forall|j: int|
                        0 <= j < n && !crate::graph::reachable(
                            old(units)@,
                            i as int,
                            j,
                        ) implies units@[j] == old(units)@[j] by {
                        if crate::graph::reachable(mid, d as int, j) {
                            assert(crate::graph::reachable(old(units)@, d as int, j));
                            crate::graph::lemma_reachable_trans(
                                old(units)@,
                                i as int,
                                d as int,
                                j,
                            );
                        }
                        assert(mid[j] == old(units)@[j]);
                    }
                    assert forall|j: int|
                        0 <= j < n && j != i && units@[j] != old(units)@[j] implies started_from(
                        old(units)@[j],
                        units@[j],
                        outcomes@[j],
                    ) || reverted_from(old(units)@[j], units@[j]) by {
                        if mid[j] != old(units)@[j] {
                            assert(started_from(old(units)@[j], mid[j], outcomes@[j]));
                            assert(mid[j].spec_is_running());
                            assert(units@[j] == mid[j]);
                        }
                    }
                    if dep_result is Ok {
                        assert forall|j: int|
                            0 <= j < n && j != i && units@[j] != old(units)@[j] implies started_from(
                            old(units)@[j],
                            units@[j],
                            outcomes@[j],
                        ) by {
                            if mid[j] != old(units)@[j] {
                                assert(started_from(old(units)@[j], mid[j], outcomes@[j]));
                                assert(mid[j].spec_is_running());
                                assert(units@[j] == mid[j]);
                            }
                        }
                    }
                    if old(units)@[i as int].enabled && !old(units)@[i as int].spec_is_running()
                        && all_reachable_ready(old(units)@, i as int, outcomes@) {
                        assert(crate::graph::reachable(old(units)@, i as int, d as int));
                        assert(old(units)@[d as int].enabled && outcomes@[d as int] is Spawned);
                        assert(mid[d as int].enabled) by {
                            assert(mid[d as int].same_identity(old(units)@[d as int]));
                        }
                        assert(all_reachable_ready(mid, d as int, outcomes@)) by {
                            assert forall|j: int|
                                0 <= j < mid.len() && #[trigger] crate::graph::reachable(
                                mid,
                                d as int,
                                j,
                            ) implies mid[j].enabled && outcomes@[j] is Spawned by {
                                assert(crate::graph::reachable(old(units)@, d as int, j));
                                crate::graph::lemma_reachable_trans(
                                    old(units)@,
                                    i as int,
                                    d as int,
                                    j,
                                );
                                assert(old(units)@[j].enabled && outcomes@[j] is Spawned);
                                assert(mid[j].same_identity(old(units)@[j]));
                            }
                        }
                        assert(dep_result is Ok);
                    }
                    assert forall|m: int|
                        0 <= m < k implies units@[#[trigger] crate::graph::dep(
                        units@,
                        i as int,
                        m,
                    )].spec_is_running() by {
                        let dm = crate::graph::dep(mid, i as int, m);
                        assert(crate::graph::dep(units@, i as int, m) == dm);
                        assert(mid[dm].spec_is_running());
                        assert(units@[dm] == mid[dm]);
                    }
                }
                match dep_result {
                    Ok(_) => {},
                    Err(error) => {
                        {
                            let unit = &mut units[i];
                            unit.probe_manager.stop_probes();
                            unit.state = UnitState::Stopped;
                        }
                        proof {
                            crate::graph::lemma_same_deps(old(units)@, units@);
                            crate::graph::lemma_reachable_self(old(units)@, i as int);
                            let old_u = old(units)@[i as int];
                            assert(old_u.wf());
                            assert(old_u.process.child is None);
                            assert(old_u.process.start_timestamp is None);
                            assert(units@[i as int].process == old_u.process);
                            assert(units@[i as int].probe_manager
                                == old_u.probe_manager.spec_stopped());
                            assert(reverted_from(old_u, units@[i as int]));
                            assert(units@[i as int].wf());
                            assert forall|j: int|
                                0 <= j < units@.len() implies #[trigger] units@[j].wf() by {}
                            assert(units_wf(units@));
                        }
                        let mut message = String::from_str("Unit ");
                        message.append(name.as_str());
                        message.append(" failed to start dependencies: ");
                        message.append(error.as_str());
                        return Err(message);
                    },
                }
            }
            proof {
                assert(units@[crate::graph::dep(units@, i as int, k as int)].spec_is_running());
            }
            k = k + 1;
        }
        let outcome = &outcomes[i];
        let ghost before_spawn = units@;
        let start_result = {
            let unit = &mut units[i];
            unit.process.start(outcome)
        };
        match start_result {
            Ok(_) => {
                {
                    let unit = &mut units[i];
                    unit.init_process_probe();
                    unit.state = UnitState::Running;
                }
                proof {
                    crate::graph::lemma_same_deps(old(units)@, units@);
                    assert(started_from(
                        old(units)@[i as int],
                        units@[i as int],
                        outcomes@[i as int],
                    ));
                    assert forall|m: int|
                        0 <= m < deps_len implies units@[#[trigger] crate::graph::dep(
                        units@,
                        i as int,
                        m,
                    )].spec_is_running() by {
                        let dm = crate::graph::dep(before_spawn, i as int, m);
                        assert(crate::graph::dep(units@, i as int, m) == dm);
                        if dm != i {
                            assert(units@[dm] == before_spawn[dm]);
                        }
                    }
                }
                Ok(true)
            },
            Err(error) => {
                {
                    let unit = &mut units[i];
                    unit.probe_manager.stop_probes();
                    unit.state = UnitState::Stopped;
                }
                proof {
                    crate::graph::lemma_same_deps(old(units)@, units@);
                    let old_u = old(units)@[i as int];
                    assert(old_u.wf());
                    assert(old_u.process.child is None);
                    assert(old_u.process.start_timestamp is None);
                    assert(units@[i as int].process == old_u.process);
                    assert(units@[i as int].probe_manager == old_u.probe_manager.spec_stopped());
                    assert(reverted_from(old_u, units@[i as int]));
                    assert(units@[i as int].wf());
                    assert forall|j: int|
                        0 <= j < units@.len() implies #[trigger] units@[j].wf() by {}
                    assert(units_wf(units@));
                }
                let mut message = String::from_str("Unit ");
                message.append(name.as_str());
                message.append(" failed to start: ");
                message.append(error.as_str());
                Err(message)
            },
        }
    }
}

} // verus!
