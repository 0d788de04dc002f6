use unitman::host::{current_gid, current_uid};
use unitman::process::{KillOutcome, SpawnOutcome};
use unitman::restart_policy::RestartPolicy;
use unitman::unit::Unit;
use unitman::unit_state::UnitState;

fn build_unit() -> Unit {
    Unit::new(
        String::from("test"),
        String::from("sleep"),
        vec![String::from("1")],
        RestartPolicy::Never,
        current_uid(),
        current_gid(),
        true,
    )
}

fn build_unitrefs() -> Vec<Unit> {
    let unit1 = Unit::new(
        String::from("test1"),
        String::from("sleep"),
        vec![String::from("1")],
        RestartPolicy::Always,
        current_uid(),
        current_gid(),
        true,
    );
    let mut unit2 = Unit::new(
        String::from("test2"),
        String::from("sleep"),
        vec![String::from("1")],
        RestartPolicy::Never,
        current_uid(),
        current_gid(),
        true,
    );
    unit2.add_dependency(0);
    vec![unit1, unit2]
}

fn all_spawned(n: usize) -> Vec<SpawnOutcome> {
    let mut outcomes = Vec::new();
    for k in 0..n {
        outcomes.push(SpawnOutcome::Spawned { pid: 1000 + k as u32, now: 50 });
    }
    outcomes
}

#[test]
fn new_returns_new_unit() {
    let unit = build_unit();
    assert_eq!(unit.name, "test");
    assert_eq!(unit.process.get_executable(), "sleep");
    assert_eq!(unit.process.get_arguments(), vec!["1"]);
    assert_eq!(unit.dependencies.is_empty(), true);
    assert_eq!(unit.restart_policy, RestartPolicy::Never);
    assert_eq!(unit.enabled, true);
}

#[test]
fn new_returns_correct_name() {
    let unit = build_unit();
    assert_eq!(unit.get_name(), "test");
}

#[test]
fn pid_returns_not_none() {
    let mut units = vec![build_unit()];
    Unit::start(&mut units, 0, &all_spawned(1)).unwrap();
    assert_ne!(units[0].get_pid(), None);
}

#[test]
fn is_running_returns_correct_values_at_init() {
    let unit = build_unit();
    assert_eq!(unit.is_running(), false);
}

#[test]
fn is_running_returns_correct_values_after_start() {
    let mut units = vec![build_unit()];
    assert_eq!(units[0].is_running(), false);
    Unit::start(&mut units, 0, &all_spawned(1)).unwrap();
    assert_eq!(units[0].is_running(), true);
}

#[test]
fn is_running_returns_correct_values_after_stop() {
    let mut units = vec![build_unit()];
    assert_eq!(units[0].is_running(), false);
    Unit::start(&mut units, 0, &all_spawned(1)).unwrap();
    assert_eq!(units[0].is_running(), true);
    units[0].stop(&KillOutcome::Killed).unwrap();
    assert_eq!(units[0].is_running(), false);
}

#[test]
fn cannot_start_if_already_started() {
    // the precondition failure is downgraded to a no-op success
    let mut units = vec![build_unit()];
    Unit::start(&mut units, 0, &all_spawned(1)).unwrap();
    let pid = units[0].get_pid();
    assert_eq!(Unit::start(&mut units, 0, &all_spawned(1)).unwrap(), false);
    assert_eq!(units[0].get_pid(), pid);
    assert_eq!(units[0].is_running(), true);
    assert_eq!(units[0].state, UnitState::Running);
}

#[test]
fn cannot_stop_if_already_stopped() {
    let mut units = vec![build_unit()];
    assert_eq!(units[0].is_running(), false);
    assert_eq!(units[0].stop(&KillOutcome::Killed).unwrap(), false);
}

#[test]
fn can_start_when_dependent_unit_is_running() {
    let mut units = build_unitrefs();
    Unit::start(&mut units, 0, &all_spawned(2)).unwrap();
    assert_eq!(units[0].is_running(), true);
    assert_eq!(units[1].can_start(), true);
}

#[test]
fn can_start_but_start_dependencies_too() {
    let mut units = build_unitrefs();
    assert_eq!(units[0].is_running(), false);
    assert_eq!(units[1].is_running(), false);
    // unit 1 depends on unit 0, so starting it starts unit 0 too
    Unit::start(&mut units, 1, &all_spawned(2)).unwrap();
    assert_eq!(units[0].is_running(), true);
    assert_eq!(units[1].is_running(), true);
}

#[test]
fn can_stop_when_dependent_unit_is_not_running() {
    let mut units = build_unitrefs();
    Unit::start(&mut units, 0, &all_spawned(2)).unwrap();
    Unit::start(&mut units, 1, &all_spawned(2)).unwrap();
    units[0].stop(&KillOutcome::Killed).unwrap();
    assert_eq!(units[0].is_running(), false);
    assert_eq!(units[1].can_stop(), true);
}

#[test]
fn cannot_stop_when_dependent_unit_is_running() {
    let mut units = build_unitrefs();
    Unit::start(&mut units, 0, &all_spawned(2)).unwrap();
    assert_eq!(units[0].is_running(), true);
    assert_eq!(units[1].can_stop(), false);
}

#[test]
fn start_records_spawn_outcome_and_state() {
    let mut units = vec![build_unit()];
    Unit::start(&mut units, 0, &all_spawned(1)).unwrap();
    assert_eq!(units[0].get_pid(), Some(1000));
    assert_eq!(units[0].state, UnitState::Running);
    assert_eq!(units[0].get_uptime(80), Some(30));
}

#[test]
fn failed_spawn_reverts_to_stopped() {
    let mut units = vec![build_unit()];
    let outcomes = vec![SpawnOutcome::Failed { error: String::from("no such file") }];
    let result = Unit::start(&mut units, 0, &outcomes);
    assert!(result.is_err());
    assert_eq!(units[0].state, UnitState::Stopped);
    assert_eq!(units[0].is_running(), false);
}

#[test]
fn failed_dependency_start_propagates() {
    let mut units = build_unitrefs();
    let outcomes = vec![
        SpawnOutcome::Failed { error: String::from("no such file") },
        SpawnOutcome::Spawned { pid: 7, now: 0 },
    ];
    let result = Unit::start(&mut units, 1, &outcomes);
    assert!(result.is_err());
    assert_eq!(units[0].is_running(), false);
    assert_eq!(units[1].state, UnitState::Stopped);
}

#[test]
fn disabled_unit_cannot_start() {
    let mut unit = build_unit();
    unit.enabled = false;
    let mut units = vec![unit];
    let result = Unit::start(&mut units, 0, &all_spawned(1));
    assert!(result.is_err());
    assert_eq!(units[0].is_running(), false);
}

#[test]
fn start_plan_orders_dependencies_first() {
    let mut units = build_unitrefs();
    let plan = Unit::start_plan(&units, 1).unwrap();
    assert_eq!(plan, vec![0, 1]);
    Unit::start(&mut units, 0, &all_spawned(2)).unwrap();
    let plan2 = Unit::start_plan(&units, 1).unwrap();
    assert_eq!(plan2, vec![1]);
    // a running unit needs nothing spawned
    Unit::start(&mut units, 1, &all_spawned(2)).unwrap();
    let plan3 = Unit::start_plan(&units, 1).unwrap();
    assert_eq!(plan3, Vec::<usize>::new());
}

#[test]
fn restart_gives_a_fresh_pid() {
    let mut units = vec![build_unit()];
    Unit::start(&mut units, 0, &all_spawned(1)).unwrap();
    assert_eq!(units[0].get_pid(), Some(1000));
    let respawn = vec![SpawnOutcome::Spawned { pid: 2000, now: 90 }];
    Unit::restart(&mut units, 0, &KillOutcome::Killed, &respawn).unwrap();
    assert_eq!(units[0].get_pid(), Some(2000));
    assert_eq!(units[0].state, UnitState::Running);
}

#[test]
fn derived_view_follows_probe_state() {
    let mut units = vec![build_unit()];
    Unit::start(&mut units, 0, &all_spawned(1)).unwrap();
    // probes not yet started: stored Running reads as degraded
    assert_eq!(units[0].get_state(), UnitState::RunningButDegraded);
    units[0].start_probes();
    units[0].probe_manager.process_probe.as_mut().unwrap().probe(true);
    assert_eq!(units[0].get_state(), UnitState::RunningAndHealthy);
    units[0].probe_manager.process_probe.as_mut().unwrap().probe(false);
    assert_eq!(units[0].get_state(), UnitState::RunningButDegraded);
}

#[test]
fn stop_cancels_the_probes_before_the_child() {
    let mut units = vec![build_unit()];
    Unit::start(&mut units, 0, &all_spawned(1)).unwrap();
    units[0].start_probes();
    assert_eq!(units[0].probe_manager.is_running, true);
    units[0].stop(&KillOutcome::Killed).unwrap();
    // the probe saw its cancellation flag and the shared flag fell
    assert_eq!(units[0].probe_manager.is_running, false);
    assert_eq!(
        units[0].probe_manager.process_probe.as_ref().unwrap().stop_requested,
        true
    );
    assert_eq!(units[0].state, UnitState::Stopped);
}

#[test]
fn failed_kill_restores_the_prior_state() {
    let mut units = vec![build_unit()];
    Unit::start(&mut units, 0, &all_spawned(1)).unwrap();
    units[0].start_probes();
    let refused = KillOutcome::KillFailed { error: String::from("operation not permitted") };
    let result = units[0].stop(&refused);
    assert!(result.is_err());
    assert_eq!(units[0].state, UnitState::Running);
    assert_eq!(units[0].is_running(), true);
    assert_eq!(units[0].probe_manager.is_running, true);
}
