use unitman::host::{current_gid, current_uid};
use unitman::process::{ExitObservation, KillOutcome, SpawnOutcome};
use unitman::restart_policy::RestartPolicy;
use unitman::unit::Unit;
use unitman::unit_manager::UnitManager;
use unitman::unit_state::UnitState;

fn build_unitrefs() -> (Unit, Unit) {
    let unit1 = Unit::new(
        String::from("test1"),
        String::from("sleep"),
        vec![String::from("1")],
        RestartPolicy::Always,
        current_uid(),
        current_gid(),
        true,
    );
    let mut unit2 = Unit::new(
        String::from("test2"),
        String::from("sleep"),
        vec![String::from("1")],
        RestartPolicy::Never,
        current_uid(),
        current_gid(),
        true,
    );
    unit2.add_dependency(0);
    (unit1, unit2)
}

fn two_unit_manager() -> UnitManager {
    let mut manager = UnitManager::new();
    let (unit1, unit2) = build_unitrefs();
    manager.add_unit(unit1);
    manager.add_unit(unit2);
    manager
}

fn all_spawned(n: usize) -> Vec<SpawnOutcome> {
    let mut outcomes = Vec::new();
    for k in 0..n {
        outcomes.push(SpawnOutcome::Spawned { pid: 1000 + k as u32, now: 50 });
    }
    outcomes
}

fn all_killed(n: usize) -> Vec<KillOutcome> {
    let mut kills = Vec::new();
    for _ in 0..n {
        kills.push(KillOutcome::Killed);
    }
    kills
}

fn all_still_running(n: usize) -> Vec<ExitObservation> {
    let mut observations = Vec::new();
    for _ in 0..n {
        observations.push(ExitObservation::StillRunning);
    }
    observations
}

#[test]
fn new_manager_should_work() {
    let manager = UnitManager::new();
    assert_eq!(manager.units.len(), 0);
}

#[test]
fn add_unit_changes_should_work() {
    let mut manager = UnitManager::new();
    assert_eq!(manager.units.len(), 0);
    let (unit1, unit2) = build_unitrefs();
    manager.add_unit(unit1);
    assert_eq!(manager.units.len(), 1);
    manager.add_unit(unit2);
    assert_eq!(manager.units.len(), 2);
}

#[test]
fn stop_request_should_work() {
    let mut manager = UnitManager::new();
    assert_eq!(manager.stop_requested, false);
    manager.request_stop();
    assert_eq!(manager.stop_requested, true);
}

#[test]
fn reset_stop_request_should_work() {
    let mut manager = UnitManager::new();
    assert_eq!(manager.stop_requested, false);
    manager.request_stop();
    assert_eq!(manager.stop_requested, true);
    manager.reset_stop_request();
    assert_eq!(manager.stop_requested, false);
}

#[test]
fn start_all_should_work() {
    let mut manager = two_unit_manager();
    assert_eq!(manager.units.len(), 2);
    manager.start_units(&all_spawned(2));
    assert_eq!(manager.units[0].is_running(), true);
    assert_eq!(manager.units[1].is_running(), true);
}

#[test]
fn stop_all_should_work() {
    let mut manager = two_unit_manager();
    assert_eq!(manager.units.len(), 2);
    manager.start_units(&all_spawned(2));
    assert_eq!(manager.units[0].is_running(), true);
    assert_eq!(manager.units[1].is_running(), true);
    manager.stop_units(&all_killed(2));
    assert_eq!(manager.units[0].is_running(), false);
    assert_eq!(manager.units[1].is_running(), false);
}

#[test]
fn all_units_running_should_work() {
    let mut manager = two_unit_manager();
    assert_eq!(manager.all_units_running(), false);
    manager.start_units(&all_spawned(2));
    assert_eq!(manager.all_units_running(), true);
}

#[test]
fn all_units_stopped_should_work() {
    let mut manager = two_unit_manager();
    manager.start_units(&all_spawned(2));
    assert_eq!(manager.all_units_running(), true);
    manager.stop_units(&all_killed(2));
    assert_eq!(manager.all_units_stopped(), true);
}

#[test]
fn start_unit_is_a_no_op_on_a_running_unit() {
    let mut manager = two_unit_manager();
    manager.start_units(&all_spawned(2));
    let pid_before = manager.units[0].get_pid();
    // starting a running unit succeeds without touching it
    let result = manager.start_unit(String::from("test1"), &all_spawned(2));
    assert_eq!(result.unwrap(), true);
    assert_eq!(manager.units[0].get_pid(), pid_before);
    assert_eq!(manager.units[0].get_restart_policy(), RestartPolicy::Always);
}

#[test]
fn stop_unit_is_a_no_op_on_a_stopped_unit() {
    let mut manager = two_unit_manager();
    let result = manager.stop_unit(String::from("test1"), false, &KillOutcome::Killed);
    assert_eq!(result.unwrap(), true);
    assert_eq!(manager.units[0].is_running(), false);
    assert_eq!(manager.units[0].get_restart_policy(), RestartPolicy::Always);
}

#[test]
fn start_unit_demotes_the_restart_policy() {
    let mut manager = two_unit_manager();
    let result = manager.start_unit(String::from("test1"), &all_spawned(2));
    assert_eq!(result.unwrap(), true);
    assert_eq!(manager.units[0].is_running(), true);
    assert_eq!(manager.units[0].get_restart_policy(), RestartPolicy::DisabledTemporarily);
    assert_eq!(manager.units[0].probe_manager.is_running, true);
}

#[test]
fn stop_unit_demotes_the_restart_policy() {
    let mut manager = two_unit_manager();
    manager.start_units(&all_spawned(2));
    let result = manager.stop_unit(String::from("test1"), false, &KillOutcome::Killed);
    assert_eq!(result.unwrap(), true);
    assert_eq!(manager.units[0].is_running(), false);
    assert_eq!(manager.units[0].state, UnitState::Stopped);
    assert_eq!(manager.units[0].get_restart_policy(), RestartPolicy::DisabledTemporarily);
}

#[test]
fn stop_unit_keeps_the_policy_when_restarting() {
    let mut manager = two_unit_manager();
    manager.start_units(&all_spawned(2));
    let result = manager.stop_unit(String::from("test1"), true, &KillOutcome::Killed);
    assert_eq!(result.unwrap(), true);
    assert_eq!(manager.units[0].get_restart_policy(), RestartPolicy::Always);
}

#[test]
fn unknown_unit_is_reported() {
    let mut manager = two_unit_manager();
    let started = manager.start_unit(String::from("zzz"), &all_spawned(2));
    assert!(started.is_err());
    assert!(started.unwrap_err().contains("zzz"));
    let stopped = manager.stop_unit(String::from("zzz"), false, &KillOutcome::Killed);
    assert!(stopped.is_err());
    assert!(stopped.unwrap_err().contains("zzz"));
}

#[test]
fn monitor_restarts_a_dead_unit_with_policy_always() {
    let mut manager = two_unit_manager();
    manager.start_units(&all_spawned(2));
    manager.start_units_probes();
    let old_pid = manager.units[0].get_pid();
    // the child of test1 exits; test2's child lives on
    let observations = vec![
        ExitObservation::Exited { code: 1 },
        ExitObservation::StillRunning,
    ];
    let respawn = vec![
        SpawnOutcome::Spawned { pid: 4000, now: 60 },
        SpawnOutcome::Spawned { pid: 4001, now: 60 },
    ];
    manager.monitor(&observations, &all_killed(2), &respawn);
    assert_eq!(manager.units[0].is_running(), true);
    assert_eq!(manager.units[0].get_pid(), Some(4000));
    assert_ne!(manager.units[0].get_pid(), old_pid);
}

#[test]
fn monitor_leaves_a_dead_unit_stopped_under_policy_never() {
    let mut manager = two_unit_manager();
    manager.start_units(&all_spawned(2));
    let observations = vec![
        ExitObservation::StillRunning,
        ExitObservation::Exited { code: 0 },
    ];
    manager.monitor(&observations, &all_killed(2), &all_spawned(2));
    assert_eq!(manager.units[1].is_running(), false);
    assert_eq!(manager.units[1].state, UnitState::Stopped);
    assert_eq!(manager.units[0].is_running(), true);
}

#[test]
fn tick_after_request_stop_exits_and_shutdown_stops_every_unit() {
    let mut manager = two_unit_manager();
    manager.start_units(&all_spawned(2));
    assert_eq!(manager.all_units_running(), true);
    // one ordinary tick runs
    assert_eq!(manager.run_tick(&all_still_running(2), &all_killed(2), &all_spawned(2)), true);
    manager.request_stop();
    // the next tick refuses to run: the loop exits
    assert_eq!(manager.run_tick(&all_still_running(2), &all_killed(2), &all_spawned(2)), false);
    assert_eq!(manager.all_units_running(), true);
    manager.run_shutdown(&all_killed(2));
    assert_eq!(manager.all_units_stopped(), true);
    assert_eq!(manager.stop_requested, false);
}

#[test]
fn a_start_during_shutdown_is_refused() {
    let mut manager = two_unit_manager();
    manager.request_stop();
    let result = manager.start_unit(String::from("test1"), &all_spawned(2));
    assert!(result.is_err());
    assert!(result.unwrap_err().contains("shutting down"));
    assert_eq!(manager.units[0].is_running(), false);
    manager.reset_stop_request();
    assert_eq!(manager.start_unit(String::from("test1"), &all_spawned(2)).unwrap(), true);
}

#[test]
fn monitor_leaves_a_still_running_unit_untouched() {
    let mut manager = two_unit_manager();
    manager.start_units(&all_spawned(2));
    manager.start_units_probes();
    // test2's liveness is irrelevant: a running child means no action
    let before_pid = manager.units[1].get_pid();
    manager.monitor(&all_still_running(2), &all_killed(2), &all_spawned(2));
    assert_eq!(manager.units[1].get_pid(), before_pid);
    assert_eq!(manager.units[1].is_running(), true);
}

#[test]
fn duplicate_names_resolve_to_the_first_unit() {
    let mut manager = UnitManager::new();
    let (unit1, _) = build_unitrefs();
    let mut twin = Unit::new(
        String::from("test1"),
        String::from("sleep"),
        vec![String::from("2")],
        RestartPolicy::Never,
        current_uid(),
        current_gid(),
        true,
    );
    twin.add_dependency(0);
    manager.add_unit(unit1);
    manager.add_unit(twin);
    manager.start_unit(String::from("test1"), &all_spawned(2)).unwrap();
    assert_eq!(manager.units[0].is_running(), true);
    assert_eq!(manager.units[1].is_running(), false);
}

#[test]
fn cold_start_reads_healthy_once_probes_report() {
    let mut manager = two_unit_manager();
    manager.start_units(&all_spawned(2));
    manager.start_units_probes();
    for j in 0..2 {
        manager.units[j]
            .probe_manager
            .process_probe
            .as_mut()
            .unwrap()
            .probe(true);
    }
    assert_eq!(manager.units[0].get_state(), UnitState::RunningAndHealthy);
    assert_eq!(manager.units[1].get_state(), UnitState::RunningAndHealthy);
}
