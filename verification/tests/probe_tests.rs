use unitman::liveness_probe::{LivenessOutcome, LivenessProbe};
use unitman::probe_manager::ProbeManager;
use unitman::probe_state::ProbeState;
use unitman::process_probe::ProcessProbe;

fn liveness(timeout_s: i32, interval_s: i32) -> LivenessProbe {
    LivenessProbe::new(
        String::from("u"),
        String::from("true"),
        vec![],
        timeout_s,
        interval_s,
    )
}

#[test]
fn process_probe_publishes_what_the_lookup_said() {
    let mut probe = ProcessProbe::new(String::from("u"), 1, 5);
    assert_eq!(probe.get_state(), ProbeState::Undefined);
    probe.probe(true);
    assert_eq!(probe.get_state(), ProbeState::Alive);
    probe.probe(false);
    assert_eq!(probe.get_state(), ProbeState::Dead);
}

#[test]
fn process_probe_poll_finds_the_init_process() {
    // pid 1 exists on any running system; a huge pid does not
    let mut probe = ProcessProbe::new(String::from("u"), 1, 5);
    probe.poll_once();
    assert_eq!(probe.get_state(), ProbeState::Alive);
    let mut gone = ProcessProbe::new(String::from("u"), 4_000_000, 5);
    gone.poll_once();
    assert_eq!(gone.get_state(), ProbeState::Dead);
}

#[test]
fn probe_interval_zero_means_one_cycle() {
    let probe = ProcessProbe::new(String::from("u"), 1, 0);
    assert_eq!(probe.continue_after_cycle(), false);
    let recurring = ProcessProbe::new(String::from("u"), 1, 5);
    assert_eq!(recurring.continue_after_cycle(), true);
    let once = liveness(10, 0);
    assert_eq!(once.continue_after_cycle(), false);
}

#[test]
fn probe_cancellation_is_cooperative() {
    let mut probe = ProcessProbe::new(String::from("u"), 1, 5);
    assert_eq!(probe.should_poll(), true);
    probe.request_stop();
    assert_eq!(probe.should_poll(), false);
    probe.finish_run();
    assert_eq!(probe.get_state(), ProbeState::Dead);
    assert_eq!(probe.stop_requested(), false);
}

#[test]
fn liveness_timeout_zero_means_no_time_limit() {
    let unbounded = liveness(0, 5);
    assert_eq!(unbounded.effective_time_limit(), None);
    let bounded = liveness(10, 5);
    assert_eq!(bounded.effective_time_limit(), Some(10));
}

#[test]
fn liveness_outcomes_map_to_probe_states() {
    let mut probe = liveness(10, 5);
    probe.probe(LivenessOutcome::Completed { success: true });
    assert_eq!(probe.get_state(), ProbeState::Alive);
    probe.probe(LivenessOutcome::Completed { success: false });
    assert_eq!(probe.get_state(), ProbeState::Dead);
    // a fired time limit is a failure
    probe.probe(LivenessOutcome::TimedOut);
    assert_eq!(probe.get_state(), ProbeState::Dead);
    probe.probe(LivenessOutcome::SpawnFailed);
    assert_eq!(probe.get_state(), ProbeState::Undefined);
    probe.probe(LivenessOutcome::WaitFailed);
    assert_eq!(probe.get_state(), ProbeState::Undefined);
}

#[test]
fn probe_manager_masks_reported_states() {
    let mut manager = ProbeManager::new(String::from("u"));
    let mut inner = ProcessProbe::new(String::from("u"), 1, 5);
    inner.probe(true);
    manager.set_process_probe(inner);
    // probes not started: the stale Alive is not reported
    assert_eq!(manager.get_process_probe_state(), ProbeState::Undefined);
    manager.start_probes();
    assert_eq!(manager.get_process_probe_state(), ProbeState::Alive);
    manager.stop_probes();
    assert_eq!(manager.get_process_probe_state(), ProbeState::Undefined);
    assert_eq!(manager.process_probe.as_ref().unwrap().stop_requested, true);
}

#[test]
fn probe_manager_without_probes_reports_undefined() {
    let mut manager = ProbeManager::new(String::from("u"));
    manager.start_probes();
    assert_eq!(manager.get_process_probe_state(), ProbeState::Undefined);
    assert_eq!(manager.get_liveness_probe_state(), ProbeState::Undefined);
}
