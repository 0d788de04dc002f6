//! Snapshots of units for the control plane.

use vstd::prelude::*;

use crate::rpc::messages::UnitInfo;
use crate::unit::Unit;
use crate::unit_state::spec_derived_view;

verus! {

/// The snapshot `convert_unit_to_proto` takes of a unit, measured
/// against the clock reading `now_s`.
pub open spec fn spec_info_of(r: UnitInfo, u: Unit, now_s: u64) -> bool {
    &&& r.name == u.name
    &&& r.executable == u.process.executable
    &&& r.arguments@ == u.process.arguments@
    &&& r.restart_policy == u.restart_policy.spec_code()
    &&& r.uid == u.process.uid as i32
    &&& r.gid == u.process.gid as i32
    &&& r.enabled == u.enabled
    &&& r.process_probe_state == u.probe_manager.spec_process_probe_state().spec_code()
    &&& r.liveness_probe_state == u.probe_manager.spec_liveness_probe_state().spec_code()
    &&& r.state == spec_derived_view(
        u.state,
        u.probe_manager.spec_process_probe_state(),
    ).spec_code()
    &&& r.pid == match u.process.child {
        Some(pid) => pid as i32,
        None => -1i32,
    }
    &&& r.uptime == match u.process.start_timestamp {
        Some(t) => if now_s >= t {
            (now_s - t) as u64
        } else {
            0u64
        },
        None => 0u64,
    }
}

/// One unit's snapshot: name, launch descriptor, policy, probe
/// states, the derived lifecycle view, the pid (`-1` when no child
/// is held) and the uptime in seconds (`0` when no child is held).
pub fn convert_unit_to_proto(unit: &Unit, now_s: u64) -> (r: UnitInfo)
    ensures
        spec_info_of(r, *unit, now_s),
{
    let pid: i32 = match unit.get_pid() {
        Some(pid) => pid as i32,
        None => -1,
    };
    let uptime: u64 = match unit.get_uptime(now_s) {
        Some(seconds) => seconds,
        None => 0,
    };
    let state = unit.get_state();
    let process_probe_state = unit.get_process_probe_state();
    let liveness_probe_state = unit.get_liveness_probe_state();
    let policy = unit.get_restart_policy();
    UnitInfo {
        name: unit.get_name(),
        executable: unit.get_executable(),
        arguments: unit.get_arguments(),
        restart_policy: policy.code(),
        uid: unit.get_uid() as i32,
        gid: unit.get_gid() as i32,
        enabled: unit.is_enabled(),
        process_probe_state: process_probe_state.code(),
        liveness_probe_state: liveness_probe_state.code(),
        state: state.code(),
        pid,
        uptime,
    }
}

/// Snapshots every unit of the table, in table order.
pub fn convert_units_to_proto(units: &Vec<Unit>, now_s: u64) -> (r: Vec<UnitInfo>)
    ensures
        r@.len() == units@.len(),
        forall|k: int|
            0 <= k < units@.len() ==> spec_info_of(r@[k], #[trigger] units@[k], now_s),
{
    let mut out: Vec<UnitInfo> = Vec::new();
    let mut k: usize = 0;
    while k < units.len()
        invariant
            0 <= k <= units@.len(),
            out@.len() == k,
            forall|q: int| 0 <= q < k ==> spec_info_of(out@[q], #[trigger] units@[q], now_s),
        decreases units@.len() - k,
    {
        let info = convert_unit_to_proto(&units[k], now_s);
        out.push(info);
        k = k + 1;
    }
    out
}

} // verus!
