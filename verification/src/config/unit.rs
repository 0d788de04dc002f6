//! One `[[units]]` block: a unit as the configuration file describes
//! it, before defaults are applied.

use vstd::prelude::*;

use crate::config::process_probe::ProcessProbe;
use crate::host;
use crate::liveness_probe::LivenessProbe;
use crate::restart_policy::RestartPolicy;
use crate::text::clone_strings;
use crate::unit;

verus! {

/// A configured unit; optional fields default when read.
#[derive(Debug)]
pub struct Unit {
    pub name: String,
    pub executable: String,
    pub arguments: Option<Vec<String>>,
    /// Names of the units that must run before this one.
    pub dependencies: Option<Vec<String>>,
    pub restart_policy: Option<RestartPolicy>,
    pub user: Option<String>,
    pub group: Option<String>,
    pub enabled: Option<bool>,
    pub liveness_probe: Option<ProcessProbe>,
}

impl Unit {
    pub fn get_name(&self) -> (r: String)
        ensures
            r == self.name,
    {
        self.name.clone()
    }

    pub fn get_executable(&self) -> (r: String)
        ensures
            r == self.executable,
    {
        self.executable.clone()
    }

    /// The configured arguments; none by default.
    pub fn get_arguments(&self) -> (r: Vec<String>)
        ensures
            self.arguments matches Some(arguments) ==> r@ == arguments@,
            self.arguments is None ==> r@.len() == 0,
    {
        match &self.arguments {
            Some(arguments) => clone_strings(arguments),
            None => Vec::new(),
        }
    }

    /// The configured dependency names; none by default.
    pub fn get_dependencies(&self) -> (r: Vec<String>)
        ensures
            self.dependencies matches Some(dependencies) ==> r@ == dependencies@,
            self.dependencies is None ==> r@.len() == 0,
    {
        match &self.dependencies {
            Some(dependencies) => clone_strings(dependencies),
            None => Vec::new(),
        }
    }

    /// The configured restart policy; `Always` by default.
    pub fn get_restart_policy(&self) -> (r: RestartPolicy)
        ensures
            self.restart_policy matches Some(policy) ==> r == policy,
            self.restart_policy is None ==> r is Always,
    {
        match self.restart_policy {
            Some(policy) => policy,
            None => RestartPolicy::Always,
        }
    }

    /// Whether the unit may run; enabled by default.
    pub fn is_enabled(&self) -> (r: bool)
        ensures
            self.enabled matches Some(enabled) ==> r == enabled,
            self.enabled is None ==> r,
    {
        match self.enabled {
            Some(enabled) => enabled,
            None => true,
        }
    }

    /// The liveness probe this block describes, if any, bound to the
    /// unit's name.
    pub fn get_liveness_probe(&self) -> (r: Option<LivenessProbe>)
        ensures
            r is Some <==> self.liveness_probe is Some,
            r matches Some(p) ==> p.name == self.name && p.state is Undefined
                && !p.stop_requested,
    {
        match &self.liveness_probe {
            Some(probe) => Some(probe.build(self.name.clone())),
            None => None,
        }
    }

    /// The uid the unit runs under: the configured user's, when that
    /// user exists in the system database, else the current uid.
    /// What the database holds is machine state, so only which
    /// lookups happen is pinned.
    pub fn get_uid(&self) -> u32 {
        match &self.user {
            Some(user) => {
                match host::uid_for_user_name(user.as_str()) {
                    Some(uid) => uid,
                    None => host::current_uid(),
                }
            },
            None => host::current_uid(),
        }
    }

    /// The gid the unit runs under, resolved like the uid.
    pub fn get_gid(&self) -> u32 {
        match &self.group {
            Some(group) => {
                match host::gid_for_group_name(group.as_str()) {
                    Some(gid) => gid,
                    None => host::current_gid(),
                }
            },
            None => host::current_gid(),
        }
    }

    /// The unit this block describes, with its liveness probe set
    /// and its dependency list still empty: dependencies are wired
    /// by index once every unit exists.
    pub fn build_ref(&self) -> (r: unit::Unit)
        ensures
            r.name == self.name,
            r.process.executable == self.executable,
            self.arguments matches Some(arguments) ==> r.process.arguments@ == arguments@,
            self.arguments is None ==> r.process.arguments@.len() == 0,
            self.restart_policy matches Some(policy) ==> r.restart_policy == policy,
            self.restart_policy is None ==> r.restart_policy is Always,
            self.enabled matches Some(enabled) ==> r.enabled == enabled,
            self.enabled is None ==> r.enabled,
            r.dependencies@.len() == 0,
            r.state is Stopped,
            r.process.child is None,
            !r.probe_manager.is_running,
            r.probe_manager.liveness_probe is Some <==> self.liveness_probe is Some,
            r.wf(),
            !r.spec_is_running(),
    {
        let mut built = unit::Unit::new(
            self.get_name(),
            self.get_executable(),
            self.get_arguments(),
            self.get_restart_policy(),
            self.get_uid(),
            self.get_gid(),
            self.is_enabled(),
        );
        match self.get_liveness_probe() {
            Some(probe) => built.set_liveness_probe(probe),
            None => {},
        }
        built
    }
}

} // verus!
