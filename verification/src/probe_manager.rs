//! The per-unit bundle of probes.
//!
//! A unit owns at most one process probe and one liveness probe.  A
//! single `is_running` flag masks both reported states: while the
//! probes are not running, readers see `Undefined` regardless of any
//! stale inner state.

use vstd::prelude::*;

use crate::liveness_probe::LivenessProbe;
use crate::probe_state::ProbeState;
use crate::process_probe::ProcessProbe;

verus! {

/// The probes of one unit, behind the shared `is_running` flag.
#[derive(Debug)]
pub struct ProbeManager {
    /// The unit these probes watch, for log and error text.
    pub unit_name: String,
    pub liveness_probe: Option<LivenessProbe>,
    pub process_probe: Option<ProcessProbe>,
    /// Whether the probes have been started; masks both reported
    /// states.
    pub is_running: bool,
}

impl ProbeManager {
    /// The process-probe state a reader observes.
    pub open spec fn spec_process_probe_state(self) -> ProbeState {
        if !self.is_running {
            ProbeState::Undefined
        } else {
            match self.process_probe {
                Some(p) => p.state,
                None => ProbeState::Undefined,
            }
        }
    }

    /// The liveness-probe state a reader observes.
    pub open spec fn spec_liveness_probe_state(self) -> ProbeState {
        if !self.is_running {
            ProbeState::Undefined
        } else {
            match self.liveness_probe {
                Some(p) => p.state,
                None => ProbeState::Undefined,
            }
        }
    }

    /// This bundle with cancellation requested and the shared flag cleared.
    pub open spec fn spec_stopped(self) -> ProbeManager {
        ProbeManager {
            is_running: false,
            process_probe: match self.process_probe {
                Some(p) => Some(ProcessProbe { stop_requested: true, ..p }),
                None => None,
            },
            liveness_probe: match self.liveness_probe {
                Some(p) => Some(LivenessProbe { stop_requested: true, ..p }),
                None => None,
            },
            ..self
        }
    }

    pub fn new(unit_name: String) -> (r: ProbeManager)
        ensures
            r.unit_name == unit_name,
            r.liveness_probe is None,
            r.process_probe is None,
            !r.is_running,
    {
        ProbeManager { unit_name, liveness_probe: None, process_probe: None, is_running: false }
    }

    pub fn set_liveness_probe(&mut self, probe: LivenessProbe)
        ensures
            *final(self) == (ProbeManager { liveness_probe: Some(probe), ..*old(self) }),
    {
        self.liveness_probe = Some(probe);
    }

    pub fn set_process_probe(&mut self, probe: ProcessProbe)
        ensures
            *final(self) == (ProbeManager { process_probe: Some(probe), ..*old(self) }),
    {
        self.process_probe = Some(probe);
    }

    /// The process-probe state, `Undefined` while the probes are not
    /// running or no process probe is set.
    pub fn get_process_probe_state(&self) -> (r: ProbeState)
        ensures
            r == self.spec_process_probe_state(),
    {
        if !self.is_running {
            return ProbeState::Undefined;
        }
        match &self.process_probe {
            Some(process_probe) => process_probe.get_state(),
            None => ProbeState::Undefined,
        }
    }

    /// The liveness-probe state, `Undefined` while the probes are not
    /// running or no liveness probe is set.
    pub fn get_liveness_probe_state(&self) -> (r: ProbeState)
        ensures
            r == self.spec_liveness_probe_state(),
    {
        if !self.is_running {
            return ProbeState::Undefined;
        }
        match &self.liveness_probe {
            Some(liveness_probe) => liveness_probe.get_state(),
            None => ProbeState::Undefined,
        }
    }

    /// Raises the shared flag.  The background loops themselves are launched
    /// by the runner outside the library, which reads the probes'
    /// descriptors from here.
    pub fn start_probes(&mut self)
        ensures
            *final(self) == (ProbeManager { is_running: true, ..*old(self) }),
    {
        self.is_running = true;
    }

    /// Raises the shared flag again and withdraws any pending cancellation, for
    /// the path where a stop attempt failed and the unit reverts to
    /// its prior phase.
    pub fn resume_probes(&mut self)
        ensures
            final(self).unit_name == old(self).unit_name,
            final(self).is_running,
            old(self).process_probe matches Some(p) ==> final(self).process_probe == Some(
                ProcessProbe { stop_requested: false, ..p },
            ),
            old(self).process_probe is None ==> final(self).process_probe is None,
            old(self).liveness_probe matches Some(p) ==> final(self).liveness_probe == Some(
                LivenessProbe { stop_requested: false, ..p },
            ),
            old(self).liveness_probe is None ==> final(self).liveness_probe is None,
    {
        match &mut self.process_probe {
            Some(process_probe) => process_probe.stop_requested = false,
            None => {},
        }
        match &mut self.liveness_probe {
            Some(liveness_probe) => liveness_probe.stop_requested = false,
            None => {},
        }
        self.is_running = true;
    }

    /// Requests cancellation of both probes and clears the shared flag, so
    /// readers fall back to `Undefined` at once while the loops wind
    /// down cooperatively.
    pub fn stop_probes(&mut self)
        ensures
            *final(self) == old(self).spec_stopped(),
            !final(self).is_running,
    {
        match &mut self.process_probe {
            Some(process_probe) => process_probe.request_stop(),
            None => {},
        }
        match &mut self.liveness_probe {
            Some(liveness_probe) => liveness_probe.request_stop(),
            None => {},
        }
        self.is_running = false;
    }
}

} // verus!
