//! The lifecycle phase of a unit.

use vstd::prelude::*;

use crate::probe_state::ProbeState;

verus! {

/// The unit's lifecycle phase.  Only `Stopped`, `Starting`, `Running`
/// and `Stopping` are ever stored; the two `Running*` variants are
/// views derived at read time from `Running` and the current process
/// probe state.
#[derive(Clone, Copy, Debug, PartialEq, Eq, Structural)]
pub enum UnitState {
    Starting,
    Running,
    RunningAndHealthy,
    RunningButDegraded,
    Stopping,
    Stopped,
}

impl UnitState {
    /// The integer code this state carries on the control-plane wire.
    pub fn code(&self) -> (r: i32)
        ensures
            r == self.spec_code(),
    {
        match self {
            UnitState::Starting => 0,
            UnitState::Running => 1,
            UnitState::RunningAndHealthy => 2,
            UnitState::RunningButDegraded => 3,
            UnitState::Stopping => 4,
            UnitState::Stopped => 5,
        }
    }

    /// The integer code, as a specification-level function.
    pub open spec fn spec_code(self) -> i32 {
        match self {
            UnitState::Starting => 0,
            UnitState::Running => 1,
            UnitState::RunningAndHealthy => 2,
            UnitState::RunningButDegraded => 3,
            UnitState::Stopping => 4,
            UnitState::Stopped => 5,
        }
    }

    /// The label shown for this state in client output.
    pub fn label(&self) -> (r: String)
        ensures
            self is Starting ==> r@ == "Starting"@,
            self is Running ==> r@ == "Running"@,
            self is RunningAndHealthy ==> r@ == "Running (Healthy)"@,
            self is RunningButDegraded ==> r@ == "Running (Degraded)"@,
            self is Stopping ==> r@ == "Stopping"@,
            self is Stopped ==> r@ == "Stopped"@,
    {
        match self {
            UnitState::Starting => String::from_str("Starting"),
            UnitState::Running => String::from_str("Running"),
            UnitState::RunningAndHealthy => String::from_str("Running (Healthy)"),
            UnitState::RunningButDegraded => String::from_str("Running (Degraded)"),
            UnitState::Stopping => String::from_str("Stopping"),
            UnitState::Stopped => String::from_str("Stopped"),
        }
    }

    /// Whether this is a stored phase (never one of the derived views).
    pub open spec fn is_stored(self) -> bool {
        self !is RunningAndHealthy && self !is RunningButDegraded
    }
}

/// The state a wire code stands for, if any.
pub fn unit_state_from_code(code: i32) -> (r: Option<UnitState>)
    ensures
        r matches Some(s) ==> s.spec_code() == code,
        0 <= code <= 5 <==> r is Some,
{
    if code == 0 {
        Some(UnitState::Starting)
    } else if code == 1 {
        Some(UnitState::Running)
    } else if code == 2 {
        Some(UnitState::RunningAndHealthy)
    } else if code == 3 {
        Some(UnitState::RunningButDegraded)
    } else if code == 4 {
        Some(UnitState::Stopping)
    } else if code == 5 {
        Some(UnitState::Stopped)
    } else {
        None
    }
}

/// The view a reader observes for a unit whose stored phase is
/// `stored` while its process probe reports `probe`: a stored
/// `Running` is refined to `RunningAndHealthy` exactly when the probe
/// reports `Alive`, and to `RunningButDegraded` otherwise; every other
/// phase is observed as it is stored.
pub fn derived_view(stored: UnitState, probe: ProbeState) -> (r: UnitState)
    ensures
        r == spec_derived_view(stored, probe),
        stored is Running ==> ((r is RunningAndHealthy) <==> (probe is Alive)),
        stored is Running ==> ((r is RunningButDegraded) <==> (probe !is Alive)),
        stored !is Running ==> r == stored,
{
    match stored {
        UnitState::Running => {
            if probe == ProbeState::Alive {
                UnitState::RunningAndHealthy
            } else {
                UnitState::RunningButDegraded
            }
        },
        _ => stored,
    }
}

/// The derived view, as a specification-level function.
pub open spec fn spec_derived_view(stored: UnitState, probe: ProbeState) -> UnitState {
    if stored is Running {
        if probe is Alive {
            UnitState::RunningAndHealthy
        } else {
            UnitState::RunningButDegraded
        }
    } else {
        stored
    }
}

} // verus!
