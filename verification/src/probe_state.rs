//! The tri-valued output of a probe.

use vstd::prelude::*;

verus! {

/// What a probe most recently reported about its unit.
#[derive(Clone, Copy, Debug, PartialEq, Eq, Structural)]
pub enum ProbeState {
    /// The probe is not configured, not running, or has not reported yet.
    Undefined,
    /// The probe is configured and the observed process is running.
    Alive,
    /// The probe is configured and the observed process is not running.
    Dead,
}

impl ProbeState {
    /// The integer code this state carries on the control-plane wire.
    pub fn code(&self) -> (r: i32)
        ensures
            r == self.spec_code(),
    {
        match self {
            ProbeState::Undefined => 0,
            ProbeState::Alive => 1,
            ProbeState::Dead => 2,
        }
    }

    /// The integer code, as a specification-level function.
    pub open spec fn spec_code(self) -> i32 {
        match self {
            ProbeState::Undefined => 0,
            ProbeState::Alive => 1,
            ProbeState::Dead => 2,
        }
    }

    /// The label shown for this state in client output.
    pub fn label(&self) -> (r: String)
        ensures
            self is Undefined ==> r@ == "Undefined"@,
            self is Alive ==> r@ == "Alive"@,
            self is Dead ==> r@ == "Dead"@,
    {
        match self {
            ProbeState::Undefined => String::from_str("Undefined"),
            ProbeState::Alive => String::from_str("Alive"),
            ProbeState::Dead => String::from_str("Dead"),
        }
    }
}

/// The state a wire code stands for; codes outside the table fall back
/// to `Undefined`, mirroring how unknown enum values are received.
pub fn probe_state_from_code(code: i32) -> (r: ProbeState)
    ensures
        code == 1 ==> r is Alive,
        code == 2 ==> r is Dead,
        code != 1 && code != 2 ==> r is Undefined,
{
    if code == 1 {
        ProbeState::Alive
    } else if code == 2 {
        ProbeState::Dead
    } else {
        ProbeState::Undefined
    }
}

} // verus!
