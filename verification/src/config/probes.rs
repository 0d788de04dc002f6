//! Probe stanzas a unit may carry.  Only the liveness probe is wired
//! up today; the startup and readiness stanzas are parsed and kept
//! for the future.

use vstd::prelude::*;

verus! {

#[derive(Debug)]
pub struct StartupProbe {
    pub command: Option<Vec<String>>,
}

#[derive(Debug)]
pub struct ReadinessProbe {
    pub command: Option<Vec<String>>,
}

#[derive(Debug)]
pub struct LivenessProbe {
    pub command: Option<Vec<String>>,
    pub interval_s: i32,
}

} // verus!
