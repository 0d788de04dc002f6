//! The liveness probe: periodically runs a user-supplied command and
//! publishes the outcome.
//!
//! Executing the command is outside work; the loop that spawns it,
//! waits under the soft time limit and sleeps between cycles lives
//! outside the library and hands each cycle's outcome to `probe`.
//! The loop has the same skeleton as the process probe's.

use vstd::prelude::*;

use crate::probe_state::ProbeState;

verus! {

/// How one liveness-command cycle ended.
#[derive(Clone, Copy, Debug, PartialEq, Eq, Structural)]
pub enum LivenessOutcome {
    /// The command ran to completion within the time limit;
    /// `success` is whether it exited with status zero.
    Completed { success: bool },
    /// The time limit elapsed first and the command was force-killed.
    TimedOut,
    /// Waiting for the command failed with an unexpected OS error.
    WaitFailed,
    /// The command could not be spawned at all.
    SpawnFailed,
}

/// A background runner of one health-check command.
#[derive(Clone, Debug)]
pub struct LivenessProbe {
    /// The unit this probe watches, for log and error text.
    pub name: String,
    /// The health-check command.
    pub executable: String,
    pub arguments: Vec<String>,
    /// Soft time limit per cycle, in seconds; `0` means no limit.
    pub timeout_s: i32,
    /// Seconds between probe cycles; `0` means run once, then exit.
    pub interval_s: i32,
    /// The most recently published observation.
    pub state: ProbeState,
    /// Cooperative cancellation flag.
    pub stop_requested: bool,
}

impl LivenessProbe {
    pub fn new(
        name: String,
        executable: String,
        arguments: Vec<String>,
        timeout_s: i32,
        interval_s: i32,
    ) -> (r: LivenessProbe)
        ensures
            r.name == name,
            r.executable == executable,
            r.arguments == arguments,
            r.timeout_s == timeout_s,
            r.interval_s == interval_s,
            r.state is Undefined,
            !r.stop_requested,
    {
        LivenessProbe {
            name,
            executable,
            arguments,
            timeout_s,
            interval_s,
            state: ProbeState::Undefined,
            stop_requested: false,
        }
    }

    /// The most recently published observation.
    pub fn get_state(&self) -> (r: ProbeState)
        ensures
            r == self.state,
    {
        self.state
    }

    /// Publishes a new observation.
    pub fn set_state(&mut self, new_state: ProbeState)
        ensures
            *final(self) == (LivenessProbe { state: new_state, ..*old(self) }),
    {
        self.state = new_state;
    }

    /// Whether cancellation has been requested.
    pub fn stop_requested(&self) -> (r: bool)
        ensures
            r == self.stop_requested,
    {
        self.stop_requested
    }

    /// Requests cancellation; the loop exits at its next head.
    pub fn request_stop(&mut self)
        ensures
            *final(self) == (LivenessProbe { stop_requested: true, ..*old(self) }),
    {
        self.stop_requested = true;
    }

    /// Whether the loop head lets another cycle begin.
    pub fn should_poll(&self) -> (r: bool)
        ensures
            r == !self.stop_requested,
    {
        !self.stop_requested
    }

    /// The time limit the runner imposes on one cycle: none at all
    /// when `timeout_s` is zero (or negative), else `timeout_s`
    /// seconds.  With no limit the runner's timeout branch can never
    /// be taken, so a `TimedOut` outcome presupposes a positive
    /// `timeout_s`.
    pub fn effective_time_limit(&self) -> (r: Option<u64>)
        ensures
            self.timeout_s <= 0 ==> r is None,
            self.timeout_s > 0 ==> r == Some(self.timeout_s as u64),
    {
        if self.timeout_s <= 0 {
            None
        } else {
            Some(self.timeout_s as u64)
        }
    }

    /// Takes the outcome of one command cycle.  Exit status zero
    /// publishes `Alive`; a non-zero exit or an elapsed time limit is
    /// a failure and publishes `Dead`; a spawn failure or an
    /// unexpected OS error publishes `Undefined`.
    pub fn probe(&mut self, outcome: LivenessOutcome)
        ensures
            *final(self) == (LivenessProbe { state: final(self).state, ..*old(self) }),
            final(self).state == match outcome {
                LivenessOutcome::Completed { success: true } => ProbeState::Alive,
                LivenessOutcome::Completed { success: false } => ProbeState::Dead,
                LivenessOutcome::TimedOut => ProbeState::Dead,
                LivenessOutcome::WaitFailed => ProbeState::Undefined,
                LivenessOutcome::SpawnFailed => ProbeState::Undefined,
            },
    {
        match outcome {
            LivenessOutcome::Completed { success } => {
                if success {
                    self.set_state(ProbeState::Alive);
                } else {
                    self.set_state(ProbeState::Dead);
                }
            },
            LivenessOutcome::TimedOut => {
                self.set_state(ProbeState::Dead);
            },
            LivenessOutcome::WaitFailed => {
                self.set_state(ProbeState::Undefined);
            },
            LivenessOutcome::SpawnFailed => {
                self.set_state(ProbeState::Undefined);
            },
        }
    }

    /// Whether the loop runs another cycle after this one: an
    /// interval of `0` means run once, then exit.
    pub fn continue_after_cycle(&self) -> (r: bool)
        ensures
            r == (self.interval_s != 0),
    {
        self.interval_s != 0
    }

    /// On loop exit: publish `Dead` and clear the cancellation flag,
    /// so a later run starts clean.
    pub fn finish_run(&mut self)
        ensures
            *final(self) == (LivenessProbe {
                state: ProbeState::Dead,
                stop_requested: false,
                ..*old(self)
            }),
    {
        self.state = ProbeState::Dead;
        self.stop_requested = false;
    }
}

} // verus!
