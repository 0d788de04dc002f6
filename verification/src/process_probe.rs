//! The process probe: watches whether a known pid still exists in the
//! operating system's process table.
//!
//! The probe's background loop lives outside the library; it calls
//! `should_poll`, `poll_once`, `continue_after_cycle` and
//! `finish_run` in this order:
//!
//! ```text
//! loop {
//!     if !should_poll() { break; }         // cancellation
//!     poll_once();                         // one pid lookup
//!     if !continue_after_cycle() { break; } // interval 0: run once
//!     sleep(interval);
//! }
//! finish_run();                            // publish Dead, clear flag
//! ```

use vstd::prelude::*;

use crate::host;
use crate::probe_state::ProbeState;

verus! {

/// A background observer of one pid.
#[derive(Clone, Debug)]
pub struct ProcessProbe {
    /// The unit this probe watches, for log and error text.
    pub name: String,
    /// The pid whose existence is probed.
    pub pid: u32,
    /// Seconds between probe cycles; `0` means run once, then exit.
    pub interval_s: i32,
    /// The most recently published observation.
    pub state: ProbeState,
    /// Cooperative cancellation flag.
    pub stop_requested: bool,
}

impl ProcessProbe {
    pub fn new(name: String, pid: u32, interval_s: i32) -> (r: ProcessProbe)
        ensures
            r.name == name,
            r.pid == pid,
            r.interval_s == interval_s,
            r.state is Undefined,
            !r.stop_requested,
    {
        ProcessProbe { name, pid, interval_s, state: ProbeState::Undefined, stop_requested: false }
    }

    /// The most recently published observation.
    pub fn get_state(&self) -> (r: ProbeState)
        ensures
            r == self.state,
    {
        self.state
    }

    /// Publishes a new observation.
    pub fn set_state(&mut self, new_state: ProbeState)
        ensures
            *final(self) == (ProcessProbe { state: new_state, ..*old(self) }),
    {
        self.state = new_state;
    }

    /// Whether cancellation has been requested.
    pub fn stop_requested(&self) -> (r: bool)
        ensures
            r == self.stop_requested,
    {
        self.stop_requested
    }

    /// Requests cancellation; the loop exits at its next head.
    pub fn request_stop(&mut self)
        ensures
            *final(self) == (ProcessProbe { stop_requested: true, ..*old(self) }),
    {
        self.stop_requested = true;
    }

    /// Whether the loop head lets another cycle begin.
    pub fn should_poll(&self) -> (r: bool)
        ensures
            r == !self.stop_requested,
    {
        !self.stop_requested
    }

    /// Takes the result of one pid lookup: an existing pid publishes
    /// `Alive`, a missing one publishes `Dead`.
    pub fn probe(&mut self, pid_alive: bool)
        ensures
            *final(self) == (ProcessProbe {
                state: if pid_alive {
                    ProbeState::Alive
                } else {
                    ProbeState::Dead
                },
                ..*old(self)
            }),
    {
        if pid_alive {
            self.set_state(ProbeState::Alive);
        } else {
            self.set_state(ProbeState::Dead);
        }
    }

    /// Performs one probe cycle: looks the pid up in the process
    /// table and publishes the observation.  What the table holds is
    /// machine state, so all that is promised is that an observation
    /// was published and nothing else changed.
    pub fn poll_once(&mut self)
        ensures
            final(self).state is Alive || final(self).state is Dead,
            *final(self) == (ProcessProbe { state: final(self).state, ..*old(self) }),
    {
        let alive = host::pid_exists(self.pid);
        self.probe(alive);
    }

    /// Whether the loop runs another cycle after this one: an
    /// interval of `0` means run once, then exit.
    pub fn continue_after_cycle(&self) -> (r: bool)
        ensures
            r == (self.interval_s != 0),
    {
        self.interval_s != 0
    }

    /// On loop exit: publish `Dead` and clear the cancellation flag,
    /// so a later run starts clean.
    pub fn finish_run(&mut self)
        ensures
            *final(self) == (ProcessProbe {
                state: ProbeState::Dead,
                stop_requested: false,
                ..*old(self)
            }),
    {
        self.state = ProbeState::Dead;
        self.stop_requested = false;
    }
}

} // verus!
