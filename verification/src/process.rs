//! The child-process record of a unit.
//!
//! The record keeps the launch descriptor and what is currently known
//! of the child: the pid behind the held handle and the timestamp at
//! which it was spawned.  Spawning, killing and reaping are performed
//! outside the library; their outcomes are handed in as values and
//! every transition taken on them is verified.

use vstd::prelude::*;

verus! {

/// What came back from an attempt to spawn a child.
#[derive(Debug, Clone)]
pub enum SpawnOutcome {
    /// The child was spawned; `pid` identifies it and `now` is the
    /// time of the spawn, in whole seconds.
    Spawned { pid: u32, now: u64 },
    /// The child could not be executed.
    Failed { error: String },
}

/// What came back from an attempt to terminate a child and reap it.
#[derive(Debug, Clone)]
pub enum KillOutcome {
    /// The termination signal was delivered and the child was reaped.
    Killed,
    /// The signal could not be delivered because the child had
    /// already exited; the handle can still be released.
    AlreadyExited,
    /// The operating system refused to deliver the signal.
    KillFailed { error: String },
    /// The signal was delivered but waiting for the child failed.
    WaitFailed { error: String },
}

/// What a non-blocking reap of the child reported.
#[derive(Debug, Clone, Copy, PartialEq, Eq, Structural)]
pub enum ExitObservation {
    /// The child has not exited yet.
    StillRunning,
    /// The child exited with this status code.
    Exited { code: i32 },
}

/// A unit's child process: its launch descriptor, and at most one
/// live child handle with its start timestamp.
#[derive(Debug)]
pub struct Process {
    pub executable: String,
    pub arguments: Vec<String>,
    pub uid: u32,
    pub gid: u32,
    /// The pid behind the held child handle, if one is held.
    pub child: Option<u32>,
    /// When the held child was spawned, in whole seconds.
    pub start_timestamp: Option<u64>,
}

impl Process {
    /// A child handle is held exactly when a start timestamp is
    /// recorded.
    pub open spec fn wf(self) -> bool {
        self.child is Some <==> self.start_timestamp is Some
    }

    /// Whether a child handle is currently held.
    pub open spec fn spec_is_running(self) -> bool {
        self.child is Some
    }

    /// The launch descriptor is untouched by every transition.
    pub open spec fn same_descriptor(self, other: Process) -> bool {
        &&& self.executable == other.executable
        &&& self.arguments == other.arguments
        &&& self.uid == other.uid
        &&& self.gid == other.gid
    }

    pub fn new(executable: String, arguments: Vec<String>, uid: u32, gid: u32) -> (r: Process)
        ensures
            r.executable == executable,
            r.arguments == arguments,
            r.uid == uid,
            r.gid == gid,
            r.child is None,
            r.start_timestamp is None,
            r.wf(),
    {
        Process { executable, arguments, uid, gid, child: None, start_timestamp: None }
    }

    pub fn get_executable(&self) -> (r: String)
        ensures
            r == self.executable,
    {
        self.executable.clone()
    }

    pub fn get_arguments(&self) -> (r: Vec<String>)
        ensures
            r@ == self.arguments@,
    {
        let mut out: Vec<String> = Vec::new();
        let mut i: usize = 0;
        while i < self.arguments.len()
            invariant
                0 <= i <= self.arguments.len(),
                out@.len() == i,
                forall|j: int| 0 <= j < i ==> out@[j] == self.arguments@[j],
            decreases self.arguments.len() - i,
        {
            out.push(self.arguments[i].clone());
            i = i + 1;
        }
        assert(out@ =~= self.arguments@);
        out
    }

    pub fn get_uid(&self) -> (r: u32)
        ensures
            r == self.uid,
    {
        self.uid
    }

    pub fn get_gid(&self) -> (r: u32)
        ensures
            r == self.gid,
    {
        self.gid
    }

    /// The pid behind the held child handle, if one is held.
    pub fn get_pid(&self) -> (r: Option<u32>)
        ensures
            r == self.child,
    {
        self.child
    }

    /// Seconds since the held child was spawned, measured against the
    /// caller's clock reading `now_s`; `None` when no child is held.
    pub fn get_uptime(&self, now_s: u64) -> (r: Option<u64>)
        ensures
            r is Some <==> self.start_timestamp is Some,
            self.start_timestamp matches Some(t) ==> r == Some(
                if now_s >= t {
                    (now_s - t) as u64
                } else {
                    0u64
                },
            ),
    {
        match self.start_timestamp {
            Some(t) => {
                if now_s >= t {
                    Some(now_s - t)
                } else {
                    Some(0)
                }
            },
            None => None,
        }
    }

    /// Whether a child handle is held.  The handle tracks the most
    /// recent reap observation: `exit_code` releases it as soon as an
    /// exit is observed.
    pub fn is_running(&self) -> (r: bool)
        ensures
            r == self.spec_is_running(),
    {
        self.child.is_some()
    }

    /// Applies a non-blocking reap observation.  An observed exit
    /// releases the handle and clears the start timestamp, and the
    /// status is returned once; in every other case nothing changes
    /// and nothing is returned.
    pub fn exit_code(&mut self, observation: ExitObservation) -> (r: Option<i32>)
        ensures
            final(self).same_descriptor(*old(self)),
            old(self).wf() ==> final(self).wf(),
            old(self).child is None ==> *final(self) == *old(self) && r is None,
            old(self).child is Some && observation is StillRunning ==> *final(self) == *old(self)
                && r is None,
            old(self).child is Some && observation is Exited ==> {
                &&& final(self).child is None
                &&& final(self).start_timestamp is None
                &&& r == Some(observation->code)
            },
    {
        match self.child {
            Some(_) => {
                match observation {
                    ExitObservation::Exited { code } => {
                        self.cleanup();
                        Some(code)
                    },
                    ExitObservation::StillRunning => None,
                }
            },
            None => None,
        }
    }

    /// Takes the outcome of one spawn attempt.  Started processes are
    /// left alone (`Ok(false)`); a successful spawn records the new
    /// handle and timestamp; a failed spawn leaves the record empty
    /// and returns the originating error.
    pub fn start(&mut self, outcome: &SpawnOutcome) -> (r: Result<bool, String>)
        ensures
            final(self).same_descriptor(*old(self)),
            old(self).child is Some ==> *final(self) == *old(self) && r == Ok::<bool, String>(
                false,
            ),
            old(self).child is None && outcome is Spawned ==> {
                &&& final(self).child == Some(outcome->Spawned_pid)
                &&& final(self).start_timestamp == Some(outcome->Spawned_now)
                &&& r == Ok::<bool, String>(true)
            },
            old(self).child is None && outcome is Failed ==> {
                &&& final(self).child is None
                &&& final(self).start_timestamp is None
                &&& r is Err
            },
            old(self).wf() ==> final(self).wf(),
    {
        if self.is_running() {
            return Ok(false);
        }
        match outcome {
            SpawnOutcome::Spawned { pid, now } => {
                self.child = Some(*pid);
                self.start_timestamp = Some(*now);
                Ok(true)
            },
            SpawnOutcome::Failed { error } => {
                self.cleanup();
                let mut message = String::from_str("Process ");
                message.append(self.executable.as_str());
                message.append(" failed to start: ");
                message.append(error.as_str());
                Err(message)
            },
        }
    }

    /// Takes the outcome of one kill-and-reap attempt.  A stopped
    /// process is left alone (`Ok(false)`); a delivered signal or an
    /// "already exited" refusal releases the handle (`Ok(true)`); any
    /// other refusal leaves the record unchanged and is surfaced.
    pub fn stop(&mut self, outcome: &KillOutcome) -> (r: Result<bool, String>)
        ensures
            final(self).same_descriptor(*old(self)),
            old(self).child is None ==> *final(self) == *old(self) && r == Ok::<bool, String>(
                false,
            ),
            old(self).child is Some && (outcome is Killed || outcome is AlreadyExited) ==> {
                &&& final(self).child is None
                &&& final(self).start_timestamp is None
                &&& r == Ok::<bool, String>(true)
            },
            old(self).child is Some && (outcome is KillFailed || outcome is WaitFailed) ==> {
                &&& *final(self) == *old(self)
                &&& r is Err
            },
            old(self).wf() ==> final(self).wf(),
    {
        if !self.is_running() {
            return Ok(false);
        }
        match outcome {
            KillOutcome::Killed => {
                self.cleanup();
                Ok(true)
            },
            KillOutcome::AlreadyExited => {
                self.cleanup();
                Ok(true)
            },
            KillOutcome::KillFailed { error } => {
                let mut message = String::from_str("Process ");
                message.append(self.executable.as_str());
                message.append(" failed to stop: ");
                message.append(error.as_str());
                Err(message)
            },
            KillOutcome::WaitFailed { error } => {
                let mut message = String::from_str("Process ");
                message.append(self.executable.as_str());
                message.append(" failed to wait: ");
                message.append(error.as_str());
                Err(message)
            },
        }
    }

    /// Stop with the first outcome, then start with the second; the
    /// first error wins.  A refused kill of a held child leaves the
    /// record untouched; otherwise the record is empty when the
    /// spawn outcome lands and that outcome decides everything.
    pub fn restart(&mut self, kill: &KillOutcome, spawn: &SpawnOutcome) -> (r: Result<
        bool,
        String,
    >)
        ensures
            final(self).same_descriptor(*old(self)),
            old(self).wf() ==> final(self).wf(),
            r is Ok ==> r == Ok::<bool, String>(true),
            old(self).child is Some && (kill is KillFailed || kill is WaitFailed) ==> r is Err
                && *final(self) == *old(self),
            !(old(self).child is Some && (kill is KillFailed || kill is WaitFailed))
                && spawn is Spawned ==> {
                &&& r == Ok::<bool, String>(true)
                &&& final(self).child == Some(spawn->Spawned_pid)
                &&& final(self).start_timestamp == Some(spawn->Spawned_now)
            },
            !(old(self).child is Some && (kill is KillFailed || kill is WaitFailed))
                && spawn is Failed ==> {
                &&& r is Err
                &&& final(self).child is None
                &&& (old(self).wf() ==> final(self).start_timestamp is None)
            },
    {
        match self.stop(kill) {
            Ok(_) => {
                match self.start(spawn) {
                    Ok(_) => Ok(true),
                    Err(error) => Err(error),
                }
            },
            Err(error) => Err(error),
        }
    }

    /// Releases the handle and clears the start timestamp.
    fn cleanup(&mut self)
        ensures
            final(self).same_descriptor(*old(self)),
            final(self).child is None,
            final(self).start_timestamp is None,
    {
        self.start_timestamp = None;
        self.child = None;
    }
}

} // verus!
