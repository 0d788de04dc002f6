//! The `liveness_probe` stanza of a unit: the command to run, its
//! soft time limit and its interval.

use vstd::prelude::*;

use crate::liveness_probe::LivenessProbe;
use crate::text::clone_strings;

verus! {

/// The probe command and its schedule; a time limit of `0` means no
/// limit, an interval of `0` means run once.
#[derive(Debug)]
pub struct ProcessProbe {
    pub executable: String,
    pub arguments: Option<Vec<String>>,
    pub timeout_s: Option<i32>,
    pub interval_s: Option<i32>,
}

impl ProcessProbe {
    pub fn get_executable(&self) -> (r: String)
        ensures
            r == self.executable,
    {
        self.executable.clone()
    }

    /// The configured arguments; none by default.
    pub fn get_arguments(&self) -> (r: Vec<String>)
        ensures
            self.arguments matches Some(arguments) ==> r@ == arguments@,
            self.arguments is None ==> r@.len() == 0,
    {
        match &self.arguments {
            Some(arguments) => clone_strings(arguments),
            None => Vec::new(),
        }
    }

    /// The configured time limit, in seconds; ten by default.
    pub fn get_timeout_s(&self) -> (r: i32)
        ensures
            self.timeout_s matches Some(timeout) ==> r == timeout,
            self.timeout_s is None ==> r == 10,
    {
        match self.timeout_s {
            Some(timeout) => timeout,
            None => 10,
        }
    }

    /// The configured interval, in seconds; sixty by default.
    pub fn get_interval_s(&self) -> (r: i32)
        ensures
            self.interval_s matches Some(interval) ==> r == interval,
            self.interval_s is None ==> r == 60,
    {
        match self.interval_s {
            Some(interval) => interval,
            None => 60,
        }
    }

    /// The liveness probe this stanza describes, bound to the named
    /// unit.
    pub fn build(&self, name: String) -> (r: LivenessProbe)
        ensures
            r.name == name,
            r.executable == self.executable,
            self.arguments matches Some(arguments) ==> r.arguments@ == arguments@,
            self.arguments is None ==> r.arguments@.len() == 0,
            self.timeout_s matches Some(timeout) ==> r.timeout_s == timeout,
            self.timeout_s is None ==> r.timeout_s == 10,
            self.interval_s matches Some(interval) ==> r.interval_s == interval,
            self.interval_s is None ==> r.interval_s == 60,
            r.state is Undefined,
            !r.stop_requested,
    {
        LivenessProbe::new(
            name,
            self.get_executable(),
            self.get_arguments(),
            self.get_timeout_s(),
            self.get_interval_s(),
        )
    }
}

} // verus!
