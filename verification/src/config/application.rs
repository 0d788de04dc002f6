//! The `[application]` table.

use vstd::prelude::*;

use crate::log_level::LogLevel;

verus! {

/// Application-wide settings.
#[derive(Debug)]
pub struct Application {
    pub log_level: Option<LogLevel>,
}

impl Application {
    /// The configured log level; `Info` when none was given.
    pub fn get_log_level(&self) -> (r: LogLevel)
        ensures
            self.log_level matches Some(level) ==> r == level,
            self.log_level is None ==> r is Info,
    {
        match self.log_level {
            Some(level) => level,
            None => LogLevel::Info,
        }
    }
}

} // verus!
