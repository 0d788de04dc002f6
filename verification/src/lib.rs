//! A verified core for a small process supervisor.
//!
//! The library models units (long-running child processes with
//! dependencies, restart policies and health probes), the probes that
//! watch them, the manager that owns them, and the control-plane
//! messages used to inspect and mutate them at runtime.  Everything
//! that talks to the operating system (spawning, killing, reaping,
//! sleeping, socket traffic) lives outside the library and hands it
//! plain observations; the decisions taken on those observations are
//! verified here.

pub mod text;

pub mod probe_state;

pub mod restart_policy;

pub mod unit_state;

pub mod log_level;

pub mod host;

pub mod process;

pub mod process_probe;

pub mod liveness_probe;

pub mod probe_manager;

pub mod unit;

pub mod graph;

pub mod unit_manager;

pub mod rpc;

pub mod config;

pub mod syslog;
