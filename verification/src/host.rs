//! The library's window onto the host system: process-table lookups,
//! user and group resolution, and duration formatting.
//!
//! Every function here is a trusted wrapper around one outside call.
//! Nothing is promised of results that depend on the machine's state;
//! the verified code that consumes them states what holds whatever
//! came back.

use vstd::prelude::*;

use sysinfo::{PidExt, SystemExt};

verus! {

/// Relies on sysinfo's `SystemExt::refresh_process_specifics`: it
/// returns `false` when no process with the given pid exists, and
/// `true` when one does.  Whether a pid exists is a question about the
/// machine's current state, so nothing is promised of the result.
#[verifier::external_body]
pub fn pid_exists(pid: u32) -> bool {
    let mut system_info = sysinfo::System::new();
    let sysinfo_pid = sysinfo::Pid::from_u32(pid);
    let refresh = sysinfo::ProcessRefreshKind::new();
    system_info.refresh_process_specifics(sysinfo_pid, refresh)
}

/// Relies on users' `get_user_by_name`: it looks the name up in the
/// system user database and returns the matching account, if any.
/// The database is machine state, so nothing is promised of the
/// result.
#[verifier::external_body]
pub fn uid_for_user_name(name: &str) -> Option<u32> {
    match users::get_user_by_name(name) {
        Some(user) => Some(user.uid()),
        None => None,
    }
}

/// Relies on users' `get_group_by_name`: it looks the name up in the
/// system group database and returns the matching group, if any.
#[verifier::external_body]
pub fn gid_for_group_name(name: &str) -> Option<u32> {
    match users::get_group_by_name(name) {
        Some(group) => Some(group.gid()),
        None => None,
    }
}

/// Relies on users' `get_current_uid`, which returns the uid of the
/// user running this process.
#[verifier::external_body]
pub fn current_uid() -> u32 {
    users::get_current_uid()
}

/// Relies on users' `get_current_gid`, which returns the gid of the
/// group running this process.
#[verifier::external_body]
pub fn current_gid() -> u32 {
    users::get_current_gid()
}

/// The text humantime renders for a whole number of seconds.  The
/// rendering depends on the seconds alone, so it can be named even
/// though writing it out would take pages.
pub uninterp spec fn duration_text(secs: u64) -> Seq<char>;

/// Relies on humantime's `format_duration`: the rendered text is a
/// function of the duration alone.
#[verifier::external_body]
pub fn format_seconds(secs: u64) -> (r: String)
    ensures
        r@ == duration_text(secs),
{
    humantime::format_duration(std::time::Duration::from_secs(secs)).to_string()
}

} // verus!
