//! The `[rpc_server]` table.

use vstd::prelude::*;

verus! {

/// Where — and whether — the control plane listens.
#[derive(Debug)]
pub struct RpcServer {
    pub enabled: Option<bool>,
    pub bind_address: Option<String>,
}

impl RpcServer {
    /// Whether the control plane is served; on by default.
    pub fn is_enabled(&self) -> (r: bool)
        ensures
            self.enabled matches Some(enabled) ==> r == enabled,
            self.enabled is None ==> r,
    {
        match self.enabled {
            Some(enabled) => enabled,
            None => true,
        }
    }

    /// The configured endpoint; the conventional local socket path
    /// when none was given.
    pub fn get_bind_address(&self) -> (r: String)
        ensures
            self.bind_address matches Some(address) ==> r == address,
            self.bind_address is None ==> r@ == "ipc:///tmp/tsm-unitman.sock"@,
    {
        match &self.bind_address {
            Some(address) => address.clone(),
            None => String::from_str("ipc:///tmp/tsm-unitman.sock"),
        }
    }
}

} // verus!
