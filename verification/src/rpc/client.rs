//! The client's side of the control plane: request builders, reply
//! checks, and the rows of the unit listing.
//!
//! The socket that carries the bytes lives outside the library; it
//! sends what the builders produce and hands what came back to the
//! reply parsers.

use vstd::prelude::*;
use vstd::utf8::encode_utf8;

use crate::host;
use crate::probe_state::probe_state_from_code;
use crate::restart_policy::restart_policy_from_code;
use crate::rpc::messages::{
    decode_text_payload, decode_unit_list, encode_text_payload, infos_encodable, spec_payload_is,
    spec_text_decodes, spec_text_payload_bytes, spec_unit_list_bytes, RpcMethod, RpcRequest,
    RpcResponse, UnitInfo,
};
use crate::unit_state::unit_state_from_code;

verus! {

/// A ping request: the `Ping` method code over the given text.
pub fn build_ping_request(message: String) -> (r: RpcRequest)
    requires
        encode_utf8(message@).len() <= 0xffff_ffff,
    ensures
        r.method == RpcMethod::Ping.spec_value(),
        r.data@ == spec_text_payload_bytes(message@),
{
    let data = encode_text_payload(&message);
    RpcRequest { method: 1, data }
}

/// A list-units request: the `ListUnits` method code, no payload.
pub fn build_list_units_request() -> (r: RpcRequest)
    ensures
        r.method == RpcMethod::ListUnits.spec_value(),
        r.data@.len() == 0,
{
    RpcRequest { method: 2, data: Vec::new() }
}

/// A start-unit request: the `StartUnit` method code over the name.
pub fn build_start_unit_request(unit_name: String) -> (r: RpcRequest)
    requires
        encode_utf8(unit_name@).len() <= 0xffff_ffff,
    ensures
        r.method == RpcMethod::StartUnit.spec_value(),
        r.data@ == spec_text_payload_bytes(unit_name@),
{
    let data = encode_text_payload(&unit_name);
    RpcRequest { method: 3, data }
}

/// A stop-unit request: the `StopUnit` method code over the name.
pub fn build_stop_unit_request(unit_name: String) -> (r: RpcRequest)
    requires
        encode_utf8(unit_name@).len() <= 0xffff_ffff,
    ensures
        r.method == RpcMethod::StopUnit.spec_value(),
        r.data@ == spec_text_payload_bytes(unit_name@),
{
    let data = encode_text_payload(&unit_name);
    RpcRequest { method: 4, data }
}

/// Reads a one-string reply: a `status = false` reply surfaces the
/// remote error text; a success surfaces its message exactly when
/// the payload reads as one.
pub fn parse_text_reply(response: &RpcResponse) -> (r: Result<String, String>)
    ensures
        !response.status ==> r == Err::<String, String>(response.error),
        response.status ==> (r is Ok <==> spec_text_decodes(response.data@)),
        r matches Ok(text) ==> spec_payload_is(response.data@, text@),
{
    if !response.status {
        return Err(response.error.clone());
    }
    match decode_text_payload(&response.data) {
        Some(text) => Ok(text),
        None => Err(String::from_str("Failed to parse response")),
    }
}

/// Reads a list-units reply: a `status = false` reply surfaces the
/// remote error text; a success surfaces its snapshots exactly when
/// the payload reads as a snapshot list.
pub fn parse_list_units_reply(response: &RpcResponse) -> (r: Result<Vec<UnitInfo>, String>)
    ensures
        !response.status ==> r == Err::<Vec<UnitInfo>, String>(response.error),
        response.status ==> (r is Ok <==> response.data@.len() == 0 || exists|ul: Seq<UnitInfo>|
            infos_encodable(ul) && response.data@ == #[trigger] spec_unit_list_bytes(ul)),
        r matches Ok(units) ==> ((response.data@.len() == 0 && units@.len() == 0)
            || response.data@ == spec_unit_list_bytes(units@)),
{
    if !response.status {
        return Err(response.error.clone());
    }
    let decoded = decode_unit_list(&response.data);
    match decoded {
        Some(units) => {
            proof {
                if response.data@.len() != 0 {
                    assert(infos_encodable(units@) && response.data@ == spec_unit_list_bytes(
                        units@,
                    ));
                }
            }
            Ok(units)
        },
        None => Err(String::from_str("Failed to parse response")),
    }
}

/// The restart-policy column for a wire code.
pub open spec fn spec_policy_column(code: i32) -> Seq<char> {
    if code == 0 {
        "Always"@
    } else if code == 1 {
        "Never"@
    } else if code == 2 {
        "Disabled*"@
    } else {
        "Unknown"@
    }
}

/// The state column for a wire code.
pub open spec fn spec_state_column(code: i32) -> Seq<char> {
    if code == 0 {
        "Starting"@
    } else if code == 1 {
        "Running"@
    } else if code == 2 {
        "Running (Healthy)"@
    } else if code == 3 {
        "Running (Degraded)"@
    } else if code == 4 {
        "Stopping"@
    } else if code == 5 {
        "Stopped"@
    } else {
        "Unknown"@
    }
}

/// The liveness column for a wire code; unmapped codes read as
/// `Undefined`, as the probe-state decoder reads them.
pub open spec fn spec_liveness_column(code: i32) -> Seq<char> {
    if code == 1 {
        "Alive"@
    } else if code == 2 {
        "Dead"@
    } else {
        "Undefined"@
    }
}

/// The uptime column: the formatted duration for a unit that holds a
/// child, a dash otherwise.
pub open spec fn spec_uptime_text(pid: i32, uptime: u64) -> Seq<char> {
    if pid > 0 {
        host::duration_text(uptime)
    } else {
        "-"@
    }
}

/// The command column: the executable, a space, and the arguments
/// joined by single spaces.
pub open spec fn spec_join_spaces(args: Seq<Seq<char>>) -> Seq<char>
    decreases args.len(),
{
    if args.len() == 0 {
        Seq::empty()
    } else if args.len() == 1 {
        args[0]
    } else {
        spec_join_spaces(args.drop_last()) + " "@ + args.last()
    }
}

/// Joins the arguments with single spaces.
pub fn join_spaces(args: &Vec<String>) -> (r: String)
    ensures
        r@ == spec_join_spaces(args@.map_values(|a: String| a@)),
{
    let mut out = String::new();
    let mut k: usize = 0;
    while k < args.len()
        invariant
            0 <= k <= args@.len(),
            out@ == spec_join_spaces(args@.map_values(|a: String| a@).take(k as int)),
        decreases args@.len() - k,
    {
        if k > 0 {
            out.append(" ");
        }
        out.append(args[k].as_str());
        proof {
            let av = args@.map_values(|a: String| a@);
            assert(av.take(k + 1).drop_last() =~= av.take(k as int));
            assert(av.take(k + 1).last() == args@[k as int]@);
            if k == 0 {
                assert(av.take(1).len() == 1);
            }
        }
        k = k + 1;
    }
    proof {
        assert(args@.map_values(|a: String| a@).take(args@.len() as int) =~= args@.map_values(
            |a: String| a@,
        ));
    }
    out
}

/// One row of the unit listing, in column order: name, enabled,
/// restart policy, state, liveness, uptime, command.
pub fn unit_row(u: &UnitInfo) -> (r: Vec<String>)
    ensures
        r@.len() == 7,
        r@[0]@ == u.name@,
        r@[1]@ == (if u.enabled {
            "Enabled"@
        } else {
            "Disabled"@
        }),
        r@[2]@ == spec_policy_column(u.restart_policy),
        r@[3]@ == spec_state_column(u.state),
        r@[4]@ == spec_liveness_column(u.liveness_probe_state),
        r@[5]@ == spec_uptime_text(u.pid, u.uptime),
        r@[6]@ == u.executable@ + " "@ + spec_join_spaces(
            u.arguments@.map_values(|a: String| a@),
        ),
{
    let enabled = if u.enabled {
        String::from_str("Enabled")
    } else {
        String::from_str("Disabled")
    };
    let restart_policy = match restart_policy_from_code(u.restart_policy) {
        Some(policy) => policy.label(),
        None => String::from_str("Unknown"),
    };
    let state = match unit_state_from_code(u.state) {
        Some(state) => state.label(),
        None => String::from_str("Unknown"),
    };
    let liveness = probe_state_from_code(u.liveness_probe_state).label();
    let uptime = if u.pid > 0 {
        host::format_seconds(u.uptime)
    } else {
        String::from_str("-")
    };
    let mut command = u.executable.clone();
    command.append(" ");
    let joined = join_spaces(&u.arguments);
    command.append(joined.as_str());
    let mut row: Vec<String> = Vec::new();
    row.push(u.name.clone());
    row.push(enabled);
    row.push(restart_policy);
    row.push(state);
    row.push(liveness);
    row.push(uptime);
    row.push(command);
    row
}

/// Every row of the unit listing, in list order.
pub fn build_unit_rows(units: &Vec<UnitInfo>) -> (r: Vec<Vec<String>>)
    ensures
        r@.len() == units@.len(),
        forall|k: int| 0 <= k < units@.len() ==> #[trigger] r@[k]@.len() == 7,
        forall|k: int| 0 <= k < units@.len() ==> #[trigger] r@[k]@[0]@ == units@[k].name@,
{
    let mut rows: Vec<Vec<String>> = Vec::new();
    let mut k: usize = 0;
    while k < units.len()
        invariant
            0 <= k <= units@.len(),
            rows@.len() == k,
            forall|q: int| 0 <= q < k ==> #[trigger] rows@[q]@.len() == 7,
            forall|q: int| 0 <= q < k ==> #[trigger] rows@[q]@[0]@ == units@[q].name@,
        decreases units@.len() - k,
    {
        let row = unit_row(&units[k]);
        rows.push(row);
        k = k + 1;
    }
    rows
}

/// The header row of the unit listing.
pub fn table_header() -> (r: Vec<String>)
    ensures
        r@.len() == 7,
        r@[0]@ == "NAME"@,
        r@[1]@ == "IS ENABLED"@,
        r@[2]@ == "RESTART POLICY"@,
        r@[3]@ == "STATE"@,
        r@[4]@ == "LIVENESS"@,
        r@[5]@ == "UPTIME"@,
        r@[6]@ == "COMMAND"@,
{
    let mut header: Vec<String> = Vec::new();
    header.push(String::from_str("NAME"));
    header.push(String::from_str("IS ENABLED"));
    header.push(String::from_str("RESTART POLICY"));
    header.push(String::from_str("STATE"));
    header.push(String::from_str("LIVENESS"));
    header.push(String::from_str("UPTIME"));
    header.push(String::from_str("COMMAND"));
    header
}

} // verus!
