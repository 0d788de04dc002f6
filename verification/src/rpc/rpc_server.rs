//! The control-plane dispatcher: one request in, one reply out.
//!
//! The socket that carries the bytes lives outside the library; it
//! hands each received request here and sends back the reply.  A
//! malformed body yields a `status = false` reply and the socket
//! stays open; the supervisor never dies of a bad request.

use vstd::prelude::*;
use vstd::utf8::encode_utf8;

use crate::process::{KillOutcome, SpawnOutcome};
use crate::rpc::converters::{convert_units_to_proto, spec_info_of};
use crate::rpc::messages::{
    encode_text_payload, encode_unit_list, decode_text_payload, lemma_payload_text_unique,
    rpc_method_from_code, spec_payload_is, spec_text_decodes, RpcMethod, RpcRequest, RpcResponse,
    UnitInfo,
};
use crate::unit_manager::{is_first_match, no_match, UnitManager};
use crate::unit::all_reachable_ready;
verus! {

/// Every string a unit would put in its snapshot fits a length
/// field, and so does its argument count.
pub open spec fn unit_strings_encodable(u: crate::unit::Unit) -> bool {
    &&& encode_utf8(u.name@).len() <= 0xffff_ffff
    &&& encode_utf8(u.process.executable@).len() <= 0xffff_ffff
    &&& u.process.arguments@.len() <= 0xffff_ffff
    &&& forall|k: int|
        0 <= k < u.process.arguments@.len() ==> encode_utf8(
            #[trigger] u.process.arguments@[k]@,
        ).len() <= 0xffff_ffff
}

/// Every string of every unit fits its snapshot's length fields, so
/// the whole table can be listed.
pub open spec fn spec_list_ok(m: UnitManager) -> bool {
    &&& m.units@.len() <= 0xffff_ffff
    &&& forall|k: int| 0 <= k < m.units@.len() ==> unit_strings_encodable(#[trigger] m.units@[k])
}

/// Handles one decoded request against the manager, one method per
/// row of the dispatch table: `Ping` echoes, `ListUnits` snapshots,
/// `StartUnit` and `StopUnit` mutate, anything else is `Unknown`.
/// Every reply echoes the handled method code; a `status = false`
/// reply carries an error and no payload.
pub trait RpcRequestHandler {
    fn handle_request(
        &self,
        manager: &mut UnitManager,
        request: &RpcRequest,
        spawns: &Vec<SpawnOutcome>,
        kill: &KillOutcome,
        now_s: u64,
    ) -> (r: RpcResponse)
        requires
            old(manager).wf(),
            spawns@.len() == old(manager).units@.len(),
        ensures
            final(manager).wf(),
            final(manager).units@.len() == old(manager).units@.len(),
            final(manager).stop_requested == old(manager).stop_requested,
            1 <= request.method <= 4 ==> r.method == request.method,
            !(1 <= request.method <= 4) ==> r.method == RpcMethod::Unknown.spec_value()
                && !r.status && *final(manager) == *old(manager) && r.error@
                == "Unknown method"@,
            r.status ==> r.error@.len() == 0,
            !r.status ==> r.error@.len() > 0 && r.data@.len() == 0,
            request.method == RpcMethod::Ping.spec_value() ==> *final(manager) == *old(manager)
                && (r.status <==> spec_text_decodes(request.data@)) && (r.status ==> r.data@
                == crate::rpc::messages::spec_text_payload_bytes("pong"@)),
            request.method == RpcMethod::ListUnits.spec_value() ==> *final(manager) == *old(manager) && (r.status <==> request.data@.len() == 0 && spec_list_ok(*old(manager))),
            request.method == RpcMethod::StartUnit.spec_value() ==> {
                &&& (!spec_text_decodes(request.data@) ==> !r.status && *final(manager) == *old(manager))
                &&& (forall|name: Seq<char>|
                    #[trigger] spec_payload_is(request.data@, name) && old(manager).stop_requested ==> !r.status && *final(manager) == *old(manager))
                &&& (forall|name: Seq<char>|
                    #[trigger] spec_payload_is(request.data@, name) && !old(manager).stop_requested && no_match(old(manager).units@, name) ==> !r.status
                        && *final(manager) == *old(manager))
                &&& (forall|name: Seq<char>, j: int|
                    #![trigger spec_payload_is(request.data@, name), is_first_match(old(manager).units@, name, j)]
                    spec_payload_is(request.data@, name) && !old(manager).stop_requested
                        && is_first_match(old(manager).units@, name, j) && old(manager).units@[
                        j
                    ].spec_is_running() ==> r.status && *final(manager) == *old(manager))
                &&& (forall|name: Seq<char>, j: int|
                    #![trigger spec_payload_is(request.data@, name), is_first_match(old(manager).units@, name, j)]
                    spec_payload_is(request.data@, name) && is_first_match(
                        old(manager).units@,
                        name,
                        j,
                    ) && !old(manager).units@[j].spec_is_running() && r.status ==> final(manager).units@[j].state is Running && final(manager).units@[
                        j
                    ].restart_policy is DisabledTemporarily && final(manager).units@[
                        j
                    ].probe_manager.is_running)
                &&& (forall|name: Seq<char>, j: int|
                    #![trigger spec_payload_is(request.data@, name), is_first_match(old(manager).units@, name, j)]
                    spec_payload_is(request.data@, name) && !old(manager).stop_requested
                        && is_first_match(old(manager).units@, name, j) && old(manager).units@[
                        j
                    ].enabled && all_reachable_ready(old(manager).units@, j, spawns@)
                        ==> r.status)
            },
            request.method == RpcMethod::StopUnit.spec_value() ==> {
                &&& (!spec_text_decodes(request.data@) ==> !r.status && *final(manager) == *old(manager))
                &&& (forall|name: Seq<char>|
                    #[trigger] spec_payload_is(request.data@, name) && no_match(
                        old(manager).units@,
                        name,
                    ) ==> !r.status && *final(manager) == *old(manager))
                &&& (forall|name: Seq<char>, j: int|
                    #![trigger spec_payload_is(request.data@, name), is_first_match(old(manager).units@, name, j)]
                    spec_payload_is(request.data@, name) && is_first_match(
                        old(manager).units@,
                        name,
                        j,
                    ) && !old(manager).units@[j].spec_is_running() ==> r.status && *final(manager)
                        == *old(manager))
                &&& (forall|name: Seq<char>, j: int|
                    #![trigger spec_payload_is(request.data@, name), is_first_match(old(manager).units@, name, j)]
                    spec_payload_is(request.data@, name) && is_first_match(
                        old(manager).units@,
                        name,
                        j,
                    ) && old(manager).units@[j].spec_is_running() ==> (r.status <==> !(old(manager).units@[j].process.child is Some && (kill is KillFailed
                        || kill is WaitFailed))))
                &&& (forall|name: Seq<char>, j: int|
                    #![trigger spec_payload_is(request.data@, name), is_first_match(old(manager).units@, name, j)]
                    spec_payload_is(request.data@, name) && is_first_match(
                        old(manager).units@,
                        name,
                        j,
                    ) && old(manager).units@[j].spec_is_running() && r.status ==> final(manager).units@[j].state is Stopped && !final(manager).units@[
                        j
                    ].spec_is_running())
            },
    ;
}

/// The reply for a request whose envelope did not decode: the
/// `Unknown` method code, `status = false`, and the parse failure
/// named.  The transport sends this without consulting the manager.
pub fn parse_failure_reply() -> (r: RpcResponse)
    ensures
        r.method == RpcMethod::Unknown.spec_value(),
        !r.status,
        r.data@.len() == 0,
        r.error@ == "Failed to parse request"@,
        r.error@.len() > 0,
{
    proof {
        reveal_strlit("Failed to parse request");
    }
    RpcResponse {
        method: 0,
        status: false,
        data: Vec::new(),
        error: String::from_str("Failed to parse request"),
    }
}

/// The supervisor's handler: dispatches by method code.
pub struct ResponseHandler {}

impl ResponseHandler {
    pub fn new() -> (r: ResponseHandler)
        ensures
            true,
    {
        ResponseHandler {}
    }

    /// The reply to a method code outside the table: `status =
    /// false`, the `Unknown` code echoed, and an error naming the
    /// failure.
    pub fn handle_unknown(&self) -> (r: RpcResponse)
        ensures
            r.method == RpcMethod::Unknown.spec_value(),
            !r.status,
            r.data@.len() == 0,
            r.error@ == "Unknown method"@,
            r.error@.len() > 0,
    {
        proof {
            reveal_strlit("Unknown method");
        }
        RpcResponse {
            method: 0,
            status: false,
            data: Vec::new(),
            error: String::from_str("Unknown method"),
        }
    }
}

/// Answers a ping: echoes the `Ping` method code and, when the
/// payload parses, replies `"pong"`; a malformed payload is reported
/// in the error text.
pub fn handle_ping(request: &RpcRequest) -> (r: RpcResponse)
    ensures
        r.method == RpcMethod::Ping.spec_value(),
        r.status <==> spec_text_decodes(request.data@),
        r.status ==> r.data@ == crate::rpc::messages::spec_text_payload_bytes("pong"@),
        r.status ==> r.error@.len() == 0,
        !r.status ==> r.data@.len() == 0 && r.error@.len() > 0,
{
    let decoded = decode_text_payload(&request.data);
    match decoded {
        Some(_message) => {
            let pong = String::from_str("pong");
            proof {
                reveal_strlit("pong");
                vstd::utf8::is_ascii_chars_encode_utf8("pong"@);
                assert(vstd::utf8::is_ascii_chars("pong"@));
            }
            let data = encode_text_payload(&pong);
            proof {
                if request.data@.len() != 0 {
                    let m = _message;
                    assert(spec_text_decodes(request.data@)) by {
                        assert(request.data@ == crate::rpc::messages::spec_text_payload_bytes(
                            m@,
                        ));

                    }
                }
            }
            RpcResponse { method: 1, status: true, data, error: String::new() }
        },
        None => {
            proof {
                reveal_strlit("Failed to parse ping request");
            }
            RpcResponse {
                method: 1,
                status: false,
                data: Vec::new(),
                error: String::from_str("Failed to parse ping request"),
            }
        },
    }
}

/// Lists every unit: echoes the `ListUnits` method code and returns
/// the snapshots; only an empty payload is a well-formed list
/// request.
pub fn handle_list_units(request: &RpcRequest, manager: &UnitManager, now_s: u64) -> (r:
    RpcResponse)
    requires
        manager.units@.len() <= 0xffff_ffff,
    ensures
        r.method == RpcMethod::ListUnits.spec_value(),
        r.status <==> request.data@.len() == 0 && (forall|k: int|
            0 <= k < manager.units@.len() ==> unit_strings_encodable(
                #[trigger] manager.units@[k],
            )),
        r.status ==> r.error@.len() == 0,
        !r.status ==> r.data@.len() == 0 && r.error@.len() > 0,
        r.status ==> exists|infos: Seq<UnitInfo>|
            {
                &&& infos.len() == manager.units@.len()
                &&& (forall|k: int|
                    0 <= k < infos.len() ==> spec_info_of(
                        #[trigger] infos[k],
                        manager.units@[k],
                        now_s,
                    ))
                &&& r.data@ == crate::rpc::messages::spec_unit_list_bytes(infos)
            },
{
    if request.data.len() != 0 {
        proof {
            reveal_strlit("Failed to parse list units request");
        }
        return RpcResponse {
            method: 2,
            status: false,
            data: Vec::new(),
            error: String::from_str("Failed to parse list units request"),
        };
    }
    let infos = convert_units_to_proto(manager.get_units(), now_s);
    let encodable = check_infos_encodable(&infos);
    proof {
        assert forall|k: int|
            0 <= k < infos@.len() implies (crate::rpc::messages::unit_info_encodable(
            #[trigger] infos@[k],
        ) == unit_strings_encodable(manager.units@[k])) by {
            assert(spec_info_of(infos@[k], manager.units@[k], now_s));
            assert(infos@[k].name@ == manager.units@[k].name@);
            assert(infos@[k].executable@ == manager.units@[k].process.executable@);
            assert(infos@[k].arguments@.len() == manager.units@[k].process.arguments@.len());
            assert forall|q: int|
                0 <= q < infos@[k].arguments@.len() implies #[trigger] infos@[k].arguments@[q]@
                == manager.units@[k].process.arguments@[q]@ by {}
        }
    }
    if !encodable {
        proof {
            reveal_strlit("Failed to serialize list units response");
        }
        return RpcResponse {
            method: 2,
            status: false,
            data: Vec::new(),
            error: String::from_str("Failed to serialize list units response"),
        };
    }
    let data = encode_unit_list(&infos);
    proof {
        assert(r_list_witness(infos@, manager.units@, now_s, data@));
    }
    RpcResponse { method: 2, status: true, data, error: String::new() }
}

/// The witness behind `handle_list_units`' success clause.
spec fn r_list_witness(
    infos: Seq<UnitInfo>,
    units: Seq<crate::unit::Unit>,
    now_s: u64,
    data: Seq<u8>,
) -> bool {
    &&& infos.len() == units.len()
    &&& (forall|k: int|
        0 <= k < infos.len() ==> spec_info_of(#[trigger] infos[k], units[k], now_s))
    &&& data == crate::rpc::messages::spec_unit_list_bytes(infos)
}

/// Whether every snapshot's strings fit their length fields; in
/// practice they always do, but the dispatcher reports rather than
/// truncates when they would not.
fn check_infos_encodable(infos: &Vec<UnitInfo>) -> (r: bool)
    ensures
        r == forall|k: int|
            0 <= k < infos@.len() ==> crate::rpc::messages::unit_info_encodable(
                #[trigger] infos@[k],
            ),
{
    let mut k: usize = 0;
    while k < infos.len()
        invariant
            0 <= k <= infos@.len(),
            forall|q: int|
                0 <= q < k ==> crate::rpc::messages::unit_info_encodable(#[trigger] infos@[q]),
        decreases infos@.len() - k,
    {
        if !check_one_info_encodable(&infos[k]) {
            return false;
        }
        k = k + 1;
    }
    true
}

fn check_one_info_encodable(info: &UnitInfo) -> (r: bool)
    ensures
        r == crate::rpc::messages::unit_info_encodable(*info),
{
    if info.name.as_str().as_bytes().len() > 0xffff_ffff {
        return false;
    }
    if info.executable.as_str().as_bytes().len() > 0xffff_ffff {
        return false;
    }
    if info.arguments.len() > 0xffff_ffff {
        return false;
    }
    let mut k: usize = 0;
    while k < info.arguments.len()
        invariant
            0 <= k <= info.arguments@.len(),
            forall|q: int|
                0 <= q < k ==> encode_utf8(#[trigger] info.arguments@[q]@).len() <= 0xffff_ffff,
        decreases info.arguments@.len() - k,
    {
        if info.arguments[k].as_str().as_bytes().len() > 0xffff_ffff {
            return false;
        }
        k = k + 1;
    }
    true
}

/// Starts the named unit: echoes the `StartUnit` method code and
/// reports the manager's verdict; a malformed payload is reported in
/// the error text.  Everything `UnitManager::start_unit` promises is
/// carried through for whatever name the payload reads as.
pub fn handle_start_unit(
    request: &RpcRequest,
    manager: &mut UnitManager,
    spawns: &Vec<SpawnOutcome>,
) -> (r: RpcResponse)
    requires
        old(manager).wf(),
        spawns@.len() == old(manager).units@.len(),
    ensures
        final(manager).wf(),
        final(manager).units@.len() == old(manager).units@.len(),
        final(manager).stop_requested == old(manager).stop_requested,
        r.method == RpcMethod::StartUnit.spec_value(),
        !r.status ==> r.data@.len() == 0 && r.error@.len() > 0,
        r.status ==> r.data@.len() == 0 && r.error@.len() == 0,
        r.status ==> spec_text_decodes(request.data@),
        !spec_text_decodes(request.data@) ==> !r.status && *final(manager) == *old(manager),
        forall|name: Seq<char>|
            #[trigger] spec_payload_is(request.data@, name) && old(manager).stop_requested
                ==> !r.status && *final(manager) == *old(manager),
        forall|name: Seq<char>|
            #[trigger] spec_payload_is(request.data@, name) && !old(manager).stop_requested
                && no_match(old(manager).units@, name) ==> !r.status && *final(manager) == *old(manager),
        forall|name: Seq<char>, j: int|
            #![trigger spec_payload_is(request.data@, name), is_first_match(old(manager).units@, name, j)]
            spec_payload_is(request.data@, name) && !old(manager).stop_requested
                && is_first_match(old(manager).units@, name, j) && old(manager).units@[
                j
            ].spec_is_running() ==> r.status && *final(manager) == *old(manager),
        forall|name: Seq<char>, j: int|
            #![trigger spec_payload_is(request.data@, name), is_first_match(old(manager).units@, name, j)]
            spec_payload_is(request.data@, name) && is_first_match(
                old(manager).units@,
                name,
                j,
            ) && !old(manager).units@[j].spec_is_running() && r.status ==> {
                &&& final(manager).units@[j].state is Running
                &&& final(manager).units@[j].process.child is Some
                &&& final(manager).units@[j].restart_policy is DisabledTemporarily
                &&& final(manager).units@[j].probe_manager.is_running
            },
        forall|name: Seq<char>, j: int|
            #![trigger spec_payload_is(request.data@, name), is_first_match(old(manager).units@, name, j)]
            spec_payload_is(request.data@, name) && !old(manager).stop_requested
                && is_first_match(old(manager).units@, name, j) && old(manager).units@[j].enabled
                && all_reachable_ready(old(manager).units@, j, spawns@) ==> r.status,
{
    let decoded = decode_text_payload(&request.data);
    match decoded {
        Some(unit_name) => {
            let ghost name_view = unit_name@;
            proof {
                assert(spec_payload_is(request.data@, name_view));
                assert forall|name: Seq<char>| #[trigger]
                    spec_payload_is(request.data@, name) implies name == name_view by {
                    lemma_payload_text_unique(request.data@, name, name_view);
                }
            }
            let result = manager.start_unit(unit_name, spawns);
            match result {
                Ok(_) => RpcResponse {
                    method: 3,
                    status: true,
                    data: Vec::new(),
                    error: String::new(),
                },
                Err(error) => {
                    proof {
                        reveal_strlit("Failed to start unit: ");
                    }
                    let mut message = String::from_str("Failed to start unit: ");
                    message.append(error.as_str());
                    RpcResponse { method: 3, status: false, data: Vec::new(), error: message }
                },
            }
        },
        None => {
            proof {
                reveal_strlit("Failed to parse start unit request");
            }
            RpcResponse {
                method: 3,
                status: false,
                data: Vec::new(),
                error: String::from_str("Failed to parse start unit request"),
            }
        },
    }
}

/// Stops the named unit without keeping it eligible for automatic
/// restart: echoes the `StopUnit` method code and reports the
/// manager's verdict.  Everything `UnitManager::stop_unit` promises
/// is carried through for whatever name the payload reads as; in
/// particular an unknown name yields `status = false` with the name
/// in the error text.
pub fn handle_stop_unit(
    request: &RpcRequest,
    manager: &mut UnitManager,
    kill: &KillOutcome,
) -> (r: RpcResponse)
    requires
        old(manager).wf(),
    ensures
        final(manager).wf(),
        final(manager).units@.len() == old(manager).units@.len(),
        final(manager).stop_requested == old(manager).stop_requested,
        r.method == RpcMethod::StopUnit.spec_value(),
        !r.status ==> r.data@.len() == 0 && r.error@.len() > 0,
        r.status ==> r.data@.len() == 0 && r.error@.len() == 0,
        r.status ==> spec_text_decodes(request.data@),
        !spec_text_decodes(request.data@) ==> !r.status && *final(manager) == *old(manager),
        forall|name: Seq<char>|
            #[trigger] spec_payload_is(request.data@, name) && no_match(
                old(manager).units@,
                name,
            ) ==> !r.status && *final(manager) == *old(manager) && r.error@
                == "Failed to stop unit: "@ + ("Unit "@ + name + " not found"@),
        forall|name: Seq<char>, j: int|
            #![trigger spec_payload_is(request.data@, name), is_first_match(old(manager).units@, name, j)]
            spec_payload_is(request.data@, name) && is_first_match(
                old(manager).units@,
                name,
                j,
            ) && !old(manager).units@[j].spec_is_running() ==> r.status && *final(manager)
                == *old(manager),
        forall|name: Seq<char>, j: int|
            #![trigger spec_payload_is(request.data@, name), is_first_match(old(manager).units@, name, j)]
            spec_payload_is(request.data@, name) && is_first_match(
                old(manager).units@,
                name,
                j,
            ) && old(manager).units@[j].spec_is_running() ==> (r.status <==> !(old(manager).units@[j].process.child is Some && (kill is KillFailed || kill is WaitFailed))),
        forall|name: Seq<char>, j: int|
            #![trigger spec_payload_is(request.data@, name), is_first_match(old(manager).units@, name, j)]
            spec_payload_is(request.data@, name) && is_first_match(
                old(manager).units@,
                name,
                j,
            ) && old(manager).units@[j].spec_is_running() && r.status ==> {
                &&& final(manager).units@[j].state is Stopped
                &&& !final(manager).units@[j].spec_is_running()
                &&& final(manager).units@[j].restart_policy is DisabledTemporarily
            },
{
    let decoded = decode_text_payload(&request.data);
    match decoded {
        Some(unit_name) => {
            let ghost name_view = unit_name@;
            proof {
                assert(spec_payload_is(request.data@, name_view));
                assert forall|name: Seq<char>| #[trigger]
                    spec_payload_is(request.data@, name) implies name == name_view by {
                    lemma_payload_text_unique(request.data@, name, name_view);
                }
            }
            let result = manager.stop_unit(unit_name, false, kill);
            match result {
                Ok(_) => RpcResponse {
                    method: 4,
                    status: true,
                    data: Vec::new(),
                    error: String::new(),
                },
                Err(error) => {
                    proof {
                        reveal_strlit("Failed to stop unit: ");
                    }
                    let mut message = String::from_str("Failed to stop unit: ");
                    message.append(error.as_str());
                    RpcResponse { method: 4, status: false, data: Vec::new(), error: message }
                },
            }
        },
        None => {
            proof {
                reveal_strlit("Failed to parse stop unit request");
            }
            RpcResponse {
                method: 4,
                status: false,
                data: Vec::new(),
                error: String::from_str("Failed to parse stop unit request"),
            }
        },
    }
}

impl RpcRequestHandler for ResponseHandler {
    /// One request in, one reply out: decode the method code,
    /// dispatch, echo the code in the reply.
    fn handle_request(
        &self,
        manager: &mut UnitManager,
        request: &RpcRequest,
        spawns: &Vec<SpawnOutcome>,
        kill: &KillOutcome,
        now_s: u64,
    ) -> (r: RpcResponse) {
        let method = rpc_method_from_code(request.method);
        match method {
            RpcMethod::Ping => handle_ping(request),
            RpcMethod::ListUnits => {
                if manager.unit_count() > 0xffff_ffff {
                    proof {
                        reveal_strlit("Failed to serialize list units response");
                    }
                    return RpcResponse {
                        method: 2,
                        status: false,
                        data: Vec::new(),
                        error: String::from_str("Failed to serialize list units response"),
                    };
                }
                handle_list_units(request, manager, now_s)
            },
            RpcMethod::StartUnit => handle_start_unit(request, manager, spawns),
            RpcMethod::StopUnit => handle_stop_unit(request, manager, kill),
            RpcMethod::Unknown => self.handle_unknown(),
        }
    }
}

} // verus!
