use unitman::host::{current_gid, current_uid, format_seconds};
use unitman::process::{KillOutcome, SpawnOutcome};
use unitman::restart_policy::RestartPolicy;
use unitman::rpc::client::{
    build_list_units_request, build_ping_request, build_start_unit_request,
    build_stop_unit_request, parse_list_units_reply, parse_text_reply, table_header, unit_row,
};
use unitman::rpc::messages::{
    decode_rpc_request, decode_rpc_response, decode_text_payload, decode_unit_list,
    encode_rpc_request, encode_rpc_response, encode_text_payload, encode_unit_list, RpcRequest,
    RpcResponse, UnitInfo,
};
use unitman::rpc::rpc_server::{
    handle_list_units, handle_ping, handle_start_unit, handle_stop_unit, ResponseHandler,
    RpcRequestHandler,
};
use unitman::unit::Unit;
use unitman::unit_manager::UnitManager;

fn sample_info() -> UnitInfo {
    UnitInfo {
        name: String::from("web"),
        executable: String::from("httpd"),
        arguments: vec![String::from("-p"), String::from("80")],
        restart_policy: 0,
        uid: 10,
        gid: 20,
        enabled: true,
        process_probe_state: 1,
        liveness_probe_state: 2,
        state: 2,
        pid: 321,
        uptime: 90,
    }
}

fn one_unit_manager() -> UnitManager {
    let mut manager = UnitManager::new();
    manager.add_unit(Unit::new(
        String::from("web"),
        String::from("httpd"),
        vec![],
        RestartPolicy::Always,
        current_uid(),
        current_gid(),
        true,
    ));
    manager
}

#[test]
fn request_envelope_round_trips() {
    let request = RpcRequest { method: 3, data: vec![1, 2, 3, 255] };
    let bytes = encode_rpc_request(&request);
    let decoded = decode_rpc_request(&bytes).unwrap();
    assert_eq!(decoded.method, 3);
    assert_eq!(decoded.data, vec![1, 2, 3, 255]);
    // a truncated envelope is rejected
    let truncated: Vec<u8> = bytes[..bytes.len() - 1].to_vec();
    assert!(decode_rpc_request(&truncated).is_none());
}

#[test]
fn response_envelope_round_trips() {
    let response = RpcResponse {
        method: 4,
        status: false,
        data: vec![],
        error: String::from("Unit zzz not found"),
    };
    let bytes = encode_rpc_response(&response);
    let decoded = decode_rpc_response(&bytes).unwrap();
    assert_eq!(decoded.method, 4);
    assert_eq!(decoded.status, false);
    assert_eq!(decoded.data.len(), 0);
    assert_eq!(decoded.error, "Unit zzz not found");
}

#[test]
fn text_payload_round_trips_and_defaults_when_empty() {
    let bytes = encode_text_payload(&String::from("pong"));
    assert_eq!(decode_text_payload(&bytes).unwrap(), "pong");
    let empty: Vec<u8> = vec![];
    assert_eq!(decode_text_payload(&empty).unwrap(), "");
    let garbage: Vec<u8> = vec![9, 9];
    assert!(decode_text_payload(&garbage).is_none());
}

#[test]
fn unit_list_round_trips() {
    let bytes = encode_unit_list(&vec![sample_info()]);
    let decoded = decode_unit_list(&bytes).unwrap();
    assert_eq!(decoded.len(), 1);
    assert_eq!(decoded[0].name, "web");
    assert_eq!(decoded[0].executable, "httpd");
    assert_eq!(decoded[0].arguments, vec!["-p", "80"]);
    assert_eq!(decoded[0].uptime, 90);
    assert_eq!(decoded[0].pid, 321);
}

#[test]
fn ping_is_answered_with_pong() {
    let request = build_ping_request(String::from("ping"));
    assert_eq!(request.method, 1);
    let response = handle_ping(&request);
    assert_eq!(response.method, 1);
    assert_eq!(response.status, true);
    let message = parse_text_reply(&response).unwrap();
    assert_eq!(message, "pong");
}

#[test]
fn unknown_method_is_rejected_and_the_server_lives_on() {
    let handler = ResponseHandler::new();
    let mut manager = one_unit_manager();
    let bad = RpcRequest { method: 999, data: vec![] };
    let spawns = vec![SpawnOutcome::Spawned { pid: 5, now: 0 }];
    let response = handler.handle_request(&mut manager, &bad, &spawns, &KillOutcome::Killed, 0);
    assert_eq!(response.status, false);
    assert_eq!(response.method, 0);
    assert!(response.error.contains("Unknown method"));
    // the next, well-formed request is still served
    let ping = build_ping_request(String::from("ping"));
    let pong = handler.handle_request(&mut manager, &ping, &spawns, &KillOutcome::Killed, 0);
    assert_eq!(pong.status, true);
}

#[test]
fn stopping_an_unknown_unit_names_it_in_the_error() {
    let mut manager = one_unit_manager();
    let request = build_stop_unit_request(String::from("zzz"));
    let response = handle_stop_unit(&request, &mut manager, &KillOutcome::Killed);
    assert_eq!(response.status, false);
    assert!(response.error.contains("zzz"));
}

#[test]
fn start_and_stop_through_the_control_plane() {
    let mut manager = one_unit_manager();
    let spawns = vec![SpawnOutcome::Spawned { pid: 5, now: 0 }];
    let start = handle_start_unit(&build_start_unit_request(String::from("web")), &mut manager, &spawns);
    assert_eq!(start.status, true);
    assert_eq!(manager.units[0].is_running(), true);
    let stop = handle_stop_unit(&build_stop_unit_request(String::from("web")), &mut manager, &KillOutcome::Killed);
    assert_eq!(stop.status, true);
    assert_eq!(manager.units[0].is_running(), false);
}

#[test]
fn list_units_snapshots_the_table() {
    let mut manager = one_unit_manager();
    let spawns = vec![SpawnOutcome::Spawned { pid: 77, now: 10 }];
    manager.start_unit(String::from("web"), &spawns).unwrap();
    let request = build_list_units_request();
    let response = handle_list_units(&request, &manager, 25);
    assert_eq!(response.status, true);
    let units = parse_list_units_reply(&response).unwrap();
    assert_eq!(units.len(), 1);
    assert_eq!(units[0].name, "web");
    assert_eq!(units[0].pid, 77);
    assert_eq!(units[0].uptime, 15);
    // started through the control plane: policy demoted, probe bound
    assert_eq!(units[0].restart_policy, 2);
    // no probe cycle has run yet: running but degraded
    assert_eq!(units[0].state, 3);
}

#[test]
fn malformed_list_request_fails_but_does_not_kill_the_server() {
    let manager = one_unit_manager();
    let bad = RpcRequest { method: 2, data: vec![1] };
    let response = handle_list_units(&bad, &manager, 0);
    assert_eq!(response.status, false);
    assert!(response.error.contains("parse"));
}

#[test]
fn rows_render_the_snapshot() {
    let row = unit_row(&sample_info());
    assert_eq!(row.len(), 7);
    assert_eq!(row[0], "web");
    assert_eq!(row[1], "Enabled");
    assert_eq!(row[2], "Always");
    assert_eq!(row[3], "Running (Healthy)");
    assert_eq!(row[4], "Dead");
    assert_eq!(row[5], "1m 30s");
    assert_eq!(row[6], "httpd -p 80");
    let header = table_header();
    assert_eq!(header[0], "NAME");
    assert_eq!(header[6], "COMMAND");
}

#[test]
fn a_stopped_unit_shows_a_dash_for_uptime() {
    let mut info = sample_info();
    info.pid = -1;
    info.uptime = 0;
    info.state = 5;
    let row = unit_row(&info);
    assert_eq!(row[3], "Stopped");
    assert_eq!(row[5], "-");
}

#[test]
fn durations_format_as_humans_read_them() {
    assert_eq!(format_seconds(90), "1m 30s");
    assert_eq!(format_seconds(0), "0s");
    assert_eq!(format_seconds(9420), "2h 37m");
}

#[test]
fn process_restart_composes_kill_and_spawn() {
    let mut process = unitman::process::Process::new(String::from("sleep"), vec![], 0, 0);
    process.start(&SpawnOutcome::Spawned { pid: 9, now: 1 }).unwrap();
    let refused = KillOutcome::KillFailed { error: String::from("not permitted") };
    let held = process.restart(&refused, &SpawnOutcome::Spawned { pid: 10, now: 2 });
    assert!(held.is_err());
    assert_eq!(process.get_pid(), Some(9));
    let swapped = process.restart(&KillOutcome::Killed, &SpawnOutcome::Spawned { pid: 10, now: 2 });
    assert_eq!(swapped.unwrap(), true);
    assert_eq!(process.get_pid(), Some(10));
    let failed = process.restart(
        &KillOutcome::Killed,
        &SpawnOutcome::Failed { error: String::from("gone") },
    );
    assert!(failed.is_err());
    assert_eq!(process.get_pid(), None);
}

#[test]
fn an_overclaimed_length_field_is_rejected() {
    // a length field promising four gigabytes with no body behind it
    let overclaimed: Vec<u8> = vec![255, 255, 255, 255];
    assert!(decode_text_payload(&overclaimed).is_none());
    assert!(decode_rpc_request(&overclaimed).is_none());
    assert!(decode_unit_list(&overclaimed).is_none());
}
