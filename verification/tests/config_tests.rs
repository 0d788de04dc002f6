use unitman::config::application::Application;
use unitman::config::configuration::Configuration;
use unitman::config::process_probe::ProcessProbe;
use unitman::config::rpc_server::RpcServer;
use unitman::config::unit as config_unit;
use unitman::log_level::{parse_log_level, LogLevel};
use unitman::restart_policy::{parse_restart_policy, RestartPolicy};

fn block(
    name: &str,
    executable: &str,
    arguments: Vec<&str>,
    dependencies: Vec<&str>,
    policy: Option<RestartPolicy>,
) -> config_unit::Unit {
    config_unit::Unit {
        name: String::from(name),
        executable: String::from(executable),
        arguments: Some(arguments.into_iter().map(String::from).collect()),
        dependencies: Some(dependencies.into_iter().map(String::from).collect()),
        restart_policy: policy,
        user: None,
        group: None,
        enabled: Some(true),
        liveness_probe: None,
    }
}

fn sample_configuration() -> Configuration {
    Configuration {
        application: Application { log_level: Some(LogLevel::Debug) },
        rpc_server: RpcServer {
            enabled: Some(true),
            bind_address: Some(String::from("ipc:///tmp/tsm-unitman.sock")),
        },
        units: vec![
            block("foo", "ls", vec!["-l", "-a"], vec![], Some(RestartPolicy::Always)),
            block("bar", "ps", vec!["aux"], vec!["foo"], Some(RestartPolicy::Never)),
        ],
    }
}

#[test]
fn build_units_should_work() {
    let configuration = sample_configuration();
    let units = configuration.build_units().unwrap();
    assert_eq!(units.len(), 2);
    assert_eq!(units[0].get_name(), "foo");
    assert_eq!(units[1].get_name(), "bar");
    assert_eq!(units[1].get_dependencies().len(), 1);
    assert_eq!(units[0].get_dependencies().len(), 0);
    // bar's one dependency resolves to foo's table index
    assert_eq!(units[1].get_dependencies()[0], 0);
}

#[test]
fn build_units_rejects_a_dependency_cycle() {
    let configuration = Configuration {
        application: Application { log_level: None },
        rpc_server: RpcServer { enabled: None, bind_address: None },
        units: vec![
            block("foo", "ls", vec![], vec!["bar"], None),
            block("bar", "ps", vec![], vec!["foo"], None),
        ],
    };
    let built = configuration.build_units();
    assert!(built.is_err());
    assert!(built.unwrap_err().contains("cycle"));
}

#[test]
fn build_units_skips_unknown_dependency_names() {
    let configuration = Configuration {
        application: Application { log_level: None },
        rpc_server: RpcServer { enabled: None, bind_address: None },
        units: vec![block("foo", "ls", vec![], vec!["missing"], None)],
    };
    let units = configuration.build_units().unwrap();
    assert_eq!(units[0].get_dependencies().len(), 0);
}

#[test]
fn empty_dependency_list_yields_no_prerequisites() {
    let mut no_deps = block("solo", "ls", vec![], vec![], None);
    no_deps.dependencies = None;
    let configuration = Configuration {
        application: Application { log_level: None },
        rpc_server: RpcServer { enabled: None, bind_address: None },
        units: vec![no_deps],
    };
    let units = configuration.build_units().unwrap();
    assert_eq!(units[0].get_dependencies().len(), 0);
    assert!(unitman::unit::Unit::start_plan(&units, 0).unwrap() == vec![0]);
}

#[test]
fn configuration_defaults_apply() {
    let application = Application { log_level: None };
    assert_eq!(application.get_log_level(), LogLevel::Info);
    let rpc = RpcServer { enabled: None, bind_address: None };
    assert_eq!(rpc.is_enabled(), true);
    assert_eq!(rpc.get_bind_address(), "ipc:///tmp/tsm-unitman.sock");
    let mut unnamed = block("u", "ls", vec![], vec![], None);
    unnamed.arguments = None;
    unnamed.enabled = None;
    assert_eq!(unnamed.get_arguments().len(), 0);
    assert_eq!(unnamed.get_restart_policy(), RestartPolicy::Always);
    assert_eq!(unnamed.is_enabled(), true);
}

#[test]
fn probe_stanza_defaults_apply() {
    let stanza = ProcessProbe {
        executable: String::from("ls"),
        arguments: None,
        timeout_s: None,
        interval_s: None,
    };
    assert_eq!(stanza.get_timeout_s(), 10);
    assert_eq!(stanza.get_interval_s(), 60);
    let probe = stanza.build(String::from("u"));
    assert_eq!(probe.name, "u");
    assert_eq!(probe.executable, "ls");
    assert_eq!(probe.timeout_s, 10);
    assert_eq!(probe.interval_s, 60);
}

#[test]
fn restart_policy_parses_without_regard_to_case() {
    assert_eq!(parse_restart_policy("always").unwrap(), RestartPolicy::Always);
    assert_eq!(parse_restart_policy("ALWAYS").unwrap(), RestartPolicy::Always);
    assert_eq!(parse_restart_policy("Never").unwrap(), RestartPolicy::Never);
    assert!(parse_restart_policy("sometimes").is_err());
    assert!(parse_restart_policy("").is_err());
}

#[test]
fn log_level_parses_without_regard_to_case() {
    assert_eq!(parse_log_level("debug").unwrap(), LogLevel::Debug);
    assert_eq!(parse_log_level("Info").unwrap(), LogLevel::Info);
    assert_eq!(parse_log_level("WARN").unwrap(), LogLevel::Warn);
    assert_eq!(parse_log_level("error").unwrap(), LogLevel::Error);
    assert!(parse_log_level("verbose").is_err());
    assert_eq!(LogLevel::Warn.to_string(), "warn");
}

#[test]
fn configured_user_resolves_through_the_system_database() {
    let mut with_user = block("u", "ls", vec![], vec![], None);
    with_user.user = Some(String::from("root"));
    assert_eq!(with_user.get_uid(), 0);
    let mut unknown_user = block("u", "ls", vec![], vec![], None);
    unknown_user.user = Some(String::from("no-such-user-here"));
    assert_eq!(unknown_user.get_uid(), unitman::host::current_uid());
}

#[test]
fn configured_group_resolves_through_the_system_database() {
    let mut with_group = block("u", "ls", vec![], vec![], None);
    with_group.group = Some(String::from("root"));
    assert_eq!(with_group.get_gid(), 0);
    let mut unknown_group = block("u", "ls", vec![], vec![], None);
    unknown_group.group = Some(String::from("no-such-group-here"));
    assert_eq!(unknown_group.get_gid(), unitman::host::current_gid());
}
