use unitman::syslog::{Server, SyslogMessage, SyslogMsg};

fn sample_msg() -> SyslogMsg {
    SyslogMsg {
        from_host: String::from("10.0.0.7"),
        from_port: 40514,
        facility: 4,
        severity: 6,
        version: 1,
        timestamp: Some(1700000000000),
        hostname: Some(String::from("box")),
        appname: Some(String::from("sshd")),
        procid: Some(String::from("4242")),
        msgid: None,
        sdata: Some(vec![
            (String::from("a"), String::from("b")),
            (String::from("c"), String::from("d")),
        ]),
        msg: Some(String::from("accepted connection")),
    }
}

#[test]
fn from_syslogmsg_carries_the_fields_over() {
    let message = SyslogMessage::from_syslogmsg(sample_msg());
    assert_eq!(message.get_id(), None);
    assert_eq!(message.get_from_host(), "10.0.0.7");
    assert_eq!(message.get_from_port(), 40514);
    assert_eq!(message.get_facility(), 4);
    assert_eq!(message.get_severity(), 6);
    assert_eq!(message.get_version(), 1);
    assert_eq!(message.get_timestamp(), Some(1700000000000));
    assert_eq!(message.get_hostname(), Some(String::from("box")));
    assert_eq!(message.get_appname(), Some(String::from("sshd")));
    assert_eq!(message.get_procid(), Some(String::from("4242")));
    assert_eq!(message.get_msgid(), None);
    assert_eq!(message.get_msg(), Some(String::from("accepted connection")));
}

#[test]
fn structured_data_renders_pair_by_pair() {
    let message = SyslogMessage::from_syslogmsg(sample_msg());
    assert_eq!(
        message.get_sdata(),
        Some(String::from("{\"a\":\"b\",\"c\":\"d\",}"))
    );
    let none = SyslogMessage::convert_sdata_to_json(&None);
    assert_eq!(none, None);
    let empty = SyslogMessage::convert_sdata_to_json(&Some(vec![]));
    assert_eq!(empty, Some(String::from("{}")));
}

#[test]
fn zero_timestamp_reads_as_absent() {
    let message = SyslogMessage::new(
        Some(9),
        String::from("h"),
        0,
        1,
        2,
        1,
        Some(0),
        None,
        None,
        None,
        None,
        None,
        None,
    );
    assert_eq!(message.get_timestamp(), None);
    assert_eq!(message.get_id(), Some(9));
}

#[test]
fn listener_defaults_apply() {
    let server = Server { host: None, port: None };
    assert_eq!(server.get_host(), "localhost");
    assert_eq!(server.get_port(), 514);
    let bound = Server { host: Some(String::from("0.0.0.0")), port: Some(5514) };
    assert_eq!(bound.get_host(), "0.0.0.0");
    assert_eq!(bound.get_port(), 5514);
}
