//! The log-manager's data model: the parsed syslog message as it is
//! persisted, and the listener's configuration.
//!
//! Receiving datagrams and writing rows happen outside the library;
//! what a datagram parses to is handed in as a `SyslogMsg` record.

use vstd::prelude::*;

verus! {

/// The `[server]` table of the log manager's configuration.
#[derive(Debug)]
pub struct Server {
    pub host: Option<String>,
    pub port: Option<u16>,
}

impl Server {
    /// The configured listen host; `localhost` by default.
    pub fn get_host(&self) -> (r: String)
        ensures
            self.host matches Some(host) ==> r == host,
            self.host is None ==> r@ == "localhost"@,
    {
        match &self.host {
            Some(host) => host.clone(),
            None => String::from_str("localhost"),
        }
    }

    /// The configured listen port; the syslog port by default.
    pub fn get_port(&self) -> (r: u16)
        ensures
            self.port matches Some(port) ==> r == port,
            self.port is None ==> r == 514,
    {
        match self.port {
            Some(port) => port,
            None => 514,
        }
    }
}

/// What one datagram parsed to: the sender's address, the priority
/// fields, and the optional header fields, as plain values.
#[derive(Debug)]
pub struct SyslogMsg {
    pub from_host: String,
    pub from_port: u16,
    pub facility: u8,
    pub severity: u8,
    pub version: u8,
    /// UTC milliseconds since the epoch, if the message carried one.
    pub timestamp: Option<u64>,
    pub hostname: Option<String>,
    pub appname: Option<String>,
    pub procid: Option<String>,
    pub msgid: Option<String>,
    /// Structured data, as key and value pairs.
    pub sdata: Option<Vec<(String, String)>>,
    pub msg: Option<String>,
}

/// A syslog message as it is persisted: the structured data already
/// rendered to its stored text form.
#[derive(Debug)]
pub struct SyslogMessage {
    pub id: Option<u64>,
    pub from_host: String,
    /// Port `0` is undefined.
    pub from_port: u16,
    pub facility: u8,
    pub severity: u8,
    pub version: u8,
    /// UTC milliseconds since the epoch; `0` is invalid.
    pub timestamp: Option<u64>,
    pub hostname: Option<String>,
    pub appname: Option<String>,
    pub procid: Option<String>,
    pub msgid: Option<String>,
    /// The structured data pairs as one stored text.
    pub sdata: Option<String>,
    pub msg: Option<String>,
}

/// The stored text of the structured-data pairs: every pair as
/// `"key":"value",` between braces, in order.
pub open spec fn spec_sdata_entries(pairs: Seq<(Seq<char>, Seq<char>)>) -> Seq<char>
    decreases pairs.len(),
{
    if pairs.len() == 0 {
        Seq::empty()
    } else {
        spec_sdata_entries(pairs.drop_last()) + "\""@ + pairs.last().0 + "\":\""@
            + pairs.last().1 + "\","@
    }
}

/// The whole stored text: the entries between braces.
pub open spec fn spec_sdata_text(pairs: Seq<(Seq<char>, Seq<char>)>) -> Seq<char> {
    "{"@ + spec_sdata_entries(pairs) + "}"@
}

/// The view of the key and value pairs.
pub open spec fn pairs_view(pairs: Seq<(String, String)>) -> Seq<(Seq<char>, Seq<char>)> {
    pairs.map_values(|p: (String, String)| (p.0@, p.1@))
}

impl SyslogMessage {
    pub fn new(
        id: Option<u64>,
        from_host: String,
        from_port: u16,
        facility: u8,
        severity: u8,
        version: u8,
        timestamp: Option<u64>,
        hostname: Option<String>,
        appname: Option<String>,
        procid: Option<String>,
        msgid: Option<String>,
        sdata: Option<String>,
        msg: Option<String>,
    ) -> (r: SyslogMessage)
        ensures
            r.id == id,
            r.from_host == from_host,
            r.from_port == from_port,
            r.facility == facility,
            r.severity == severity,
            r.version == version,
            r.timestamp == timestamp,
            r.hostname == hostname,
            r.appname == appname,
            r.procid == procid,
            r.msgid == msgid,
            r.sdata == sdata,
            r.msg == msg,
    {
        SyslogMessage {
            id,
            from_host,
            from_port,
            facility,
            severity,
            version,
            timestamp,
            hostname,
            appname,
            procid,
            msgid,
            sdata,
            msg,
        }
    }

    pub fn get_id(&self) -> (r: Option<u64>)
        ensures
            r == self.id,
    {
        self.id
    }

    pub fn get_from_host(&self) -> (r: String)
        ensures
            r == self.from_host,
    {
        self.from_host.clone()
    }

    pub fn get_from_port(&self) -> (r: u16)
        ensures
            r == self.from_port,
    {
        self.from_port
    }

    pub fn get_facility(&self) -> (r: u8)
        ensures
            r == self.facility,
    {
        self.facility
    }

    pub fn get_severity(&self) -> (r: u8)
        ensures
            r == self.severity,
    {
        self.severity
    }

    pub fn get_version(&self) -> (r: u8)
        ensures
            r == self.version,
    {
        self.version
    }

    /// The timestamp, with the invalid zero value read as absent.
    pub fn get_timestamp(&self) -> (r: Option<u64>)
        ensures
            (self.timestamp matches Some(ts) && ts != 0) ==> r == self.timestamp,
            self.timestamp == Some(0u64) ==> r is None,
            self.timestamp is None ==> r is None,
    {
        match self.timestamp {
            Some(ts) => {
                if ts == 0 {
                    None
                } else {
                    Some(ts)
                }
            },
            None => None,
        }
    }

    pub fn get_hostname(&self) -> (r: Option<String>)
        ensures
            r == self.hostname,
    {
        clone_opt_string(&self.hostname)
    }

    pub fn get_appname(&self) -> (r: Option<String>)
        ensures
            r == self.appname,
    {
        clone_opt_string(&self.appname)
    }

    pub fn get_procid(&self) -> (r: Option<String>)
        ensures
            r == self.procid,
    {
        clone_opt_string(&self.procid)
    }

    pub fn get_msgid(&self) -> (r: Option<String>)
        ensures
            r == self.msgid,
    {
        clone_opt_string(&self.msgid)
    }

    pub fn get_sdata(&self) -> (r: Option<String>)
        ensures
            r == self.sdata,
    {
        clone_opt_string(&self.sdata)
    }

    pub fn get_msg(&self) -> (r: Option<String>)
        ensures
            r == self.msg,
    {
        clone_opt_string(&self.msg)
    }

    /// The persisted form of a parsed datagram: fields carried over,
    /// no row id yet, and the structured data rendered to its stored
    /// text.
    pub fn from_syslogmsg(msg: SyslogMsg) -> (r: SyslogMessage)
        ensures
            r.id is None,
            r.from_host == msg.from_host,
            r.from_port == msg.from_port,
            r.facility == msg.facility,
            r.severity == msg.severity,
            r.version == msg.version,
            r.timestamp == msg.timestamp,
            r.hostname == msg.hostname,
            r.appname == msg.appname,
            r.procid == msg.procid,
            r.msgid == msg.msgid,
            msg.sdata matches Some(pairs) ==> r.sdata matches Some(text) && text@
                == spec_sdata_text(pairs_view(pairs@)),
            msg.sdata is None ==> r.sdata is None,
            r.msg == msg.msg,
    {
        let sdata = Self::convert_sdata_to_json(&msg.sdata);
        SyslogMessage {
            id: None,
            from_host: msg.from_host,
            from_port: msg.from_port,
            facility: msg.facility,
            severity: msg.severity,
            version: msg.version,
            timestamp: msg.timestamp,
            hostname: msg.hostname,
            appname: msg.appname,
            procid: msg.procid,
            msgid: msg.msgid,
            sdata,
            msg: msg.msg,
        }
    }

    /// Renders the structured-data pairs to their stored text: each
    /// pair as `"key":"value",` between braces, in pair order.
    pub fn convert_sdata_to_json(sdata: &Option<Vec<(String, String)>>) -> (r: Option<String>)
        ensures
            sdata matches Some(pairs) ==> r matches Some(text) && text@ == spec_sdata_text(
                pairs_view(pairs@),
            ),
            sdata is None ==> r is None,
    {
        match sdata {
            Some(pairs) => {
                let mut text = String::from_str("{");
                let mut k: usize = 0;
                while k < pairs.len()
                    invariant
                        0 <= k <= pairs@.len(),
                        text@ == "{"@ + spec_sdata_entries(pairs_view(pairs@).take(k as int)),
                    decreases pairs@.len() - k,
                {
                    text.append("\"");
                    text.append(pairs[k].0.as_str());
                    text.append("\":\"");
                    text.append(pairs[k].1.as_str());
                    text.append("\",");
                    proof {
                        let pv = pairs_view(pairs@);
                        assert(pv.take(k + 1).drop_last() =~= pv.take(k as int));
                        assert(pv.take(k + 1).last() == (pairs@[k as int].0@, pairs@[
                            k as int
                        ].1@));
                        assert(text@ =~= "{"@ + spec_sdata_entries(pv.take(k + 1)));
                    }
                    k = k + 1;
                }
                text.append("}");
                proof {
                    assert(pairs_view(pairs@).take(pairs@.len() as int) =~= pairs_view(pairs@));
                    assert(text@ =~= spec_sdata_text(pairs_view(pairs@)));
                }
                Some(text)
            },
            None => None,
        }
    }
}

/// A copy of an optional string.
fn clone_opt_string(v: &Option<String>) -> (r: Option<String>)
    ensures
        r == v,
{
    match v {
        Some(s) => Some(s.clone()),
        None => None,
    }
}

} // verus!
