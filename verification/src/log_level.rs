//! The daemon's log verbosity, read from the configuration file.

use vstd::prelude::*;
use vstd::string::StringSliceAdditionalSpecFns;

use crate::text::{lower_bytes, matches_keyword};

verus! {

/// The log verbosity named in the `[application]` table.
#[derive(Clone, Copy, Debug, PartialEq, Eq, Structural)]
pub enum LogLevel {
    Debug,
    Info,
    Warn,
    Error,
}

impl LogLevel {
    /// The lower-case name of the level, as the logger expects it.
    pub fn to_string(&self) -> (r: String)
        ensures
            self is Debug ==> r@ == "debug"@,
            self is Info ==> r@ == "info"@,
            self is Warn ==> r@ == "warn"@,
            self is Error ==> r@ == "error"@,
    {
        match self {
            LogLevel::Debug => String::from_str("debug"),
            LogLevel::Info => String::from_str("info"),
            LogLevel::Warn => String::from_str("warn"),
            LogLevel::Error => String::from_str("error"),
        }
    }
}

/// Parses a configuration value: one of `"debug"`, `"info"`, `"warn"`
/// or `"error"`, without regard to ASCII case.  Anything else is
/// rejected.
pub fn parse_log_level(s: &str) -> (r: Result<LogLevel, String>)
    ensures
        r == Ok::<LogLevel, String>(LogLevel::Debug) <==> lower_bytes(s.spec_bytes())
            == "debug".spec_bytes(),
        r == Ok::<LogLevel, String>(LogLevel::Info) <==> lower_bytes(s.spec_bytes())
            == "info".spec_bytes(),
        r == Ok::<LogLevel, String>(LogLevel::Warn) <==> lower_bytes(s.spec_bytes())
            == "warn".spec_bytes(),
        r == Ok::<LogLevel, String>(LogLevel::Error) <==> lower_bytes(s.spec_bytes())
            == "error".spec_bytes(),
{
    proof {
        reveal_strlit("debug");
        reveal_strlit("info");
        reveal_strlit("warn");
        reveal_strlit("error");
        broadcast use vstd::utf8::is_ascii_chars_encode_utf8;

        assert(vstd::utf8::is_ascii_chars("debug"@));
        assert(vstd::utf8::is_ascii_chars("info"@));
        assert(vstd::utf8::is_ascii_chars("warn"@));
        assert(vstd::utf8::is_ascii_chars("error"@));
        assert("debug".spec_bytes().len() == 5);
        assert("info".spec_bytes().len() == 4);
        assert("warn".spec_bytes().len() == 4);
        assert("error".spec_bytes().len() == 5);
        assert("debug".spec_bytes()[0] == 100);
        assert("error".spec_bytes()[0] == 101);
        assert("info".spec_bytes()[0] == 105);
        assert("warn".spec_bytes()[0] == 119);
    }
    if matches_keyword(s, "debug") {
        Ok(LogLevel::Debug)
    } else if matches_keyword(s, "info") {
        Ok(LogLevel::Info)
    } else if matches_keyword(s, "warn") {
        Ok(LogLevel::Warn)
    } else if matches_keyword(s, "error") {
        Ok(LogLevel::Error)
    } else {
        let mut message = String::from_str("Unknown log level: ");
        message.append(s);
        Err(message)
    }
}

} // verus!
