//! The rule the supervisor applies when a unit's process is observed
//! stopped.

use vstd::prelude::*;
use vstd::string::StringSliceAdditionalSpecFns;

use crate::text::{lower_bytes, matches_keyword};

verus! {

/// What the supervisor does with a unit whose process has stopped.
#[derive(Clone, Copy, Debug, PartialEq, Eq, Structural)]
pub enum RestartPolicy {
    /// Restart the unit as soon as it is observed stopped.
    Always,
    /// Leave the unit stopped.
    Never,
    /// Treat as `Never` until the next configuration reload; set by the
    /// manager when a user issues an explicit start or stop.
    DisabledTemporarily,
}

impl RestartPolicy {
    /// The integer code this policy carries on the control-plane wire.
    pub fn code(&self) -> (r: i32)
        ensures
            r == self.spec_code(),
    {
        match self {
            RestartPolicy::Always => 0,
            RestartPolicy::Never => 1,
            RestartPolicy::DisabledTemporarily => 2,
        }
    }

    /// The integer code, as a specification-level function.
    pub open spec fn spec_code(self) -> i32 {
        match self {
            RestartPolicy::Always => 0,
            RestartPolicy::Never => 1,
            RestartPolicy::DisabledTemporarily => 2,
        }
    }

    /// The label shown for this policy in client output.
    pub fn label(&self) -> (r: String)
        ensures
            self is Always ==> r@ == "Always"@,
            self is Never ==> r@ == "Never"@,
            self is DisabledTemporarily ==> r@ == "Disabled*"@,
    {
        match self {
            RestartPolicy::Always => String::from_str("Always"),
            RestartPolicy::Never => String::from_str("Never"),
            RestartPolicy::DisabledTemporarily => String::from_str("Disabled*"),
        }
    }
}

/// The policy a wire code stands for, if any.
pub fn restart_policy_from_code(code: i32) -> (r: Option<RestartPolicy>)
    ensures
        code == 0 ==> r == Some(RestartPolicy::Always),
        code == 1 ==> r == Some(RestartPolicy::Never),
        code == 2 ==> r == Some(RestartPolicy::DisabledTemporarily),
        !(0 <= code <= 2) ==> r is None,
{
    if code == 0 {
        Some(RestartPolicy::Always)
    } else if code == 1 {
        Some(RestartPolicy::Never)
    } else if code == 2 {
        Some(RestartPolicy::DisabledTemporarily)
    } else {
        None
    }
}

/// Parses a configuration value: `"always"` or `"never"`, without
/// regard to ASCII case.  Anything else is rejected.
pub fn parse_restart_policy(policy: &str) -> (r: Result<RestartPolicy, String>)
    ensures
        r == Ok::<RestartPolicy, String>(RestartPolicy::Always) <==> lower_bytes(
            policy.spec_bytes(),
        ) == "always".spec_bytes(),
        r == Ok::<RestartPolicy, String>(RestartPolicy::Never) <==> lower_bytes(
            policy.spec_bytes(),
        ) == "never".spec_bytes(),
        r is Err || r == Ok::<RestartPolicy, String>(RestartPolicy::Always) || r == Ok::<
            RestartPolicy,
            String,
        >(RestartPolicy::Never),
{
    proof {
        reveal_strlit("always");
        reveal_strlit("never");
        broadcast use vstd::utf8::is_ascii_chars_encode_utf8;

        assert(vstd::utf8::is_ascii_chars("always"@));
        assert(vstd::utf8::is_ascii_chars("never"@));
        assert("always".spec_bytes().len() == 6);
        assert("never".spec_bytes().len() == 5);
    }
    if matches_keyword(policy, "always") {
        Ok(RestartPolicy::Always)
    } else if matches_keyword(policy, "never") {
        Ok(RestartPolicy::Never)
    } else {
        let mut message = String::from_str("Invalid restart policy: ");
        message.append(policy);
        Err(message)
    }
}

} // verus!
