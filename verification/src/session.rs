//! Session actions of the command line: lock, logout, suspend, reboot and
//! power-off, each mapped to the one command that performs it.
use vstd::prelude::*;
use crate::json::str_eq;

verus! {

/// The command of a session action; `None` for an unknown action.
pub open spec fn spec_session_command(action: Seq<char>, user: Seq<char>) -> Option<
    Seq<Seq<char>>,
> {
    if action == "suspend"@ {
        Some(seq!["systemctl"@, "suspend"@])
    } else if action == "reboot"@ {
        Some(seq!["systemctl"@, "reboot"@])
    } else if action == "poweroff"@ {
        Some(seq!["systemctl"@, "poweroff"@])
    } else if action == "logout"@ {
        Some(seq!["loginctl"@, "terminate-user"@, user])
    } else if action == "lock"@ {
        Some(seq!["loginctl"@, "lock-session"@])
    } else {
        None
    }
}

pub open spec fn opt_argv(r: Option<Vec<String>>) -> Option<Seq<Seq<char>>> {
    match r {
        Some(v) => Some(v@.map_values(|s: String| s@)),
        None => None,
    }
}

fn argv(a: &str, b: &str) -> (r: Vec<String>)
    ensures
        r@.map_values(|s: String| s@) == seq![a@, b@],
{
    let mut v: Vec<String> = Vec::new();
    v.push(String::from_str(a));
    v.push(String::from_str(b));
    assert(v@.map_values(|s: String| s@) =~= seq![a@, b@]);
    v
}

/// The argument vector (program first) of a session action for `user`.
pub fn session_command(action: &str, user: &str) -> (r: Option<Vec<String>>)
    ensures
        opt_argv(r) == spec_session_command(action@, user@),
{
    if str_eq(action, "suspend") {
        Some(argv("systemctl", "suspend"))
    } else if str_eq(action, "reboot") {
        Some(argv("systemctl", "reboot"))
    } else if str_eq(action, "poweroff") {
        Some(argv("systemctl", "poweroff"))
    } else if str_eq(action, "logout") {
        let mut v: Vec<String> = Vec::new();
        v.push(String::from_str("loginctl"));
        v.push(String::from_str("terminate-user"));
        v.push(String::from_str(user));
        assert(v@.map_values(|s: String| s@) =~= seq!["loginctl"@, "terminate-user"@, user@]);
        Some(v)
    } else if str_eq(action, "lock") {
        Some(argv("loginctl", "lock-session"))
    } else {
        None
    }
}

} // verus!
