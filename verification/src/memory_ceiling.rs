//! A resident-memory ceiling for a native run is a cgroup v2 `memory.max`
//! set through the systemd user manager; without the manager's tool or its
//! bus the ceiling cannot be applied, and the run is refused with the
//! reason rather than run with less.

use vstd::prelude::*;
use crate::text::{owned, push_str};

verus! {

/// Why a memory ceiling cannot be applied on this host, given whether
/// `busctl` is installed, the path of the user manager's bus and whether it
/// is there.
pub open spec fn unavailable_reason(busctl: bool, bus: Seq<char>, bus_exists: bool) -> Option<Seq<char>> {
    if !busctl {
        Some("a memory ceiling is a cgroup v2 limit set through the systemd user manager, and busctl is not installed"@)
    } else if !bus_exists {
        Some("a memory ceiling is a cgroup v2 limit set through the systemd user manager, and its bus "@ + bus
            + " is not there; log in through systemd-logind, or run `loginctl enable-linger $USER` once, so a user manager runs for you"@)
    } else {
        None
    }
}

/// Why a memory ceiling cannot be applied on this host, if it cannot.
pub fn unavailable(busctl: bool, bus: &str, bus_exists: bool) -> (r: Option<String>)
    ensures
        match r {
            Some(reason) => unavailable_reason(busctl, bus@, bus_exists) == Some(reason@),
            None => unavailable_reason(busctl, bus@, bus_exists) is None,
        },
{
    if !busctl {
        return Some(owned(
            "a memory ceiling is a cgroup v2 limit set through the systemd user manager, and busctl is not installed",
        ));
    }
    if !bus_exists {
        let mut reason = owned("a memory ceiling is a cgroup v2 limit set through the systemd user manager, and its bus ");
        push_str(&mut reason, bus);
        push_str(
            &mut reason,
            " is not there; log in through systemd-logind, or run `loginctl enable-linger $USER` once, so a user manager runs for you",
        );
        return Some(reason);
    }
    None
}

} // verus!
