//! Discover SSH agent sockets under a temporary directory, order them by
//! recency, and either present them for interactive selection or pick the
//! newest one for a shell-evaluable `export` statement.

use vstd::prelude::*;

pub mod render;
pub mod scan;
pub mod select;

verus! {

/// A socket discovered by a scan: its absolute path and, when the metadata
/// query succeeded, its modification time in nanoseconds since the Unix
/// epoch.
pub struct Candidate {
    pub path: String,
    pub modified: Option<u64>,
}

/// Order on optional timestamps: a missing timestamp is older than any
/// present one.
pub open spec fn ts_le(a: Option<u64>, b: Option<u64>) -> bool {
    match (a, b) {
        (Option::None, _) => true,
        (Option::Some(_), Option::None) => false,
        (Option::Some(x), Option::Some(y)) => x <= y,
    }
}

/// Executable comparison agreeing with `ts_le`.
pub fn ts_le_exec(a: &Option<u64>, b: &Option<u64>) -> (r: bool)
    ensures
        r == ts_le(*a, *b),
{
    match (a, b) {
        (Option::None, _) => true,
        (Option::Some(_), Option::None) => false,
        (Option::Some(x), Option::Some(y)) => *x <= *y,
    }
}

/// The subtree scanned for agent sockets.
pub fn default_scan_root() -> (r: String)
    ensures
        r@ == "/tmp"@,
{
    "/tmp".to_owned()
}

/// The base-name prefix an agent socket must carry.
pub fn default_socket_prefix() -> (r: String)
    ensures
        r@ == "agent."@,
{
    "agent.".to_owned()
}

/// The environment variable that names the active agent socket.
pub fn active_agent_var() -> (r: String)
    ensures
        r@ == "SSH_AUTH_SOCK"@,
{
    "SSH_AUTH_SOCK".to_owned()
}

} // verus!
