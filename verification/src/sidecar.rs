//! The read-only HTTP sidecar's decision logic: which endpoint a path
//! names, and the status codes its answers carry. The listener itself and
//! the JSON encoding run outside the library, over snapshots taken under
//! read locks.

use vstd::prelude::*;
use vstd::string::StrSliceExecFns;

verus! {

/// Messages exchanged with the sidecar task.
#[derive(Clone, Copy, Debug, PartialEq, Eq, Structural)]
pub enum SidecarMessage {
    /// Terminal acknowledgment of a stop.
    Okay,
    /// Ask the sidecar to shut down.
    Stop,
}

/// The sidecar's read-only endpoints.
#[derive(Clone, Copy, Debug, PartialEq, Eq, Structural)]
pub enum Endpoint {
    /// The last applied service configuration.
    Config,
    /// Run the health check and report it.
    Health,
    /// The supervisor's snapshot of the child.
    Status,
    /// The gossip ring: members, rumors, detector, write retries.
    Gossip,
    /// The census of this node's service group.
    Census,
    /// The tracked elections.
    Election,
}

/// String equality over the characters.
pub fn str_eq(a: &str, b: &str) -> (r: bool)
    ensures
        r == (a@ == b@),
{
    let n = a.unicode_len();
    let m = b.unicode_len();
    if n != m {
        proof {
            assert(a@.len() != b@.len());
        }
        return false;
    }
    let mut i: usize = 0;
    while i < n
        invariant
            n == a@.len(),
            n == b@.len(),
            0 <= i <= n,
            forall|j: int| 0 <= j < i ==> a@[j] == b@[j],
        decreases n - i,
    {
        if a.get_char(i) != b.get_char(i) {
            return false;
        }
        i = i + 1;
    }
    proof {
        assert(a@ =~= b@);
    }
    true
}

/// The endpoint a request path names, if any.
pub open spec fn spec_route(path: Seq<char>) -> Option<Endpoint> {
    if path == "/config"@ {
        Some(Endpoint::Config)
    } else if path == "/health"@ {
        Some(Endpoint::Health)
    } else if path == "/status"@ {
        Some(Endpoint::Status)
    } else if path == "/gossip"@ {
        Some(Endpoint::Gossip)
    } else if path == "/census"@ {
        Some(Endpoint::Census)
    } else if path == "/election"@ {
        Some(Endpoint::Election)
    } else {
        None
    }
}

/// Route a request path to its endpoint; any other path is not served.
pub fn route(path: &str) -> (r: Option<Endpoint>)
    ensures
        r == spec_route(path@),
{
    if str_eq(path, "/config") {
        Some(Endpoint::Config)
    } else if str_eq(path, "/health") {
        Some(Endpoint::Health)
    } else if str_eq(path, "/status") {
        Some(Endpoint::Status)
    } else if str_eq(path, "/gossip") {
        Some(Endpoint::Gossip)
    } else if str_eq(path, "/census") {
        Some(Endpoint::Census)
    } else if str_eq(path, "/election") {
        Some(Endpoint::Election)
    } else {
        None
    }
}

/// The last applied service configuration, from the package's stored
/// copy: the body, or nothing when none was applied yet — the endpoint
/// then answers 404.
pub fn last_config(stored: &Option<Vec<u8>>) -> (r: Option<&Vec<u8>>)
    ensures
        match r {
            Some(v) => stored matches Some(s) && v@ == s@,
            None => stored is None,
        },
{
    match stored {
        Some(v) => Some(v),
        None => None,
    }
}

} // verus!
