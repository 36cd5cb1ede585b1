//! Independently authorised OS endpoints: which permission each endpoint
//! needs, request bounds, and the error values of the broker.
use vstd::prelude::*;

use crate::plugins::Permission;

pub mod authorization;
pub mod filesystem;
pub mod network;
pub mod operation;
pub mod process;

verus! {

pub const OS_BROKER_WORKERS: usize = 4;
pub const MAX_OS_QUEUE: usize = 8;
pub const MAX_OS_OPERATIONS: usize = 16;
pub const MAX_OS_BYTES: usize = 262144;
pub const DEFAULT_OS_BYTES: usize = 65536;

/// A broker failure with a stable code.
#[derive(Debug, Clone)]
pub struct OsBrokerError {
    pub code: String,
    pub message: String,
}

impl OsBrokerError {
    /// An error with the code and message.
    pub fn new(code: &str, message: &str) -> (e: Self)
        ensures
            e.code@ == code@,
            e.message@ == message@,
    {
        OsBrokerError { code: code.to_string(), message: message.to_string() }
    }
}

/// The permission an OS endpoint requires.
pub open spec fn spec_permission_for_endpoint(endpoint: Seq<char>) -> Option<Permission> {
    if endpoint == "host.fs.readText"@ || endpoint == "host.fs.readDir"@ || endpoint == "host.fs.stat"@ {
        Some(Permission::HostFs)
    } else if endpoint == "host.network.fetch"@ || endpoint == "host.network.authorizeChannel"@ || endpoint
        == "host.network.authorizeForward"@ {
        Some(Permission::HostNetwork)
    } else if endpoint == "host.process.run"@ {
        Some(Permission::HostProcess)
    } else if endpoint == "host.system.info"@ {
        Some(Permission::HostSystem)
    } else {
        None
    }
}

/// The permission an OS endpoint requires; `None` for an unknown endpoint.
pub fn permission_for_endpoint(endpoint: &str) -> (r: Option<Permission>)
    ensures
        r == spec_permission_for_endpoint(endpoint@),
{
    let eq = |s: &str| -> (b: bool)
        ensures
            b == (endpoint@ == s@),
        { crate::text::str_equal(endpoint, s) };
    if eq("host.fs.readText") || eq("host.fs.readDir") || eq("host.fs.stat") {
        Some(Permission::HostFs)
    } else if eq("host.network.fetch") || eq("host.network.authorizeChannel") || eq("host.network.authorizeForward") {
        Some(Permission::HostNetwork)
    } else if eq("host.process.run") {
        Some(Permission::HostProcess)
    } else if eq("host.system.info") {
        Some(Permission::HostSystem)
    } else {
        None
    }
}

/// A refused request parameter.
pub fn invalid(message: &str) -> (e: OsBrokerError)
    ensures
        e.code@ == "invalid_params"@,
        e.message@ == message@,
{
    OsBrokerError::new("invalid_params", message)
}

/// A request outside the explicitly granted scopes.
pub fn denied(message: &str) -> (e: OsBrokerError)
    ensures
        e.code@ == "policy_denied"@,
        e.message@ == message@,
{
    OsBrokerError::new("policy_denied", message)
}

/// The byte bound of a response: the default when absent, else 1..=262144.
pub fn byte_limit(value: Option<usize>) -> (r: Result<usize, OsBrokerError>)
    ensures
        match value {
            None => r == Ok::<usize, OsBrokerError>(DEFAULT_OS_BYTES),
            Some(v) => if 1 <= v <= MAX_OS_BYTES {
                r == Ok::<usize, OsBrokerError>(v)
            } else {
                r matches Err(e) && e.code@ == "invalid_params"@
            },
        },
{
    let v = match value {
        Some(v) => v,
        None => DEFAULT_OS_BYTES,
    };
    if v == 0 || v > MAX_OS_BYTES {
        return Err(invalid("maxBytes/maxOutputBytes must be between 1 and 262144"));
    }
    Ok(v)
}

/// Whether an admitted operation may still proceed: not cancelled, before
/// its deadline, its authorisation still live and the broker still open,
/// checked in that order.
pub fn guard_check(cancelled: bool, deadline_passed: bool, live: bool, broker_open: bool) -> (r: Result<(), OsBrokerError>)
    ensures
        cancelled ==> (r matches Err(e) && e.code@ == "cancelled"@),
        !cancelled && deadline_passed ==> (r matches Err(e) && e.code@ == "deadline_exceeded"@),
        !cancelled && !deadline_passed && !live ==> (r matches Err(e) && e.code@ == "permission_revoked"@),
        !cancelled && !deadline_passed && live && !broker_open ==> (r matches Err(e) && e.code@ == "broker_stopped"@),
        !cancelled && !deadline_passed && live && broker_open ==> r is Ok,
{
    if cancelled {
        return Err(OsBrokerError::new("cancelled", "OS operation was cancelled"));
    }
    if deadline_passed {
        return Err(OsBrokerError::new("deadline_exceeded", "OS operation deadline expired"));
    }
    if !live {
        return Err(OsBrokerError::new("permission_revoked", "this exact-generation authorization is no longer current"));
    }
    if !broker_open {
        return Err(OsBrokerError::new("broker_stopped", "OS broker is stopping or unavailable"));
    }
    Ok(())
}

} // verus!
