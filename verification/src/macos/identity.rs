//! Kernel process facts used for launch and local IPC identity checks.
use vstd::prelude::*;

verus! {

/// The facts that identify one process incarnation.
#[derive(Debug, Clone)]
pub struct ProcessIdentity {
    pub pid: u32,
    pub uid: u32,
    pub started_seconds: u64,
    pub started_microseconds: u64,
    pub executable: String,
}

/// A process ID the kernel can be asked about: positive and within `i32`.
pub fn valid_pid(pid: u32) -> (b: bool)
    ensures
        b == (0 < pid <= i32::MAX),
{
    pid != 0 && pid <= 2147483647
}

/// Two identities of the same process incarnation.
pub open spec fn same_incarnation(a: ProcessIdentity, b: ProcessIdentity) -> bool {
    a.pid == b.pid && a.uid == b.uid && a.started_seconds == b.started_seconds
        && a.started_microseconds == b.started_microseconds && a.executable@ == b.executable@
}

impl ProcessIdentity {
    /// Refuses when the process now found under the PID is another
    /// incarnation (a different birth, owner or executable).
    pub fn check_live(&self, current: &ProcessIdentity) -> (r: Result<(), String>)
        ensures
            r is Ok <==> same_incarnation(*self, *current),
    {
        if self.pid != current.pid || self.uid != current.uid || self.started_seconds != current.started_seconds
            || self.started_microseconds != current.started_microseconds || !crate::text::str_equal(
            self.executable.as_str(),
            current.executable.as_str(),
        ) {
            return Err("Process identity changed".to_string());
        }
        Ok(())
    }
}

} // verus!
