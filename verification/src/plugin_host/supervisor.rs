//! Values the Host supervisor reports to its owner.
use vstd::prelude::*;

verus! {

/// A Host failure with a stable code.
#[derive(Debug, Clone)]
pub struct HostError {
    pub code: String,
    pub message: String,
}

impl HostError {
    /// An error with the code and message.
    pub fn new(code: &str, message: &str) -> (e: Self)
        ensures
            e.code@ == code@,
            e.message@ == message@,
    {
        HostError { code: code.to_string(), message: message.to_string() }
    }
}

/// Lifecycle state of one Host process.
#[derive(Debug, Clone, Copy, PartialEq, Eq, Structural)]
pub enum HostState {
    Starting,
    Ready,
    Stopping,
    Exited,
    Failed,
}

/// How a Host process ended.
#[derive(Debug, Clone, Copy, PartialEq, Eq, Structural)]
pub struct HostExitReport {
    pub process_id: u32,
    pub exit_code: u32,
    pub forced: bool,
    pub workers_reaped: bool,
}

} // verus!
