//! macOS process support: registry scopes of the control socket, process
//! identity facts, and what a failed native start may report.
use vstd::prelude::*;

pub mod application;
pub mod control_pipe;
pub mod folder_dialog;
pub mod host;
pub mod identity;
pub mod runtime;

verus! {
} // verus!
