//! Read-only facts an execution owner publishes for optional management UIs.
use vstd::prelude::*;

use crate::plugins::LoadedPlugin;

verus! {

/// Observed execution state of one loaded plugin.
#[derive(Debug, Clone, Copy, PartialEq, Eq, Structural)]
pub enum ExecutionState {
    Starting,
    Active,
    /// Stop was requested; the owner has not yet confirmed exit and cleanup.
    Stopping,
    /// The owner has confirmed process exit and finished supervisor cleanup.
    Failed,
    /// The owner has confirmed process exit and finished supervisor cleanup.
    Exited,
}

/// One plugin's published execution facts.
#[derive(Debug, Clone)]
pub struct PluginExecutionObservation {
    pub plugin: LoadedPlugin,
    pub state: ExecutionState,
    /// A current or last observed process ID; the state says whether it is live.
    pub process_id: Option<u32>,
    pub error: Option<String>,
}

} // verus!
