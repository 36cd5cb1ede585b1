//! Plugin-management domain values shared by the renderer owner and control
//! clients: actions, requests and their validation, and reports. No
//! transport, threads or execution authority lives here.
use vstd::prelude::*;

use crate::local_import::LocalImportRequest;
use crate::managed_plugins::ManagedOperation;
use crate::plugins::{spec_valid_plugin_id, valid_plugin_id, Permission};

verus! {

/// A management action on one plugin.
#[derive(Debug, Clone, Copy, PartialEq, Eq, Structural, Hash)]
pub enum PluginControlAction {
    Enable,
    Disable,
    Reload,
    Revoke,
    Import,
    Update,
    Rollback,
    Remove,
}

impl PluginControlAction {
    /// Whether the action starts the plugin by itself.
    pub fn starts_plugin(self) -> (b: bool)
        ensures
            b == (self == PluginControlAction::Enable || self == PluginControlAction::Import),
    {
        match self {
            PluginControlAction::Enable | PluginControlAction::Import => true,
            _ => false,
        }
    }

    pub open spec fn spec_name(self) -> Seq<char> {
        match self {
            PluginControlAction::Enable => "enable"@,
            PluginControlAction::Disable => "disable"@,
            PluginControlAction::Reload => "reload"@,
            PluginControlAction::Revoke => "revoke"@,
            PluginControlAction::Import => "import"@,
            PluginControlAction::Update => "update"@,
            PluginControlAction::Rollback => "rollback"@,
            PluginControlAction::Remove => "remove"@,
        }
    }

    /// Wire name of the action.
    pub fn as_str(self) -> (s: &'static str)
        ensures
            s@ == self.spec_name(),
    {
        match self {
            PluginControlAction::Enable => "enable",
            PluginControlAction::Disable => "disable",
            PluginControlAction::Reload => "reload",
            PluginControlAction::Revoke => "revoke",
            PluginControlAction::Import => "import",
            PluginControlAction::Update => "update",
            PluginControlAction::Rollback => "rollback",
            PluginControlAction::Remove => "remove",
        }
    }
}

/// An explicitly confirmed deletion of a registered source directory.
#[derive(Debug, Clone)]
pub struct SourceRemovalRequest {
    pub path: String,
}

/// One management request.
#[derive(Debug, Clone)]
pub struct PluginControlRequest {
    pub action: PluginControlAction,
    pub plugin_id: String,
    pub permission: Option<Permission>,
    /// Explicitly confirmed stop of the enabled or running dependent closure.
    pub cascade: bool,
    /// Explicit local or managed package selection and grants.
    pub local_import: Option<Box<LocalImportRequest>>,
    /// Present only after explicit confirmation to delete this registered source.
    pub remove_source: Option<Box<SourceRemovalRequest>>,
}

/// A refused or failed management request.
#[derive(Debug, Clone)]
pub struct PluginControlError {
    pub code: String,
    pub message: String,
}

impl PluginControlError {
    /// The error as shown to a user: its code, a colon and its message.
    pub fn describe(&self) -> (r: String)
        ensures
            r@ == self.code@ + ": "@ + self.message@,
    {
        crate::text::concat3(self.code.as_str(), ": ", self.message.as_str())
    }

    /// An error with the code and message.
    pub fn new(code: &str, message: &str) -> (e: Self)
        ensures
            e.code@ == code@,
            e.message@ == message@,
    {
        PluginControlError { code: code.to_string(), message: message.to_string() }
    }
}

/// The managed operation a previewed selection must carry for an action.
pub open spec fn managed_matches(action: PluginControlAction, managed: Option<ManagedOperation>) -> bool {
    match action {
        PluginControlAction::Import => managed is None || managed == Some(ManagedOperation::Install),
        PluginControlAction::Update => managed == Some(ManagedOperation::Update),
        PluginControlAction::Rollback => managed == Some(ManagedOperation::Rollback),
        _ => false,
    }
}

/// The code of the first rule a request breaks, in the order they are checked.
pub open spec fn spec_request_error(r: PluginControlRequest) -> Option<Seq<char>> {
    if r.remove_source is Some && r.action != PluginControlAction::Remove {
        Some("invalid_source_removal"@)
    } else if r.cascade && !(r.action == PluginControlAction::Disable || r.action == PluginControlAction::Remove) {
        Some("invalid_cascade"@)
    } else if !spec_valid_plugin_id(r.plugin_id@) {
        Some("invalid_plugin_id"@)
    } else if (r.action == PluginControlAction::Revoke) != (r.permission is Some) {
        Some("invalid_permission"@)
    } else if (r.action == PluginControlAction::Import || r.action == PluginControlAction::Update || r.action
        == PluginControlAction::Rollback) != (r.local_import is Some) {
        Some("invalid_import"@)
    } else if r.local_import is Some && !r.local_import.unwrap().trusted {
        Some("trust_required"@)
    } else if r.local_import is Some && !managed_matches(r.action, r.local_import.unwrap().managed) {
        Some("invalid_managed_operation"@)
    } else {
        None
    }
}

impl PluginControlRequest {
    /// Whether the request leaves the plugin running: enable or import, or an
    /// update or rollback whose selection enables it.
    pub fn activation_requested(&self) -> (b: bool)
        ensures
            b == (self.action == PluginControlAction::Enable || self.action == PluginControlAction::Import
                || ((self.action == PluginControlAction::Update || self.action == PluginControlAction::Rollback)
                && self.local_import is Some && self.local_import.unwrap().enable)),
    {
        if self.action.starts_plugin() {
            return true;
        }
        let selects = self.action == PluginControlAction::Update || self.action == PluginControlAction::Rollback;
        match &self.local_import {
            Some(selection) => selects && selection.enable,
            None => false,
        }
    }

    /// Refuses a request whose parts do not fit its action.
    pub fn validate(&self) -> (r: Result<(), PluginControlError>)
        ensures
            match spec_request_error(*self) {
                None => r is Ok,
                Some(code) => r matches Err(e) && e.code@ == code,
            },
    {
        if self.remove_source.is_some() && self.action != PluginControlAction::Remove {
            return Err(PluginControlError::new(
                "invalid_source_removal",
                "Only remove may explicitly delete a confirmed source directory.",
            ));
        }
        if self.cascade && !(self.action == PluginControlAction::Disable || self.action == PluginControlAction::Remove) {
            return Err(PluginControlError::new("invalid_cascade", "cascade is only valid for disable or remove"));
        }
        if !valid_plugin_id(self.plugin_id.as_str()) {
            return Err(PluginControlError::new("invalid_plugin_id", "plugin id is invalid"));
        }
        if (self.action == PluginControlAction::Revoke) != self.permission.is_some() {
            return Err(PluginControlError::new("invalid_permission", "Only revoke requires one explicit permission."));
        }
        let selects = self.action == PluginControlAction::Import || self.action == PluginControlAction::Update
            || self.action == PluginControlAction::Rollback;
        if selects != self.local_import.is_some() {
            return Err(PluginControlError::new(
                "invalid_import",
                "Import, update and rollback require one explicit package selection.",
            ));
        }
        match &self.local_import {
            Some(selection) => {
                selection.validate()?;
                let valid = match self.action {
                    PluginControlAction::Import => match selection.managed {
                        None => true,
                        Some(ManagedOperation::Install) => true,
                        _ => false,
                    },
                    PluginControlAction::Update => selection.managed == Some(ManagedOperation::Update),
                    PluginControlAction::Rollback => selection.managed == Some(ManagedOperation::Rollback),
                    _ => false,
                };
                if !valid {
                    return Err(PluginControlError::new(
                        "invalid_managed_operation",
                        "The action must match the previewed managed operation.",
                    ));
                }
            },
            None => {},
        }
        Ok(())
    }
}

/// Whether a request may run while the runtime recovers: disable, revoke,
/// or a remove that keeps its source directory.
pub fn recovery_request(request: &PluginControlRequest) -> (b: bool)
    ensures
        b == (request.action == PluginControlAction::Disable || request.action == PluginControlAction::Revoke
            || (request.action == PluginControlAction::Remove && request.remove_source is None)),
{
    request.action == PluginControlAction::Disable || request.action == PluginControlAction::Revoke
        || (request.action == PluginControlAction::Remove && request.remove_source.is_none())
}

/// How a management action ended.
#[derive(Debug, Clone, Copy, PartialEq, Eq, Structural)]
pub enum PluginControlOutcome {
    Applied,
    Unchanged,
    RolledBack,
    Degraded,
}

/// A generation remaining in the runtime catalog.
#[derive(Debug, Clone)]
pub struct PluginGeneration {
    pub plugin_id: String,
    pub generation: u64,
}

/// One target's failure while applying an action.
#[derive(Debug, Clone)]
pub struct PluginTargetFailure {
    pub target_id: String,
    pub plugin_id: String,
    pub stage: String,
    pub error: String,
}

/// The result of one management action.
#[derive(Debug, Clone)]
pub struct PluginControlReport {
    pub action: PluginControlAction,
    pub plugin_id: String,
    pub outcome: PluginControlOutcome,
    pub desired_enabled: bool,
    pub affected_plugin_ids: Vec<String>,
    /// Generations remaining in the runtime catalog, not every allocated candidate.
    pub generations: Vec<PluginGeneration>,
    pub target_failures: Vec<PluginTargetFailure>,
    pub message: Option<String>,
}

impl PluginControlReport {
    /// Whether the action applied or had nothing to change.
    pub fn is_success(&self) -> (b: bool)
        ensures
            b == (self.outcome == PluginControlOutcome::Applied || self.outcome == PluginControlOutcome::Unchanged),
    {
        match self.outcome {
            PluginControlOutcome::Applied | PluginControlOutcome::Unchanged => true,
            _ => false,
        }
    }
}

} // verus!
