//! Decisions of the plugin-management CLI: when a receipt counts as
//! submitted, settled or uncertain, which evidence proves a registry is
//! offline, and how an outcome is reported. Transport stays outside.
use vstd::prelude::*;

use crate::plugin_control::PluginControlError;

pub mod official_seed;

verus! {

/// The state a Host's control endpoint reports for one exchange.
#[derive(Debug, Clone, Copy, PartialEq, Eq, Structural)]
pub enum ControlStatus {
    Identified,
    Inspected,
    Prepared,
    Queued,
    Running,
    Completed,
    Busy,
    NotReady,
    Stopping,
    Expired,
    StaleHost,
    InvalidRequest,
    NotRunning,
    Timeout,
    UntrustedServer,
    CommunicationError,
}

/// The state the legacy status endpoint reports.
#[derive(Debug, Clone, Copy, PartialEq, Eq, Structural)]
pub enum StatusCode {
    NotRunning,
    Running,
    Busy,
    Timeout,
    UntrustedServer,
    CommunicationError,
}

/// The parts of a control report the CLI decides on.
#[derive(Debug, Clone)]
pub struct ControlReport {
    pub status: ControlStatus,
    pub registry_scope: Option<String>,
    pub error: Option<String>,
}

impl ControlReport {
    /// A report of a failed exchange.
    pub fn failure(status: ControlStatus, error: &str) -> (r: Self)
        ensures
            r.status == status,
            r.registry_scope is None,
            r.error matches Some(e) && e@ == error@,
    {
        ControlReport { status, registry_scope: None, error: Some(error.to_string()) }
    }
}

/// A failed plugin-management command.
#[derive(Debug, Clone)]
pub enum PluginCliError {
    Registry(String),
    Manifest(String),
    LocalPlugin(String),
    Request(PluginControlError),
    Pipe(String),
    UnknownPlugin(String),
    ReloadOffline,
    Control(String),
    Uncertain(String),
    NotSubmitted(String),
    OfflineUnavailable(String),
    InvalidOperation,
}

impl PluginCliError {
    pub open spec fn spec_code(self) -> Seq<char> {
        match self {
            PluginCliError::Registry(_) => "registry_error"@,
            PluginCliError::Manifest(_) => "manifest_error"@,
            PluginCliError::LocalPlugin(_) => "local_plugin_error"@,
            PluginCliError::Request(e) => e.code@,
            PluginCliError::Pipe(_) => "ipc_error"@,
            PluginCliError::UnknownPlugin(_) => "unknown_plugin"@,
            PluginCliError::ReloadOffline => "host_required"@,
            PluginCliError::Control(_) => "control_failed"@,
            PluginCliError::Uncertain(_) => "operation_uncertain"@,
            PluginCliError::NotSubmitted(_) => "not_submitted"@,
            PluginCliError::OfflineUnavailable(_) => "offline_unavailable"@,
            PluginCliError::InvalidOperation => "invalid_operation"@,
        }
    }

    /// The error as shown to a user.
    pub open spec fn spec_describe(self) -> Seq<char> {
        match self {
            PluginCliError::Registry(m) => m@,
            PluginCliError::Manifest(m) => m@,
            PluginCliError::LocalPlugin(m) => m@,
            PluginCliError::Request(e) => e.code@ + ": "@ + e.message@,
            PluginCliError::Pipe(m) => m@,
            PluginCliError::UnknownPlugin(id) => "unknown plugin "@ + id@
                + "; use `codlet plugin list` to inspect available plugins"@,
            PluginCliError::ReloadOffline => "plugin reload requires a running Codlet Host for this registry"@,
            PluginCliError::Control(m) => "plugin management failed: "@ + m@,
            PluginCliError::Uncertain(op) => "operation "@ + op@
                + " is not confirmed complete; do not repeat the mutation, use `codlet plugin operation "@ + op@ + "`"@,
            PluginCliError::NotSubmitted(m) => "operation was not submitted ("@ + m@
                + "); retry the plugin command later to obtain a new receipt"@,
            PluginCliError::OfflineUnavailable(m) => "offline edit refused: "@ + m@,
            PluginCliError::InvalidOperation => "invalid operation receipt"@,
        }
    }

    /// The error as shown to a user.
    pub fn describe(&self) -> (r: String)
        ensures
            r@ == self.spec_describe(),
    {
        proof {
            reveal_strlit("");
        }
        match self {
            PluginCliError::Registry(m) => m.clone(),
            PluginCliError::Manifest(m) => m.clone(),
            PluginCliError::LocalPlugin(m) => m.clone(),
            PluginCliError::Request(e) => e.describe(),
            PluginCliError::Pipe(m) => m.clone(),
            PluginCliError::UnknownPlugin(id) => crate::text::concat3(
                "unknown plugin ",
                id.as_str(),
                "; use `codlet plugin list` to inspect available plugins",
            ),
            PluginCliError::ReloadOffline => "plugin reload requires a running Codlet Host for this registry".to_string(),
            PluginCliError::Control(m) => {
                let r = crate::text::concat3("plugin management failed: ", m.as_str(), "");
                proof {
                    assert(r@ =~= self.spec_describe());
                }
                r
            },
            PluginCliError::Uncertain(op) => {
                let head = crate::text::concat3(
                    "operation ",
                    op.as_str(),
                    " is not confirmed complete; do not repeat the mutation, use `codlet plugin operation ",
                );
                let r = crate::text::concat3(head.as_str(), op.as_str(), "`");
                proof {
                    assert(r@ =~= self.spec_describe());
                }
                r
            },
            PluginCliError::NotSubmitted(m) => crate::text::concat3(
                "operation was not submitted (",
                m.as_str(),
                "); retry the plugin command later to obtain a new receipt",
            ),
            PluginCliError::OfflineUnavailable(m) => {
                let r = crate::text::concat3("offline edit refused: ", m.as_str(), "");
                proof {
                    assert(r@ =~= self.spec_describe());
                }
                r
            },
            PluginCliError::InvalidOperation => "invalid operation receipt".to_string(),
        }
    }

    /// The stable code of the error.
    pub fn code(&self) -> (s: &str)
        ensures
            s@ == self.spec_code(),
    {
        match self {
            PluginCliError::Registry(_) => "registry_error",
            PluginCliError::Manifest(_) => "manifest_error",
            PluginCliError::LocalPlugin(_) => "local_plugin_error",
            PluginCliError::Request(e) => e.code.as_str(),
            PluginCliError::Pipe(_) => "ipc_error",
            PluginCliError::UnknownPlugin(_) => "unknown_plugin",
            PluginCliError::ReloadOffline => "host_required",
            PluginCliError::Control(_) => "control_failed",
            PluginCliError::Uncertain(_) => "operation_uncertain",
            PluginCliError::NotSubmitted(_) => "not_submitted",
            PluginCliError::OfflineUnavailable(_) => "offline_unavailable",
            PluginCliError::InvalidOperation => "invalid_operation",
        }
    }
}

/// The statuses in which a submission was refused before it took effect.
pub open spec fn spec_submission_refused(s: ControlStatus) -> bool {
    s == ControlStatus::Busy || s == ControlStatus::NotReady || s == ControlStatus::Stopping || s == ControlStatus::Expired
        || s == ControlStatus::StaleHost || s == ControlStatus::InvalidRequest || s == ControlStatus::NotRunning
}

/// Whether a submission was refused before it took effect, so that a new
/// receipt may be requested without repeating a mutation.
pub fn submission_refused(s: ControlStatus) -> (b: bool)
    ensures
        b == spec_submission_refused(s),
{
    match s {
        ControlStatus::Busy | ControlStatus::NotReady | ControlStatus::Stopping | ControlStatus::Expired
        | ControlStatus::StaleHost | ControlStatus::InvalidRequest | ControlStatus::NotRunning => true,
        _ => false,
    }
}

/// Whether a submitted operation has not finished yet.
pub fn still_pending(s: ControlStatus) -> (b: bool)
    ensures
        b == (s == ControlStatus::Queued || s == ControlStatus::Running),
{
    s == ControlStatus::Queued || s == ControlStatus::Running
}

/// Whether a read-only status query about a receipt succeeded: the
/// operation is still in flight, or completed successfully.
pub fn operation_query_ok(s: ControlStatus, success: bool) -> (b: bool)
    ensures
        b == (s == ControlStatus::Prepared || s == ControlStatus::Queued || s == ControlStatus::Running || success),
{
    s == ControlStatus::Prepared || s == ControlStatus::Queued || s == ControlStatus::Running || success
}

/// Positive evidence that no Host owns the registry: a Host that
/// identifies a different registry, or no discovered Host and a legacy
/// status that says not running. Anything else keeps the registry locked.
pub open spec fn spec_offline_evidence(scope: Seq<char>, discovery: ControlReport, legacy: Option<StatusCode>) -> bool {
    match discovery.status {
        ControlStatus::Identified => discovery.registry_scope matches Some(active) && active@ != scope,
        ControlStatus::NotRunning => legacy == Some(StatusCode::NotRunning),
        _ => false,
    }
}

/// Refuses an offline edit without positive evidence that the registry is
/// offline; the message says what was seen.
pub fn check_offline_evidence(scope: &str, discovery: &ControlReport, legacy_status: Option<StatusCode>) -> (r: Result<(), String>)
    ensures
        r is Ok <==> spec_offline_evidence(scope@, *discovery, legacy_status),
{
    match discovery.status {
        ControlStatus::Identified => {
            let other = match &discovery.registry_scope {
                Some(active) => !crate::text::str_equal(active.as_str(), scope),
                None => false,
            };
            if other {
                Ok(())
            } else {
                Err("a Host identifies this registry but its control endpoint is unavailable".to_string())
            }
        },
        ControlStatus::NotRunning => {
            if legacy_status == Some(StatusCode::NotRunning) {
                Ok(())
            } else {
                Err(
                    "an older or unverified Host may be active; it does not expose a registry identity, so close that Host or use its matching Codlet build before editing offline".to_string(),
                )
            }
        },
        _ => Err(
            "control discovery did not prove the registry is offline; an absent mutation pipe alone does not prove it".to_string(),
        ),
    }
}

/// The outcome label a JSON report carries.
pub open spec fn spec_outcome(offline: bool, error: Option<PluginCliError>, completed: bool) -> Seq<char> {
    if offline {
        "offline_saved"@
    } else if error matches Some(PluginCliError::Uncertain(_)) {
        "uncertain"@
    } else if error matches Some(PluginCliError::NotSubmitted(_)) {
        "not_submitted"@
    } else if error is Some {
        "failed"@
    } else if completed {
        "completed"@
    } else {
        "operation_status"@
    }
}

/// The outcome label for a command's result: an offline save, an uncertain
/// or unsubmitted operation, a failure, a completed operation, or a status.
pub fn outcome(offline: bool, result: &Result<(), PluginCliError>, completed: bool) -> (s: &'static str)
    ensures
        s@ == spec_outcome(offline, match result {
            Ok(()) => None,
            Err(e) => Some(*e),
        }, completed),
{
    if offline {
        "offline_saved"
    } else {
        match result {
            Err(PluginCliError::Uncertain(_)) => "uncertain",
            Err(PluginCliError::NotSubmitted(_)) => "not_submitted",
            Err(_) => "failed",
            Ok(()) => if completed {
                "completed"
            } else {
                "operation_status"
            },
        }
    }
}

} // verus!
