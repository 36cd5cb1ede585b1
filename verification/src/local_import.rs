//! An explicit package selection with the grants a user confirmed.
use vstd::prelude::*;

use crate::managed_plugins::ManagedOperation;
use crate::plugin_permissions::BrokerPolicy;
use crate::plugins::Permission;

verus! {

/// A confirmed local or managed package selection.
#[derive(Debug, Clone)]
pub struct LocalImportRequest {
    pub path: String,
    pub content_digest: String,
    pub registration_digest: String,
    pub trusted: bool,
    pub grants: Vec<Permission>,
    pub broker_policy: BrokerPolicy,
    pub enable: bool,
    pub managed: Option<ManagedOperation>,
}

} // verus!

verus! {

impl LocalImportRequest {
    /// Refuses a selection the user did not explicitly trust.
    pub fn validate(&self) -> (r: Result<(), crate::plugin_control::PluginControlError>)
        ensures
            r is Ok <==> self.trusted,
            r matches Err(e) ==> e.code@ == "trust_required"@ && e.message@
                == "Importing a plugin requires explicitly trusting its source."@,
    {
        if !self.trusted {
            return Err(crate::plugin_control::PluginControlError::new(
                "trust_required",
                "Importing a plugin requires explicitly trusting its source.",
            ));
        }
        Ok(())
    }
}

} // verus!
