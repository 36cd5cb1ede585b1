//! Verified core of the Codlet plugin runtime: plugin identities and grants,
//! lifecycle planning, release selection, broker path authority, host framing,
//! plugin services and the owner-loop state machines.
pub mod text;
pub mod plugins;
pub mod plugin_permissions;
pub mod runtime_update;
pub mod github_distribution;
pub mod plugin_updates;
pub mod local_import;
pub mod managed_plugins;
pub mod managed_storage;
pub mod plugin_update_install;
pub mod plugin_services;
pub mod platform;
pub mod plugin_control;
pub mod plugin_execution;
pub mod plugin_host;
pub mod os_broker;
pub mod plugin_lifecycle;
pub mod official_update;
pub mod plugin_cli;
pub mod macos;
pub mod plugin_update_source;
pub mod plugin_watch;
pub mod plugin_commands;

use vstd::prelude::*;

verus! {
} // verus!
