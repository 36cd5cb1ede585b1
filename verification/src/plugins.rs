//! Plugin identities, permissions, capability descriptors and registrations.
use vstd::prelude::*;

use crate::plugin_permissions::BrokerPolicy;
use crate::text::{chars_of, is_digit, str_equal};

verus! {

/// Longest accepted plugin ID, in characters.
pub const MAX_PLUGIN_ID_CHARS: usize = 128;

/// Authority a plugin manifest declares and a user explicitly grants.
#[derive(Debug, Clone, Copy, PartialEq, Eq, Structural, PartialOrd, Ord, Hash)]
pub enum Permission {
    UiDom,
    UiMainWorld,
    CoreEvents,
    CoreShortcuts,
    HostFs,
    HostFsWrite,
    HostFsWatch,
    HostNetwork,
    HostProcess,
    HostProcessSpawn,
    HostSystem,
    RuntimeManage,
}

impl Permission {
    /// Wire name of the permission.
    pub open spec fn spec_name(self) -> Seq<char> {
        match self {
            Permission::UiDom => "ui.dom"@,
            Permission::UiMainWorld => "ui.mainWorld"@,
            Permission::CoreEvents => "core.events"@,
            Permission::CoreShortcuts => "core.shortcuts"@,
            Permission::HostFs => "host.fs"@,
            Permission::HostFsWrite => "host.fs.write"@,
            Permission::HostFsWatch => "host.fs.watch"@,
            Permission::HostNetwork => "host.network"@,
            Permission::HostProcess => "host.process"@,
            Permission::HostProcessSpawn => "host.process.spawn"@,
            Permission::HostSystem => "host.system"@,
            Permission::RuntimeManage => "runtime.manage"@,
        }
    }

    /// Wire name of the permission.
    pub fn as_str(self) -> (s: &'static str)
        ensures
            s@ == self.spec_name(),
    {
        match self {
            Permission::UiDom => "ui.dom",
            Permission::UiMainWorld => "ui.mainWorld",
            Permission::CoreEvents => "core.events",
            Permission::CoreShortcuts => "core.shortcuts",
            Permission::HostFs => "host.fs",
            Permission::HostFsWrite => "host.fs.write",
            Permission::HostFsWatch => "host.fs.watch",
            Permission::HostNetwork => "host.network",
            Permission::HostProcess => "host.process",
            Permission::HostProcessSpawn => "host.process.spawn",
            Permission::HostSystem => "host.system",
            Permission::RuntimeManage => "runtime.manage",
        }
    }

    /// The permission with the wire name, if any.
    pub fn from_name(name: &str) -> (r: Option<Permission>)
        ensures
            r == permission_named(name@),
            r matches Some(p) ==> p.spec_name() == name@,
    {
        let all = [
            Permission::UiDom,
            Permission::UiMainWorld,
            Permission::CoreEvents,
            Permission::CoreShortcuts,
            Permission::HostFs,
            Permission::HostFsWrite,
            Permission::HostFsWatch,
            Permission::HostNetwork,
            Permission::HostProcess,
            Permission::HostProcessSpawn,
            Permission::HostSystem,
            Permission::RuntimeManage,
        ];
        let mut i: usize = 0;
        while i < 12
            invariant
                i <= 12,
                all@ == seq![
                    Permission::UiDom,
                    Permission::UiMainWorld,
                    Permission::CoreEvents,
                    Permission::CoreShortcuts,
                    Permission::HostFs,
                    Permission::HostFsWrite,
                    Permission::HostFsWatch,
                    Permission::HostNetwork,
                    Permission::HostProcess,
                    Permission::HostProcessSpawn,
                    Permission::HostSystem,
                    Permission::RuntimeManage,
                ],
                forall|j: int| 0 <= j < i ==> (#[trigger] all@[j]).spec_name() != name@,
            decreases 12 - i,
        {
            let p = all[i];
            if str_equal(p.as_str(), name) {
                proof {
                    assert(forall|j: int| 0 <= j < i ==> (#[trigger] all@[j]).spec_name() != name@);
                    assert(all@[0].spec_name() == Permission::UiDom.spec_name());
                }
                return Some(p);
            }
            i = i + 1;
        }
        proof {
            assert(all@[0].spec_name() != name@);
            assert(all@[1].spec_name() != name@);
            assert(all@[2].spec_name() != name@);
            assert(all@[3].spec_name() != name@);
            assert(all@[4].spec_name() != name@);
            assert(all@[5].spec_name() != name@);
            assert(all@[6].spec_name() != name@);
            assert(all@[7].spec_name() != name@);
            assert(all@[8].spec_name() != name@);
            assert(all@[9].spec_name() != name@);
            assert(all@[10].spec_name() != name@);
            assert(all@[11].spec_name() != name@);
        }
        None
    }
}

/// The permission with the wire name, if any.
pub open spec fn permission_named(name: Seq<char>) -> Option<Permission> {
    if name == Permission::UiDom.spec_name() {
        Some(Permission::UiDom)
    } else if name == Permission::UiMainWorld.spec_name() {
        Some(Permission::UiMainWorld)
    } else if name == Permission::CoreEvents.spec_name() {
        Some(Permission::CoreEvents)
    } else if name == Permission::CoreShortcuts.spec_name() {
        Some(Permission::CoreShortcuts)
    } else if name == Permission::HostFs.spec_name() {
        Some(Permission::HostFs)
    } else if name == Permission::HostFsWrite.spec_name() {
        Some(Permission::HostFsWrite)
    } else if name == Permission::HostFsWatch.spec_name() {
        Some(Permission::HostFsWatch)
    } else if name == Permission::HostNetwork.spec_name() {
        Some(Permission::HostNetwork)
    } else if name == Permission::HostProcess.spec_name() {
        Some(Permission::HostProcess)
    } else if name == Permission::HostProcessSpawn.spec_name() {
        Some(Permission::HostProcessSpawn)
    } else if name == Permission::HostSystem.spec_name() {
        Some(Permission::HostSystem)
    } else if name == Permission::RuntimeManage.spec_name() {
        Some(Permission::RuntimeManage)
    } else {
        None
    }
}

/// A character allowed inside a plugin ID.
pub open spec fn plugin_id_char(c: char) -> bool {
    ('a' <= c && c <= 'z') || is_digit(c) || c == '.' || c == '-' || c == '_'
}

/// Plugin IDs: 1..=128 lowercase ASCII letters, digits, dots, hyphens or
/// underscores, starting with a lowercase letter or digit.
pub open spec fn spec_valid_plugin_id(id: Seq<char>) -> bool {
    &&& 1 <= id.len() <= MAX_PLUGIN_ID_CHARS
    &&& (('a' <= id[0] && id[0] <= 'z') || is_digit(id[0]))
    &&& forall|i: int| 0 <= i < id.len() ==> plugin_id_char(#[trigger] id[i])
}

/// Whether the text is a valid plugin ID.
pub fn valid_plugin_id(id: &str) -> (b: bool)
    ensures
        b == spec_valid_plugin_id(id@),
{
    let v = chars_of(id);
    if v.len() == 0 || v.len() > MAX_PLUGIN_ID_CHARS {
        return false;
    }
    let first = v[0];
    if !(('a' <= first && first <= 'z') || ('0' <= first && first <= '9')) {
        return false;
    }
    let mut i: usize = 0;
    while i < v.len()
        invariant
            i <= v@.len(),
            v@ == id@,
            forall|j: int| 0 <= j < i ==> plugin_id_char(#[trigger] v@[j]),
        decreases v@.len() - i,
    {
        let c = v[i];
        if !(('a' <= c && c <= 'z') || ('0' <= c && c <= '9') || c == '.' || c == '-' || c == '_') {
            assert(!plugin_id_char(v@[i as int]));
            return false;
        }
        i = i + 1;
    }
    true
}

/// Whether a permission occurs in a grant list.
pub fn contains_permission(list: &Vec<Permission>, p: Permission) -> (b: bool)
    ensures
        b == list@.contains(p),
{
    let mut i: usize = 0;
    while i < list.len()
        invariant
            i <= list@.len(),
            forall|j: int| 0 <= j < i ==> list@[j] != p,
        decreases list@.len() - i,
    {
        if list[i] == p {
            assert(list@[i as int] == p);
            return true;
        }
        i = i + 1;
    }
    false
}

/// Scope in which a capability is provided or required.
#[derive(Debug, Clone, Copy, PartialEq, Eq, Structural)]
pub enum CapabilityScope {
    Target,
    Global,
}

/// A named, versioned capability contract between plugins.
#[derive(Debug, Clone)]
pub struct CapabilityDescriptor {
    pub name: String,
    pub api: u32,
    pub scope: CapabilityScope,
}

/// Spec view of a capability descriptor.
pub struct CapabilityView {
    pub name: Seq<char>,
    pub api: u32,
    pub scope: CapabilityScope,
}

impl View for CapabilityDescriptor {
    type V = CapabilityView;

    open spec fn view(&self) -> CapabilityView {
        CapabilityView { name: self.name@, api: self.api, scope: self.scope }
    }
}

impl CapabilityDescriptor {
    /// A descriptor with the given name, API version and scope.
    pub fn new(name: &str, api: u32, scope: CapabilityScope) -> (d: Self)
        ensures
            d@ == (CapabilityView { name: name@, api, scope }),
    {
        CapabilityDescriptor { name: name.to_owned(), api, scope }
    }

    /// Whether two descriptors name the same contract.
    pub fn same(&self, other: &CapabilityDescriptor) -> (b: bool)
        ensures
            b == (self@ == other@),
    {
        str_equal(self.name.as_str(), other.name.as_str()) && self.api == other.api
            && self.scope == other.scope
    }
}

/// The parts of a plugin manifest that lifecycle and trust decisions read.
#[derive(Debug, Clone)]
pub struct PluginManifest {
    pub id: String,
    pub version: String,
    pub permissions: Vec<Permission>,
    pub provides: Vec<CapabilityDescriptor>,
    pub requires: Vec<CapabilityDescriptor>,
    pub renderer_entry: Option<String>,
    pub host_entry: Option<String>,
}

/// Spec view of a manifest.
pub struct ManifestView {
    pub id: Seq<char>,
    pub version: Seq<char>,
    pub permissions: Seq<Permission>,
    pub provides: Seq<CapabilityView>,
    pub requires: Seq<CapabilityView>,
    pub renderer_entry: Option<Seq<char>>,
    pub host_entry: Option<Seq<char>>,
}

/// View of an optional string.
pub open spec fn opt_view(s: Option<String>) -> Option<Seq<char>> {
    match s {
        Some(v) => Some(v@),
        None => None,
    }
}

impl View for PluginManifest {
    type V = ManifestView;

    open spec fn view(&self) -> ManifestView {
        ManifestView {
            id: self.id@,
            version: self.version@,
            permissions: self.permissions@,
            provides: self.provides@.map_values(|d: CapabilityDescriptor| d@),
            requires: self.requires@.map_values(|d: CapabilityDescriptor| d@),
            renderer_entry: opt_view(self.renderer_entry),
            host_entry: opt_view(self.host_entry),
        }
    }
}

/// A plugin as loaded into one runtime generation.
#[derive(Debug, Clone)]
pub struct LoadedPlugin {
    pub manifest: PluginManifest,
    pub generation: u64,
}

/// An explicitly trusted local source directory with its grants.
#[derive(Debug, Clone)]
pub struct LocalPluginRegistration {
    pub path: String,
    pub grants: Vec<Permission>,
    pub broker_policy: BrokerPolicy,
}

/// Spec view of a registration.
pub struct RegistrationView {
    pub path: Seq<char>,
    pub grants: Seq<Permission>,
    pub read_roots: Seq<Seq<char>>,
    pub network_origins: Seq<Seq<char>>,
    pub executables: Seq<Seq<char>>,
}

impl View for LocalPluginRegistration {
    type V = RegistrationView;

    open spec fn view(&self) -> RegistrationView {
        RegistrationView {
            path: self.path@,
            grants: self.grants@,
            read_roots: self.broker_policy.read_roots.deep_view(),
            network_origins: self.broker_policy.network_origins.deep_view(),
            executables: self.broker_policy.executables.deep_view(),
        }
    }
}

} // verus!
