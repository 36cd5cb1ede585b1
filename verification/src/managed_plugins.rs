//! Explicit GitHub package registration and version selection.
use vstd::prelude::*;
use crate::text::{copy_string, copy_option, copy_strings};

use crate::github_distribution::GitHubSource;
use crate::local_import::LocalImportRequest;
use crate::plugin_permissions::BrokerPolicy;
use crate::plugins::{
    CapabilityDescriptor, CapabilityView, LocalPluginRegistration, Permission, PluginManifest,
};
use crate::text::{chars_eq_ignore_ascii_case, eq_ignore_ascii_case, is_lower_hex, str_equal, chars_of};

verus! {

/// Most retained versions of one managed plugin.
pub const MAX_HISTORY: usize = 64;

/// Which managed operation a preview was made for.
#[derive(Debug, Clone, Copy, PartialEq, Eq, Structural)]
pub enum ManagedOperation {
    Install,
    Update,
    Adopt,
    Rollback,
}

/// One retained, explicitly confirmed package version.
#[derive(Debug, Clone)]
pub struct ManagedVersion {
    pub version_key: String,
    pub package_path: String,
    pub content_digest: String,
    pub source: GitHubSource,
    pub manifest: PluginManifest,
}

/// Version history of one managed plugin and the selected current version.
#[derive(Debug, Clone)]
pub struct ManagedPluginRecord {
    pub current_version: Option<String>,
    pub history: Vec<ManagedVersion>,
}

/// Keys of a version history.
pub open spec fn history_keys(h: Seq<ManagedVersion>) -> Seq<Seq<char>> {
    h.map_values(|v: ManagedVersion| v.version_key@)
}

/// Index of the first retained version with the given key.
pub open spec fn key_index(h: Seq<ManagedVersion>, key: Seq<char>) -> Option<int> {
    if exists|i: int| 0 <= i < h.len() && h[i].version_key@ == key {
        Some(choose|i: int| 0 <= i < h.len() && h[i].version_key@ == key && forall|j: int| 0 <= j < i ==> h[j].version_key@ != key)
    } else {
        None
    }
}

/// A version history with pairwise distinct keys.
pub open spec fn unique_keys(h: Seq<ManagedVersion>) -> bool {
    forall|i: int, j: int| 0 <= i < j < h.len() ==> h[i].version_key@ != h[j].version_key@
}

impl ManagedPluginRecord {
    /// The retained version named by `current_version`, if any.
    pub open spec fn spec_current(&self) -> Option<int> {
        match self.current_version {
            Some(key) => key_index(self.history@, key@),
            None => None,
        }
    }

    /// The index of the first retained version whose key is the current key.
    pub fn current_index(&self) -> (r: Option<usize>)
        ensures
            match (r, self.spec_current()) {
                (Some(i), Some(j)) => i == j && i < self.history@.len(),
                (None, None) => true,
                _ => false,
            },
    {
        let key = match &self.current_version {
            Some(k) => k,
            None => return None,
        };
        let mut i: usize = 0;
        while i < self.history.len()
            invariant
                i <= self.history@.len(),
                self.current_version == Some(*key),
                forall|j: int| 0 <= j < i ==> self.history@[j].version_key@ != key@,
            decreases self.history@.len() - i,
        {
            if str_equal(self.history[i].version_key.as_str(), key.as_str()) {
                proof {
                    lemma_key_index_is(self.history@, key@, i as int);
                }
                return Some(i);
            }
            i = i + 1;
        }
        None
    }

    /// The first retained version whose key is the current key.
    pub fn current(&self) -> (r: Option<&ManagedVersion>)
        ensures
            match (r, self.spec_current()) {
                (Some(v), Some(i)) => *v == self.history@[i],
                (None, None) => true,
                _ => false,
            },
    {
        let key = match &self.current_version {
            Some(k) => k,
            None => return None,
        };
        let mut i: usize = 0;
        while i < self.history.len()
            invariant
                i <= self.history@.len(),
                self.current_version == Some(*key),
                forall|j: int| 0 <= j < i ==> self.history@[j].version_key@ != key@,
            decreases self.history@.len() - i,
        {
            if str_equal(self.history[i].version_key.as_str(), key.as_str()) {
                proof {
                    lemma_key_index_is(self.history@, key@, i as int);
                }
                return Some(&self.history[i]);
            }
            i = i + 1;
        }
        None
    }
}

proof fn lemma_key_index_found(h: Seq<ManagedVersion>, key: Seq<char>)
    ensures
        key_index(h, key) matches Some(i) ==> 0 <= i < h.len() && h[i].version_key@ == key,
{
    if exists|i: int| 0 <= i < h.len() && h[i].version_key@ == key {
        lemma_first_key_exists(h, key);
        let k = choose|k: int| 0 <= k < h.len() && h[k].version_key@ == key && forall|j: int| 0 <= j < k ==> h[j].version_key@ != key;
        lemma_key_index_is(h, key, k);
    }
}

proof fn lemma_key_index_is(h: Seq<ManagedVersion>, key: Seq<char>, i: int)
    requires
        0 <= i < h.len(),
        h[i].version_key@ == key,
        forall|j: int| 0 <= j < i ==> h[j].version_key@ != key,
    ensures
        key_index(h, key) == Some(i),
{
    let k = choose|k: int| 0 <= k < h.len() && h[k].version_key@ == key && forall|j: int| 0 <= j < k ==> h[j].version_key@ != key;
    assert(0 <= k < h.len() && h[k].version_key@ == key);
    if k < i {
        assert(h[k].version_key@ != key);
    }
    if i < k {
        assert(h[i].version_key@ != key);
    }
}

/// Sixty-four lowercase hexadecimal digits.
pub open spec fn spec_valid_digest(s: Seq<char>) -> bool {
    s.len() == 64 && forall|i: int| 0 <= i < s.len() ==> is_lower_hex(#[trigger] s[i])
}

/// Whether the text is a SHA-256 digest in lowercase hexadecimal.
pub fn valid_digest(value: &str) -> (b: bool)
    ensures
        b == spec_valid_digest(value@),
{
    let v = chars_of(value);
    if v.len() != 64 {
        return false;
    }
    let mut i: usize = 0;
    while i < v.len()
        invariant
            i <= v@.len(),
            v@ == value@,
            forall|j: int| 0 <= j < i ==> is_lower_hex(#[trigger] v@[j]),
        decreases v@.len() - i,
    {
        let c = v[i];
        if !(('0' <= c && c <= '9') || ('a' <= c && c <= 'f')) {
            assert(!is_lower_hex(v@[i as int]));
            return false;
        }
        i = i + 1;
    }
    true
}

/// Two sources name the same GitHub repository (and, where known, the same
/// numeric repository and owner identities).
pub open spec fn spec_same_repository(left: GitHubSource, right: GitHubSource) -> bool {
    &&& eq_ignore_ascii_case(left.owner@, right.owner@)
    &&& eq_ignore_ascii_case(left.repository@, right.repository@)
    &&& eq_ignore_ascii_case(left.repository_url@, right.repository_url@)
    &&& (left.repository_id is None || right.repository_id == left.repository_id)
    &&& (left.owner_id is None || right.owner_id == left.owner_id)
}

/// Whether an update from `left` may come from `right`.
pub fn same_repository(left: &GitHubSource, right: &GitHubSource) -> (b: bool)
    ensures
        b == spec_same_repository(*left, *right),
{
    let a = chars_of(left.owner.as_str());
    let b = chars_of(right.owner.as_str());
    let c = chars_of(left.repository.as_str());
    let d = chars_of(right.repository.as_str());
    let e = chars_of(left.repository_url.as_str());
    let f = chars_of(right.repository_url.as_str());
    chars_eq_ignore_ascii_case(a.as_slice(), b.as_slice())
        && chars_eq_ignore_ascii_case(c.as_slice(), d.as_slice())
        && chars_eq_ignore_ascii_case(e.as_slice(), f.as_slice())
        && match left.repository_id {
        None => true,
        Some(id) => right.repository_id == Some(id),
    } && match left.owner_id {
        None => true,
        Some(id) => right.owner_id == Some(id),
    }
}

/// Permission, requirement and provision differences between two manifests.
#[derive(Debug, Clone)]
pub struct ManagedChanges {
    pub permissions_added: Vec<Permission>,
    pub permissions_removed: Vec<Permission>,
    pub requirements_added: Vec<CapabilityDescriptor>,
    pub requirements_removed: Vec<CapabilityDescriptor>,
    pub provides_added: Vec<CapabilityDescriptor>,
    pub provides_removed: Vec<CapabilityDescriptor>,
    pub restart_required: bool,
}

/// Elements of `left` not in `right`, in order.
pub open spec fn spec_difference<T>(left: Seq<T>, right: Seq<T>) -> Seq<T> {
    left.filter(|x: T| !right.contains(x))
}

/// Capability views of descriptors.
pub open spec fn capability_views(v: Seq<CapabilityDescriptor>) -> Seq<CapabilityView> {
    v.map_values(|d: CapabilityDescriptor| d@)
}

/// Permissions of `left` not granted in `right`, in order.
pub fn permission_difference(left: &Vec<Permission>, right: &Vec<Permission>) -> (r: Vec<Permission>)
    ensures
        r@ == spec_difference(left@, right@),
{
    let mut out: Vec<Permission> = Vec::new();
    let mut i: usize = 0;
    proof {
        assert(left@.take(0) =~= Seq::<Permission>::empty());
        reveal_with_fuel(Seq::<Permission>::filter, 1);
    }
    while i < left.len()
        invariant
            i <= left@.len(),
            out@ == spec_difference(left@.take(i as int), right@),
        decreases left@.len() - i,
    {
        let p = left[i];
        proof {
            assert(left@.take(i as int + 1).drop_last() =~= left@.take(i as int));
            reveal_with_fuel(Seq::<Permission>::filter, 1);
        }
        if !crate::plugins::contains_permission(right, p) {
            out.push(p);
        }
        i = i + 1;
    }
    proof {
        assert(left@.take(left@.len() as int) =~= left@);
    }
    out
}

fn contains_descriptor(list: &Vec<CapabilityDescriptor>, d: &CapabilityDescriptor) -> (b: bool)
    ensures
        b == capability_views(list@).contains(d@),
{
    let mut i: usize = 0;
    while i < list.len()
        invariant
            i <= list@.len(),
            forall|j: int| 0 <= j < i ==> list@[j]@ != d@,
        decreases list@.len() - i,
    {
        if list[i].same(d) {
            assert(capability_views(list@)[i as int] == d@);
            return true;
        }
        i = i + 1;
    }
    proof {
        if capability_views(list@).contains(d@) {
            let k = choose|k: int| 0 <= k < capability_views(list@).len() && capability_views(list@)[k] == d@;
            assert(list@[k]@ == d@);
        }
    }
    false
}

fn clone_descriptor(d: &CapabilityDescriptor) -> (r: CapabilityDescriptor)
    ensures
        r@ == d@,
{
    CapabilityDescriptor { name: d.name.clone(), api: d.api, scope: d.scope }
}

/// Descriptors of `left` absent from `right`, in order.
pub fn descriptor_difference(left: &Vec<CapabilityDescriptor>, right: &Vec<CapabilityDescriptor>) -> (r: Vec<CapabilityDescriptor>)
    ensures
        capability_views(r@) == spec_difference(capability_views(left@), capability_views(right@)),
{
    let mut out: Vec<CapabilityDescriptor> = Vec::new();
    let mut i: usize = 0;
    proof {
        assert(capability_views(left@).take(0) =~= Seq::<CapabilityView>::empty());
        assert(capability_views(out@) =~= Seq::<CapabilityView>::empty());
        reveal_with_fuel(Seq::<CapabilityView>::filter, 1);
    }
    while i < left.len()
        invariant
            i <= left@.len(),
            capability_views(out@) == spec_difference(capability_views(left@).take(i as int), capability_views(right@)),
        decreases left@.len() - i,
    {
        proof {
            assert(capability_views(left@).take(i as int + 1).drop_last() =~= capability_views(left@).take(i as int));
            assert(capability_views(left@).take(i as int + 1).last() == left@[i as int]@);
            reveal_with_fuel(Seq::<CapabilityView>::filter, 1);
        }
        if !contains_descriptor(right, &left[i]) {
            let ghost before = out@;
            out.push(clone_descriptor(&left[i]));
            proof {
                assert(capability_views(out@) =~= capability_views(before).push(left@[i as int]@));
            }
        }
        i = i + 1;
    }
    proof {
        assert(capability_views(left@).take(left@.len() as int) =~= capability_views(left@));
    }
    out
}

/// The permissions of the previous manifest; none for a new installation.
pub open spec fn previous_permissions(previous: Option<PluginManifest>) -> Seq<Permission> {
    match previous {
        Some(m) => m.permissions@,
        None => Seq::empty(),
    }
}

/// The requirements of the previous manifest; none for a new installation.
pub open spec fn previous_requires(previous: Option<PluginManifest>) -> Seq<CapabilityView> {
    match previous {
        Some(m) => capability_views(m.requires@),
        None => Seq::empty(),
    }
}

/// The provisions of the previous manifest; none for a new installation.
pub open spec fn previous_provides(previous: Option<PluginManifest>) -> Seq<CapabilityView> {
    match previous {
        Some(m) => capability_views(m.provides@),
        None => Seq::empty(),
    }
}

/// The change report from the previous manifest (none for a new
/// installation) to the next one: what each list adds and removes, in the
/// order of the manifest it comes from.
pub open spec fn spec_changes(r: ManagedChanges, previous: Option<PluginManifest>, next: PluginManifest) -> bool {
    &&& r.permissions_added@ == spec_difference(next.permissions@, previous_permissions(previous))
    &&& r.permissions_removed@ == spec_difference(previous_permissions(previous), next.permissions@)
    &&& capability_views(r.requirements_added@) == spec_difference(capability_views(next.requires@), previous_requires(previous))
    &&& capability_views(r.requirements_removed@) == spec_difference(previous_requires(previous), capability_views(next.requires@))
    &&& capability_views(r.provides_added@) == spec_difference(capability_views(next.provides@), previous_provides(previous))
    &&& capability_views(r.provides_removed@) == spec_difference(previous_provides(previous), capability_views(next.provides@))
    &&& !r.restart_required
}

/// What a preview shows changed from the previous manifest (none for a new
/// installation) to the next one.
pub fn changes(previous: Option<&PluginManifest>, next: &PluginManifest) -> (r: ManagedChanges)
    ensures
        spec_changes(
            r,
            match previous {
                Some(m) => Some(*m),
                None => None,
            },
            *next,
        ),
{
    let empty_p: Vec<Permission> = Vec::new();
    let empty_d: Vec<CapabilityDescriptor> = Vec::new();
    proof {
        assert(capability_views(empty_d@) =~= Seq::<CapabilityView>::empty());
    }
    let (op, or, opr) = match previous {
        Some(old) => (&old.permissions, &old.requires, &old.provides),
        None => (&empty_p, &empty_d, &empty_d),
    };
    let permissions_added = permission_difference(&next.permissions, op);
    let permissions_removed = permission_difference(op, &next.permissions);
    let requirements_added = descriptor_difference(&next.requires, or);
    let requirements_removed = descriptor_difference(or, &next.requires);
    let provides_added = descriptor_difference(&next.provides, opr);
    let provides_removed = descriptor_difference(opr, &next.provides);
    proof {
        if previous is None {
            assert(spec_difference(Seq::<Permission>::empty(), next.permissions@) =~= Seq::<Permission>::empty());
            assert(spec_difference(Seq::<CapabilityView>::empty(), capability_views(next.requires@)) =~= Seq::<CapabilityView>::empty());
            assert(spec_difference(Seq::<CapabilityView>::empty(), capability_views(next.provides@)) =~= Seq::<CapabilityView>::empty());
        }
    }
    ManagedChanges {
        permissions_added,
        permissions_removed,
        requirements_added,
        requirements_removed,
        provides_added,
        provides_removed,
        restart_required: false,
    }
}

/// What a user reviews before a managed install, update, adoption or rollback.
#[derive(Debug, Clone)]
pub struct ManagedPreview {
    pub schema: u32,
    /// Always `codlet.managed-preview`.
    pub kind: String,
    pub operation: ManagedOperation,
    pub path: String,
    pub content_digest: String,
    pub registration_digest: String,
    pub manifest: PluginManifest,
    pub source: GitHubSource,
    pub existing_registration: Option<LocalPluginRegistration>,
    pub existing_enabled: bool,
    pub current_version: Option<ManagedVersion>,
    pub history: Vec<ManagedVersion>,
    pub changes: ManagedChanges,
    pub ownership: String,
}

impl ManagedPreview {
    /// The confirmed selection of this preview with the chosen grants.
    pub fn request(&self, grants: Vec<Permission>, broker_policy: BrokerPolicy, enable: bool) -> (r: LocalImportRequest)
        ensures
            r.path@ == self.path@,
            r.content_digest@ == self.content_digest@,
            r.registration_digest@ == self.registration_digest@,
            r.trusted,
            r.grants == grants,
            r.broker_policy == broker_policy,
            r.enable == enable,
            r.managed == Some(self.operation),
    {
        LocalImportRequest {
            path: self.path.clone(),
            content_digest: self.content_digest.clone(),
            registration_digest: self.registration_digest.clone(),
            trusted: true,
            grants,
            broker_policy,
            enable,
            managed: Some(self.operation),
        }
    }
}

} // verus!

verus! {

/// Whether a retained version has the key.
pub fn history_contains_key(history: &Vec<ManagedVersion>, key: &str) -> (b: bool)
    ensures
        b == exists|i: int| 0 <= i < history@.len() && history@[i].version_key@ == key@,
{
    let mut i: usize = 0;
    while i < history.len()
        invariant
            i <= history@.len(),
            forall|j: int| 0 <= j < i ==> history@[j].version_key@ != key@,
        decreases history@.len() - i,
    {
        if str_equal(history[i].version_key.as_str(), key) {
            return true;
        }
        i = i + 1;
    }
    false
}

/// The history after selecting `version`: a retained version is only
/// reselected; a new one is appended, and when the history is full it
/// restarts with the current version, if any, and the new one.
pub open spec fn history_after(history: Seq<ManagedVersion>, current: Option<int>, version: ManagedVersion) -> Seq<
    ManagedVersion,
> {
    if exists|i: int| 0 <= i < history.len() && history[i].version_key@ == version.version_key@ {
        history
    } else if history.len() >= MAX_HISTORY {
        match current {
            Some(i) => seq![history[i], version],
            None => seq![version],
        }
    } else {
        history.push(version)
    }
}

/// Selects `version` as current. A new version is retained after the
/// existing history; when the history is full it restarts with the current
/// version (if any) and the new one. A version already retained is only
/// reselected.
pub fn record_with_version(record: ManagedPluginRecord, version: ManagedVersion) -> (r: ManagedPluginRecord)
    ensures
        r.current_version == Some(version.version_key),
        r.history@ == history_after(record.history@, record.spec_current(), version),
{
    let key = version.version_key.clone();
    let ghost old_history = record.history@;
    let current = record.current_index();
    let mut history = record.history;
    if !history_contains_key(&history, key.as_str()) {
        if history.len() >= MAX_HISTORY {
            let mut kept: Vec<ManagedVersion> = Vec::new();
            match current {
                Some(i) => {
                    let v = history.remove(i);
                    kept.push(v);
                    proof {
                        assert(v == old_history[i as int]);
                    }
                },
                None => {},
            }
            history = kept;
        }
        history.push(version);
        proof {
            if old_history.len() >= MAX_HISTORY {
                match record.spec_current() {
                    Some(i) => assert(history@ =~= seq![old_history[i], version]),
                    None => assert(history@ =~= seq![version]),
                }
            }
        }
    }
    ManagedPluginRecord { current_version: Some(key), history }
}

/// Selecting a version keeps the history bounded, makes that version current
/// and keeps version keys distinct.
pub proof fn law_selecting_a_version_keeps_history_bounded(record: ManagedPluginRecord, version: ManagedVersion, r: ManagedPluginRecord)
    requires
        record.history@.len() <= MAX_HISTORY,
        unique_keys(record.history@),
        r.current_version == Some(version.version_key),
        r.history@ == history_after(record.history@, record.spec_current(), version),
    ensures
        1 <= r.history@.len() <= MAX_HISTORY,
        unique_keys(r.history@),
        r.spec_current() matches Some(i) && r.history@[i].version_key@ == version.version_key@,
{
    let h = r.history@;
    let key = version.version_key@;
    if exists|i: int| 0 <= i < record.history@.len() && record.history@[i].version_key@ == key {
        let i = choose|i: int| 0 <= i < record.history@.len() && record.history@[i].version_key@ == key;
        assert(h[i].version_key@ == key);
    } else {
        assert(h[h.len() - 1] == version);
    }
    assert(exists|i: int| 0 <= i < h.len() && h[i].version_key@ == key);
    let k = choose|k: int| 0 <= k < h.len() && h[k].version_key@ == key && forall|j: int| 0 <= j < k ==> h[j].version_key@ != key;
    if !(exists|k: int| 0 <= k < h.len() && h[k].version_key@ == key && forall|j: int| 0 <= j < k ==> h[j].version_key@ != key) {
        lemma_first_key_exists(h, key);
    }
}

/// Selecting a version that is already retained, as a rollback does, only
/// reselects it: the history stays as it was and the retained entry becomes
/// current.
pub proof fn law_reselecting_a_retained_version_keeps_the_history(
    record: ManagedPluginRecord,
    version: ManagedVersion,
    r: ManagedPluginRecord,
)
    requires
        key_index(record.history@, version.version_key@) is Some,
        r.current_version == Some(version.version_key),
        r.history@ == history_after(record.history@, record.spec_current(), version),
    ensures
        r.history@ == record.history@,
        r.spec_current() == key_index(record.history@, version.version_key@),
{
    lemma_key_index_found(record.history@, version.version_key@);
}

proof fn lemma_first_key_exists(h: Seq<ManagedVersion>, key: Seq<char>)
    requires
        exists|i: int| 0 <= i < h.len() && h[i].version_key@ == key,
    ensures
        exists|k: int| 0 <= k < h.len() && h[k].version_key@ == key && forall|j: int| 0 <= j < k ==> h[j].version_key@ != key,
    decreases h.len(),
{
    if h[0].version_key@ == key {
        assert(forall|j: int| 0 <= j < 0 ==> h[j].version_key@ != key);
    } else {
        let t = h.drop_first();
        let i = choose|i: int| 0 <= i < h.len() && h[i].version_key@ == key;
        assert(t[i - 1].version_key@ == key);
        lemma_first_key_exists(t, key);
        let k = choose|k: int| 0 <= k < t.len() && t[k].version_key@ == key && forall|j: int| 0 <= j < k ==> t[j].version_key@ != key;
        assert forall|j: int| 0 <= j < k + 1 implies h[j].version_key@ != key by {
            if j > 0 {
                assert(h[j] == t[j - 1]);
            }
        }
        assert(h[k + 1] == t[k]);
    }
}

} // verus!

verus! {

/// Two sources with the same provenance, field by field.
pub open spec fn same_source(a: GitHubSource, b: GitHubSource) -> bool {
    &&& a.repository_url@ == b.repository_url@
    &&& a.owner@ == b.owner@
    &&& a.repository@ == b.repository@
    &&& a.repository_id == b.repository_id
    &&& a.owner_id == b.owner_id
    &&& a.release_id == b.release_id
    &&& a.tag@ == b.tag@
    &&& a.asset_id == b.asset_id
    &&& a.asset_name@ == b.asset_name@
    &&& a.asset_url@ == b.asset_url@
    &&& a.asset_size == b.asset_size
    &&& a.sha256@ == b.sha256@
    &&& a.upstream_digest_verified == b.upstream_digest_verified
}

/// Whether two sources have the same provenance.
pub fn sources_equal(a: &GitHubSource, b: &GitHubSource) -> (r: bool)
    ensures
        r == same_source(*a, *b),
{
    str_equal(a.repository_url.as_str(), b.repository_url.as_str()) && str_equal(a.owner.as_str(), b.owner.as_str())
        && str_equal(a.repository.as_str(), b.repository.as_str()) && a.repository_id == b.repository_id
        && a.owner_id == b.owner_id && a.release_id == b.release_id && str_equal(a.tag.as_str(), b.tag.as_str())
        && a.asset_id == b.asset_id && str_equal(a.asset_name.as_str(), b.asset_name.as_str()) && str_equal(
        a.asset_url.as_str(),
        b.asset_url.as_str(),
    ) && a.asset_size == b.asset_size && str_equal(a.sha256.as_str(), b.sha256.as_str())
        && a.upstream_digest_verified == b.upstream_digest_verified
}

fn options_equal(a: &Option<String>, b: &Option<String>) -> (r: bool)
    ensures
        r == (crate::plugins::opt_view(*a) == crate::plugins::opt_view(*b)),
{
    match (a, b) {
        (Some(x), Some(y)) => str_equal(x.as_str(), y.as_str()),
        (None, None) => true,
        _ => false,
    }
}

pub(crate) fn permissions_equal(a: &Vec<Permission>, b: &Vec<Permission>) -> (r: bool)
    ensures
        r == (a@ == b@),
{
    if a.len() != b.len() {
        return false;
    }
    let mut i: usize = 0;
    while i < a.len()
        invariant
            i <= a@.len(),
            a@.len() == b@.len(),
            forall|j: int| 0 <= j < i ==> a@[j] == b@[j],
        decreases a@.len() - i,
    {
        if a[i] != b[i] {
            return false;
        }
        i = i + 1;
    }
    proof {
        assert(a@ =~= b@);
    }
    true
}

fn descriptors_equal(a: &Vec<CapabilityDescriptor>, b: &Vec<CapabilityDescriptor>) -> (r: bool)
    ensures
        r == (capability_views(a@) == capability_views(b@)),
{
    if a.len() != b.len() {
        proof {
            assert(capability_views(a@).len() != capability_views(b@).len());
        }
        return false;
    }
    let mut i: usize = 0;
    while i < a.len()
        invariant
            i <= a@.len(),
            a@.len() == b@.len(),
            forall|j: int| 0 <= j < i ==> capability_views(a@)[j] == capability_views(b@)[j],
        decreases a@.len() - i,
    {
        if !a[i].same(&b[i]) {
            proof {
                assert(capability_views(a@)[i as int] != capability_views(b@)[i as int]);
            }
            return false;
        }
        i = i + 1;
    }
    proof {
        assert(capability_views(a@) =~= capability_views(b@));
    }
    true
}

/// Whether two manifests are the same manifest.
pub fn manifests_equal(a: &PluginManifest, b: &PluginManifest) -> (r: bool)
    ensures
        r == (a@ == b@),
{
    let same = str_equal(a.id.as_str(), b.id.as_str()) && str_equal(a.version.as_str(), b.version.as_str())
        && permissions_equal(&a.permissions, &b.permissions) && descriptors_equal(&a.provides, &b.provides)
        && descriptors_equal(&a.requires, &b.requires) && options_equal(&a.renderer_entry, &b.renderer_entry)
        && options_equal(&a.host_entry, &b.host_entry);
    proof {
        if !same {
            if a@ == b@ {
                assert(a@.provides == capability_views(a.provides@));
                assert(a@.requires == capability_views(a.requires@));
            }
        }
    }
    same
}

/// A retained version matching an inspected rollback package exactly.
pub open spec fn retained_match(v: ManagedVersion, root: Seq<char>, source: GitHubSource, digest: Seq<char>, manifest: PluginManifest) -> bool {
    v.package_path@ == root && same_source(v.source, source) && v.content_digest@ == digest && v.manifest@ == manifest@
}

/// The code of the rule an inspected package breaks for the operation, in
/// the order the rules are checked; `None` when the preview may proceed.
pub open spec fn spec_preview_problem(
    operation: ManagedOperation,
    root: Seq<char>,
    manifest: PluginManifest,
    source: GitHubSource,
    digest: Seq<char>,
    record: Option<ManagedPluginRecord>,
    registration: Option<LocalPluginRegistration>,
    verified_installer: bool,
) -> Option<Seq<char>> {
    let current: Option<ManagedVersion> = match record {
        Some(r) => match r.spec_current() {
            Some(i) => Some(r.history@[i]),
            None => None,
        },
        None => None,
    };
    if operation == ManagedOperation::Install && registration is Some {
        Some("registration_conflict"@)
    } else if (operation == ManagedOperation::Update || operation == ManagedOperation::Rollback) && !(current is Some
        && registration is Some && registration.unwrap().path@ == current.unwrap().package_path@) {
        Some("managed_plugin_required"@)
    } else if (operation == ManagedOperation::Update || operation == ManagedOperation::Rollback) && !spec_same_repository(
        current.unwrap().source,
        source,
    ) {
        Some("managed_source_changed"@)
    } else if operation == ManagedOperation::Adopt && !verified_installer {
        Some("installer_source_required"@)
    } else if operation == ManagedOperation::Rollback && !(record is Some && exists|i: int|
        0 <= i < record.unwrap().history@.len() && retained_match(#[trigger] record.unwrap().history@[i], root, source, digest, manifest)) {
        Some("managed_version_changed"@)
    } else {
        None
    }
}

fn control_error(code: &str, message: &str) -> (e: crate::plugin_control::PluginControlError)
    ensures
        e.code@ == code@,
        e.message@ == message@,
{
    crate::plugin_control::PluginControlError::new(code, message)
}

/// The trust rules of a managed preview, decided on an inspected package
/// (its directory, manifest, provenance and content digest) and the
/// registry's record and registration of its ID: an install needs a free
/// ID; an update or rollback needs the current managed registration and the
/// same repository; an adoption needs a verified installer source; and a
/// rollback needs a retained version with exactly this content.
pub fn preview_rules(
    operation: ManagedOperation,
    root: &str,
    manifest: &PluginManifest,
    source: &GitHubSource,
    digest: &str,
    record: Option<&ManagedPluginRecord>,
    registration: Option<&LocalPluginRegistration>,
    verified_installer: bool,
) -> (r: Result<(), crate::plugin_control::PluginControlError>)
    ensures
        match spec_preview_problem(operation, root@, *manifest, *source, digest@, match record {
            Some(x) => Some(*x),
            None => None,
        }, match registration {
            Some(x) => Some(*x),
            None => None,
        }, verified_installer) {
            None => r is Ok,
            Some(code) => r matches Err(e) && e.code@ == code,
        },
{
    let current: Option<&ManagedVersion> = match record {
        Some(r) => r.current(),
        None => None,
    };
    if operation == ManagedOperation::Install && registration.is_some() {
        return Err(control_error(
            "registration_conflict",
            "This ID is already registered. Select an explicit managed update, or unregister it before trusting a different source.",
        ));
    }
    if operation == ManagedOperation::Update || operation == ManagedOperation::Rollback {
        let owned = match (current, registration) {
            (Some(c), Some(reg)) => str_equal(reg.path.as_str(), c.package_path.as_str()),
            _ => false,
        };
        if !owned {
            return Err(control_error(
                "managed_plugin_required",
                "Updates and rollbacks require an existing managed registration.",
            ));
        }
        let c = current.unwrap();
        if !same_repository(&c.source, source) {
            return Err(control_error(
                "managed_source_changed",
                "A different repository cannot inherit this plugin ID or its trust. Unregister the current source and explicitly review a new installation.",
            ));
        }
    }
    if operation == ManagedOperation::Adopt && !verified_installer {
        return Err(control_error(
            "installer_source_required",
            "This registration is not a verified installer package. Review it as a separate local source; Core will not take over its ID.",
        ));
    }
    if operation == ManagedOperation::Rollback {
        let r = record.unwrap();
        if !retained_version_matches(r, root, source, digest, manifest) {
            return Err(control_error(
                "managed_version_changed",
                "The rollback package no longer matches its retained source and content record.",
            ));
        }
    }
    Ok(())
}

fn retained_version_matches(r: &ManagedPluginRecord, root: &str, source: &GitHubSource, digest: &str, manifest: &PluginManifest) -> (b: bool)
    ensures
        b == exists|i: int| 0 <= i < r.history@.len() && retained_match(#[trigger] r.history@[i], root@, *source, digest@, *manifest),
{
    let mut i: usize = 0;
    while i < r.history.len()
        invariant
            i <= r.history@.len(),
            forall|j: int| 0 <= j < i ==> !retained_match(#[trigger] r.history@[j], root@, *source, digest@, *manifest),
        decreases r.history@.len() - i,
    {
        let v = &r.history[i];
        if str_equal(v.package_path.as_str(), root) && sources_equal(&v.source, source) && str_equal(
            v.content_digest.as_str(),
            digest,
        ) && manifests_equal(&v.manifest, manifest) {
            proof {
                assert(retained_match(r.history@[i as int], root@, *source, digest@, *manifest));
            }
            return true;
        }
        i = i + 1;
    }
    false
}

fn find_version(history: &Vec<ManagedVersion>, key: &str) -> (r: Option<usize>)
    ensures
        match r {
            Some(k) => k < history@.len() && key_index(history@, key@) == Some(k as int),
            None => key_index(history@, key@) is None,
        },
{
    let mut i: usize = 0;
    while i < history.len()
        invariant
            i <= history@.len(),
            forall|j: int| 0 <= j < i ==> history@[j].version_key@ != key@,
        decreases history@.len() - i,
    {
        if str_equal(history[i].version_key.as_str(), key) {
            proof {
                lemma_key_index_is(history@, key@, i as int);
            }
            return Some(i);
        }
        i = i + 1;
    }
    None
}

/// The retained version a rollback previews, found by its key.
pub fn preview_rollback<'a>(record: Option<&'a ManagedPluginRecord>, version_key: &str) -> (r: Result<&'a ManagedVersion, crate::plugin_control::PluginControlError>)
    ensures
        record is None ==> (r matches Err(e) && e.code@ == "managed_plugin_required"@ && e.message@
            == "The selected plugin has no managed version history."@),
        record matches Some(rec) ==> match key_index(rec.history@, version_key@) {
            Some(i) => r matches Ok(v) && *v == rec.history@[i],
            None => r matches Err(e) && e.code@ == "managed_version_not_found"@ && e.message@
                == "Choose a retained version from this plugin's history."@,
        },
{
    let rec = match record {
        Some(rec) => rec,
        None => return Err(control_error(
            "managed_plugin_required",
            "The selected plugin has no managed version history.",
        )),
    };
    match find_version(&rec.history, version_key) {
        Some(i) => Ok(&rec.history[i]),
        None => Err(control_error("managed_version_not_found", "Choose a retained version from this plugin's history.")),
    }
}

/// Refuses a rollback to a retained version whose package directory is
/// known to be gone; `package_exists` is `None` when its existence could not
/// be determined, and the preview then decides.
pub fn check_rollback_package(package_exists: Option<bool>) -> (r: Result<(), crate::plugin_control::PluginControlError>)
    ensures
        r is Ok <==> package_exists != Some(false),
        r matches Err(e) ==> e.code@ == "managed_version_missing"@ && e.message@
            == "This retained version's source directory is missing or was explicitly deleted; download that release again."@,
{
    if package_exists == Some(false) {
        return Err(control_error(
            "managed_version_missing",
            "This retained version's source directory is missing or was explicitly deleted; download that release again.",
        ));
    }
    Ok(())
}

/// The preview of a rollback to the retained version `version_key`: the
/// version must be in the plugin's history and its package directory not
/// known to be gone (`package_exists`); the package found there, as
/// `inspected` reports it, is then previewed as a Rollback from that
/// directory. The remaining arguments describe the registry as for `preview`.
pub fn rollback_preview(
    record: Option<&ManagedPluginRecord>,
    version_key: &str,
    package_exists: Option<bool>,
    inspected: &Result<InstalledPackage, crate::plugin_control::PluginControlError>,
    registration: Option<&LocalPluginRegistration>,
    enabled: bool,
    verified_installer: bool,
    staged_registration: Result<(), String>,
    registration_digest: &str,
) -> (r: Result<ManagedPreview, crate::plugin_control::PluginControlError>)
    ensures
        match record {
            None => r matches Err(e) && e.code@ == "managed_plugin_required"@ && e.message@
                == "The selected plugin has no managed version history."@,
            Some(rec) => match key_index(rec.history@, version_key@) {
                None => r matches Err(e) && e.code@ == "managed_version_not_found"@ && e.message@
                    == "Choose a retained version from this plugin's history."@,
                Some(i) => if package_exists == Some(false) {
                    r matches Err(e) && e.code@ == "managed_version_missing"@ && e.message@
                        == "This retained version's source directory is missing or was explicitly deleted; download that release again."@
                } else {
                    match inspected {
                        Err(f) => r matches Err(e) && e.code@ == f.code@ && e.message@ == f.message@,
                        Ok(pkg) => preview_outcome(
                            r,
                            ManagedOperation::Rollback,
                            rec.history@[i].package_path@,
                            pkg.manifest,
                            pkg.source,
                            pkg.digest@,
                            Some(*rec),
                            match registration {
                                Some(x) => Some(*x),
                                None => None,
                            },
                            enabled,
                            verified_installer,
                            staged_registration,
                            None,
                            registration_digest@,
                        ),
                    }
                },
            },
        },
{
    let version = preview_rollback(record, version_key)?;
    check_rollback_package(package_exists)?;
    let pkg = match inspected {
        Ok(pkg) => pkg,
        Err(f) => return Err(control_error(f.code.as_str(), f.message.as_str())),
    };
    preview(
        ManagedOperation::Rollback,
        version.package_path.as_str(),
        &pkg.manifest,
        &pkg.source,
        pkg.digest.as_str(),
        record,
        registration,
        enabled,
        verified_installer,
        staged_registration,
        None,
        registration_digest,
    )
}

/// Whether an installed package still is the version explicitly confirmed:
/// the same source, manifest and content digest.
pub fn version_matches(version: &ManagedVersion, source: &GitHubSource, manifest: &PluginManifest, digest: &str) -> (r: Result<(), crate::plugin_control::PluginControlError>)
    ensures
        r is Ok <==> (same_source(version.source, *source) && version.manifest@ == manifest@ && version.content_digest@ == digest@),
        r matches Err(e) ==> e.code@ == "managed_version_changed"@ && e.message@
            == "Installed managed source or content no longer matches its explicitly confirmed version."@,
{
    if !sources_equal(&version.source, source) || !manifests_equal(&version.manifest, manifest) || !str_equal(
        version.content_digest.as_str(),
        digest,
    ) {
        return Err(control_error(
            "managed_version_changed",
            "Installed managed source or content no longer matches its explicitly confirmed version.",
        ));
    }
    Ok(())
}

/// What inspecting an installed package found: its provenance, manifest
/// and content digest.
#[derive(Debug)]
pub struct InstalledPackage {
    pub source: GitHubSource,
    pub manifest: PluginManifest,
    pub digest: String,
}

/// Whether the loader lets a managed plugin start from an installed package
/// with this source, manifest and content digest: there is no current
/// version, or the package is the current version.
pub open spec fn loader_accepts(rec: ManagedPluginRecord, source: GitHubSource, manifest: PluginManifest, digest: Seq<char>) -> bool {
    match rec.spec_current() {
        None => true,
        Some(i) => same_source(rec.history@[i].source, source) && rec.history@[i].manifest@ == manifest@
            && rec.history@[i].content_digest@ == digest,
    }
}

/// A version newly selected by staging (`record_with_version` or `stage`)
/// becomes current, and the package it was staged from passes the loader's
/// guard of the new record.
pub proof fn law_a_newly_staged_version_passes_the_loader_guard(
    record: ManagedPluginRecord,
    version: ManagedVersion,
    next: ManagedPluginRecord,
)
    requires
        key_index(record.history@, version.version_key@) is None,
        next.current_version == Some(version.version_key),
        next.history@ == history_after(record.history@, record.spec_current(), version),
    ensures
        next.spec_current() matches Some(k) && next.history@[k] == version,
        loader_accepts(next, version.source, version.manifest, version.content_digest@),
{
    if let Some(c) = record.current_version {
        lemma_key_index_found(record.history@, c@);
    }
    lemma_selected_is_current(record.history@, record.spec_current(), version);
}

/// The loader's guard for a managed plugin: a plugin without a managed
/// record or without a current version passes; otherwise `inspected`, the
/// inspection of the current version's directory, must have succeeded and
/// must still be that version.
pub fn validate_current(record: Option<&ManagedPluginRecord>, inspected: &Result<InstalledPackage, String>) -> (r: Result<
    (),
    crate::plugin_control::PluginControlError,
>)
    ensures
        match record {
            None => r is Ok,
            Some(rec) => match rec.spec_current() {
                None => r is Ok,
                Some(i) => match inspected {
                    Err(m) => r matches Err(e) && e.code@ == "managed_package_invalid"@ && e.message@ == m@,
                    Ok(pkg) => (r is Ok <==> loader_accepts(*rec, pkg.source, pkg.manifest, pkg.digest@)) && (r matches Err(e)
                        ==> e.code@ == "managed_version_changed"@),
                },
            },
        },
{
    let rec = match record {
        Some(rec) => rec,
        None => return Ok(()),
    };
    let version = match rec.current() {
        Some(v) => v,
        None => return Ok(()),
    };
    match inspected {
        Err(m) => Err(control_error("managed_package_invalid", m.as_str())),
        Ok(pkg) => version_matches(version, &pkg.source, &pkg.manifest, pkg.digest.as_str()),
    }
}

} // verus!

verus! {

/// Two retained versions with equal content.
pub open spec fn same_version(a: ManagedVersion, b: ManagedVersion) -> bool {
    a.version_key@ == b.version_key@ && a.package_path@ == b.package_path@ && a.content_digest@ == b.content_digest@
        && same_source(a.source, b.source) && a.manifest@ == b.manifest@
}

/// Two histories with equal versions, in order.
pub open spec fn same_history(a: Seq<ManagedVersion>, b: Seq<ManagedVersion>) -> bool {
    a.len() == b.len() && forall|i: int| 0 <= i < a.len() ==> same_version(#[trigger] a[i], b[i])
}




pub(crate) fn copy_permissions(v: &Vec<Permission>) -> (r: Vec<Permission>)
    ensures
        r@ == v@,
{
    let mut out: Vec<Permission> = Vec::new();
    let mut i: usize = 0;
    while i < v.len()
        invariant
            i <= v@.len(),
            out@ == v@.take(i as int),
        decreases v@.len() - i,
    {
        out.push(v[i]);
        i = i + 1;
        proof {
            assert(out@ =~= v@.take(i as int));
        }
    }
    proof {
        assert(v@.take(v@.len() as int) =~= v@);
    }
    out
}

fn copy_descriptors(v: &Vec<CapabilityDescriptor>) -> (r: Vec<CapabilityDescriptor>)
    ensures
        capability_views(r@) == capability_views(v@),
{
    let mut out: Vec<CapabilityDescriptor> = Vec::new();
    let mut i: usize = 0;
    while i < v.len()
        invariant
            i <= v@.len(),
            capability_views(out@) == capability_views(v@).take(i as int),
        decreases v@.len() - i,
    {
        let ghost before = out@;
        out.push(clone_descriptor(&v[i]));
        i = i + 1;
        proof {
            assert(capability_views(out@) =~= capability_views(before).push(v@[i - 1]@));
            assert(capability_views(out@) =~= capability_views(v@).take(i as int));
        }
    }
    proof {
        assert(capability_views(v@).take(v@.len() as int) =~= capability_views(v@));
    }
    out
}

/// A copy of a manifest.
pub fn copy_manifest(m: &PluginManifest) -> (r: PluginManifest)
    ensures
        r@ == m@,
{
    PluginManifest {
        id: copy_string(&m.id),
        version: copy_string(&m.version),
        permissions: copy_permissions(&m.permissions),
        provides: copy_descriptors(&m.provides),
        requires: copy_descriptors(&m.requires),
        renderer_entry: copy_option(&m.renderer_entry),
        host_entry: copy_option(&m.host_entry),
    }
}

/// A copy of a source.
pub fn copy_source(s: &GitHubSource) -> (r: GitHubSource)
    ensures
        same_source(r, *s),
{
    GitHubSource {
        repository_url: copy_string(&s.repository_url),
        owner: copy_string(&s.owner),
        repository: copy_string(&s.repository),
        repository_id: s.repository_id,
        owner_id: s.owner_id,
        release_id: s.release_id,
        tag: copy_string(&s.tag),
        asset_id: s.asset_id,
        asset_name: copy_string(&s.asset_name),
        asset_url: copy_string(&s.asset_url),
        asset_size: s.asset_size,
        sha256: copy_string(&s.sha256),
        upstream_digest_verified: s.upstream_digest_verified,
    }
}

fn copy_version(v: &ManagedVersion) -> (r: ManagedVersion)
    ensures
        same_version(r, *v),
{
    ManagedVersion {
        version_key: copy_string(&v.version_key),
        package_path: copy_string(&v.package_path),
        content_digest: copy_string(&v.content_digest),
        source: copy_source(&v.source),
        manifest: copy_manifest(&v.manifest),
    }
}

fn copy_history(h: &Vec<ManagedVersion>) -> (r: Vec<ManagedVersion>)
    ensures
        same_history(r@, h@),
{
    let mut out: Vec<ManagedVersion> = Vec::new();
    let mut i: usize = 0;
    while i < h.len()
        invariant
            i <= h@.len(),
            out@.len() == i,
            forall|j: int| 0 <= j < i ==> same_version(#[trigger] out@[j], h@[j]),
        decreases h@.len() - i,
    {
        out.push(copy_version(&h[i]));
        i = i + 1;
    }
    out
}

fn copy_registration(r: &LocalPluginRegistration) -> (c: LocalPluginRegistration)
    ensures
        c@ == r@,
{
    let c = LocalPluginRegistration {
        path: copy_string(&r.path),
        grants: copy_permissions(&r.grants),
        broker_policy: BrokerPolicy {
            read_roots: copy_strings(&r.broker_policy.read_roots),
            network_origins: copy_strings(&r.broker_policy.network_origins),
            executables: copy_strings(&r.broker_policy.executables),
        },
    };
    proof {
        assert(c.broker_policy.read_roots.deep_view() =~= r.broker_policy.read_roots.deep_view());
        assert(c.broker_policy.network_origins.deep_view() =~= r.broker_policy.network_origins.deep_view());
        assert(c.broker_policy.executables.deep_view() =~= r.broker_policy.executables.deep_view());
    }
    c
}

/// The current version of an optional record.
pub open spec fn current_of(record: Option<ManagedPluginRecord>) -> Option<ManagedVersion> {
    match record {
        Some(r) => match r.spec_current() {
            Some(i) => Some(r.history@[i]),
            None => None,
        },
        None => None,
    }
}

/// What `preview` gives for an inspected package at `root`: the refusal its
/// trust rules or the staged registration call for, else the preview with the
/// changes measured from the current managed manifest (for an adoption, from
/// the registered source's manifest).
pub open spec fn preview_outcome(
    r: Result<ManagedPreview, crate::plugin_control::PluginControlError>,
    operation: ManagedOperation,
    root: Seq<char>,
    manifest: PluginManifest,
    source: GitHubSource,
    digest: Seq<char>,
    record: Option<ManagedPluginRecord>,
    registration: Option<LocalPluginRegistration>,
    enabled: bool,
    verified_installer: bool,
    staged_registration: Result<(), String>,
    adopted_manifest: Option<PluginManifest>,
    registration_digest: Seq<char>,
) -> bool {
    match spec_preview_problem(operation, root, manifest, source, digest, record, registration, verified_installer) {
        Some(code) => r matches Err(e) && e.code@ == code,
        None => if staged_registration is Err {
            r matches Err(e) && e.code@ == "registration_conflict"@
        } else {
            r matches Ok(p) && {
                &&& p.schema == 1
                &&& p.kind@ == "codlet.managed-preview"@
                &&& p.operation == operation
                &&& p.path@ == root
                &&& p.content_digest@ == digest
                &&& p.registration_digest@ == registration_digest
                &&& p.manifest@ == manifest@
                &&& same_source(p.source, source)
                &&& p.existing_enabled == enabled
                &&& match registration {
                    Some(x) => p.existing_registration matches Some(y) && y@ == x@,
                    None => p.existing_registration is None,
                }
                &&& match current_of(record) {
                    Some(v) => p.current_version matches Some(w) && same_version(w, v),
                    None => p.current_version is None,
                }
                &&& match record {
                    Some(x) => same_history(p.history@, x.history@),
                    None => p.history@.len() == 0,
                }
                &&& spec_changes(
                    p.changes,
                    match current_of(record) {
                        Some(v) => Some(v.manifest),
                        None => match adopted_manifest {
                            Some(m) if operation == ManagedOperation::Adopt => Some(m),
                            _ => None,
                        },
                    },
                    manifest,
                )
                &&& p.ownership@ == "core-managed-github"@
            }
        },
    }
}

/// Builds the preview of an inspected package once its trust rules and the
/// registry's own validation of the staged registration pass: the changes
/// are measured from the current managed manifest, or for an adoption from
/// the registered source's manifest.
pub fn preview(
    operation: ManagedOperation,
    root: &str,
    manifest: &PluginManifest,
    source: &GitHubSource,
    digest: &str,
    record: Option<&ManagedPluginRecord>,
    registration: Option<&LocalPluginRegistration>,
    enabled: bool,
    verified_installer: bool,
    staged_registration: Result<(), String>,
    adopted_manifest: Option<&PluginManifest>,
    registration_digest: &str,
) -> (r: Result<ManagedPreview, crate::plugin_control::PluginControlError>)
    ensures
        preview_outcome(
            r,
            operation,
            root@,
            *manifest,
            *source,
            digest@,
            match record {
                Some(x) => Some(*x),
                None => None,
            },
            match registration {
                Some(x) => Some(*x),
                None => None,
            },
            enabled,
            verified_installer,
            staged_registration,
            match adopted_manifest {
                Some(m) => Some(*m),
                None => None,
            },
            registration_digest@,
        ),
{
    preview_rules(operation, root, manifest, source, digest, record, registration, verified_installer)?;
    match staged_registration {
        Ok(()) => {},
        Err(message) => return Err(control_error("registration_conflict", message.as_str())),
    }
    let current: Option<&ManagedVersion> = match record {
        Some(r) => r.current(),
        None => None,
    };
    let previous: Option<&PluginManifest> = match current {
        Some(v) => Some(&v.manifest),
        None => if operation == ManagedOperation::Adopt {
            adopted_manifest
        } else {
            None
        },
    };
    let changes = changes(previous, manifest);
    let existing_registration = match registration {
        Some(reg) => Some(copy_registration(reg)),
        None => None,
    };
    let current_version = match current {
        Some(v) => Some(copy_version(v)),
        None => None,
    };
    let history = match record {
        Some(r) => copy_history(&r.history),
        None => Vec::new(),
    };
    Ok(ManagedPreview {
        schema: 1,
        kind: "codlet.managed-preview".to_string(),
        operation,
        path: root.to_string(),
        content_digest: digest.to_string(),
        registration_digest: registration_digest.to_string(),
        manifest: copy_manifest(manifest),
        source: copy_source(source),
        existing_registration,
        existing_enabled: enabled,
        current_version,
        history,
        changes,
        ownership: "core-managed-github".to_string(),
    })
}


/// Why staging a confirmed managed selection is refused, as an error code and
/// message, in the order the checks run; `None` when it may be staged.
pub open spec fn spec_stage_problem(
    id: Seq<char>,
    request: LocalImportRequest,
    registration_digest: Seq<char>,
    preview: Result<ManagedPreview, crate::plugin_control::PluginControlError>,
    compatibility: Result<(), Seq<char>>,
    staged_digest: Result<Seq<char>, crate::plugin_control::PluginControlError>,
) -> Option<(Seq<char>, Seq<char>)> {
    if !request.trusted {
        Some(("trust_required"@, "Importing a plugin requires explicitly trusting its source."@))
    } else if request.managed is None {
        Some(("managed_preview_required"@, "Use an explicit managed preview."@))
    } else if registration_digest != request.registration_digest@ {
        Some(
            (
                "import_registration_changed"@,
                "The registration, permissions, enabled preference or managed history changed after preview."@,
            ),
        )
    } else if preview is Err {
        Some((preview->Err_0.code@, preview->Err_0.message@))
    } else if compatibility is Err {
        Some(("managed_package_incompatible"@, compatibility->Err_0))
    } else if preview->Ok_0.manifest.id@ != id || preview->Ok_0.path@ != request.path@ || preview->Ok_0.content_digest@
        != request.content_digest@ {
        Some(("import_content_changed"@, "The selected package changed after preview; inspect it again."@))
    } else if staged_digest is Err {
        Some((staged_digest->Err_0.code@, staged_digest->Err_0.message@))
    } else if staged_digest->Ok_0 != request.content_digest@ {
        Some(("import_content_changed"@, "Package content changed during staging."@))
    } else if exists|i: int|
        0 <= i < preview->Ok_0.manifest.permissions@.len() && !request.grants@.contains(
            #[trigger] preview->Ok_0.manifest.permissions@[i],
        ) {
        Some(("permission_required"@, "Every permission the plugin declares must be explicitly granted."@))
    } else {
        None
    }
}

/// A version with this key is retained already, under another directory:
/// selecting it would leave the registration and the current version apart.
pub open spec fn retained_elsewhere(record: Option<ManagedPluginRecord>, key: Seq<char>, path: Seq<char>) -> bool {
    match record {
        Some(x) => key_index(x.history@, key) matches Some(i) && x.history@[i].package_path@ != path,
        None => false,
    }
}

proof fn lemma_selected_is_current(history: Seq<ManagedVersion>, current: Option<int>, version: ManagedVersion)
    requires
        current matches Some(i) ==> 0 <= i < history.len() && history[i].version_key@ != version.version_key@
            || key_index(history, version.version_key@) is Some,
    ensures
        key_index(history_after(history, current, version), version.version_key@) matches Some(k) && (
        key_index(history, version.version_key@) matches Some(i) ==> k == i) && (key_index(
            history,
            version.version_key@,
        ) is None ==> history_after(history, current, version)[k] == version),
{
    let key = version.version_key@;
    let h = history_after(history, current, version);
    if exists|i: int| 0 <= i < history.len() && history[i].version_key@ == key {
        assert(key_index(history, key) is Some);
    } else {
        assert(key_index(history, key) is None);
        let last = h.len() - 1;
        assert(h[last] == version);
        assert forall|j: int| 0 <= j < last implies h[j].version_key@ != key by {
            if history.len() >= MAX_HISTORY {
                let i = current->0;
                assert(h[j] == history[i]);
            } else {
                assert(h[j] == history[j]);
            }
        }
        lemma_key_index_is(h, key, last);
    }
}

/// Whether every declared permission is granted.
pub fn grants_cover(grants: &Vec<Permission>, declared: &Vec<Permission>) -> (b: bool)
    ensures
        b == forall|i: int| 0 <= i < declared@.len() ==> grants@.contains(#[trigger] declared@[i]),
{
    let mut i: usize = 0;
    while i < declared.len()
        invariant
            i <= declared@.len(),
            forall|j: int| 0 <= j < i ==> grants@.contains(#[trigger] declared@[j]),
        decreases declared@.len() - i,
    {
        if !crate::plugins::contains_permission(grants, declared[i]) {
            proof {
                assert(!grants@.contains(declared@[i as int]));
            }
            return false;
        }
        i = i + 1;
    }
    true
}

/// A staged managed selection: the record with the selected version
/// current, and the registration to install with it, disabled until the
/// new generation is activated.
#[derive(Debug)]
pub struct StagedManaged {
    pub record: ManagedPluginRecord,
    pub registration: LocalPluginRegistration,
    pub enabled: bool,
}

/// Stages the confirmed managed selection `request` of plugin `id`: the
/// record it leaves, with the previewed package selected as current, and the
/// registration of the request's directory with the confirmed grants and
/// broker policy, disabled. `registration_digest` is the plugin's
/// registration digest now, `preview` the preview made again from the
/// selected package, `compatibility` whether the package suits this device,
/// and `staged_digest` the package digest read again after the preview;
/// `version_key` names the selected version. A key already retained for
/// another directory is refused as a registration conflict, so the current
/// version always lies in the registered directory.
pub fn stage(
    record: Option<ManagedPluginRecord>,
    id: &str,
    request: &LocalImportRequest,
    registration_digest: &str,
    preview: Result<ManagedPreview, crate::plugin_control::PluginControlError>,
    compatibility: Result<(), String>,
    staged_digest: Result<String, crate::plugin_control::PluginControlError>,
    version_key: String,
) -> (r: Result<StagedManaged, crate::plugin_control::PluginControlError>)
    ensures
        ({
            let compat = match compatibility {
                Ok(()) => Ok(()),
                Err(m) => Err(m@),
            };
            let staged = match staged_digest {
                Ok(d) => Ok(d@),
                Err(e) => Err(e),
            };
            match spec_stage_problem(id@, *request, registration_digest@, preview, compat, staged) {
                Some((code, message)) => r matches Err(e) && e.code@ == code && e.message@ == message,
                None => if retained_elsewhere(record, version_key@, request.path@) {
                    r matches Err(e) && e.code@ == "registration_conflict"@ && e.message@
                        == "currentVersion must match the registered directory"@
                } else {
                    r matches Ok(st) && {
                    let p = preview->Ok_0;
                    let version = ManagedVersion {
                        version_key,
                        package_path: p.path,
                        content_digest: p.content_digest,
                        source: p.source,
                        manifest: p.manifest,
                    };
                    &&& st.record.current_version == Some(version_key)
                    &&& st.record.history@ == match record {
                        Some(x) => history_after(x.history@, x.spec_current(), version),
                        None => history_after(Seq::empty(), None, version),
                    }
                    &&& st.registration.path@ == request.path@
                    &&& st.registration.path@ == p.path@
                    &&& st.registration.grants@ == request.grants@
                    &&& st.registration.broker_policy.read_roots@ == request.broker_policy.read_roots@
                    &&& st.registration.broker_policy.network_origins@ == request.broker_policy.network_origins@
                    &&& st.registration.broker_policy.executables@ == request.broker_policy.executables@
                    &&& !st.enabled
                    &&& st.record.spec_current() matches Some(k) && st.record.history@[k].package_path@ == request.path@
                }
                },
            }
        }),
{
    if let Err(e) = request.validate() {
        return Err(e);
    }
    if request.managed.is_none() {
        return Err(crate::plugin_control::PluginControlError::new(
            "managed_preview_required",
            "Use an explicit managed preview.",
        ));
    }
    if !str_equal(registration_digest, request.registration_digest.as_str()) {
        return Err(crate::plugin_control::PluginControlError::new(
            "import_registration_changed",
            "The registration, permissions, enabled preference or managed history changed after preview.",
        ));
    }
    let preview = match preview {
        Ok(p) => p,
        Err(e) => return Err(e),
    };
    if let Err(message) = compatibility {
        return Err(crate::plugin_control::PluginControlError::new("managed_package_incompatible", message.as_str()));
    }
    if !str_equal(preview.manifest.id.as_str(), id) || !str_equal(preview.path.as_str(), request.path.as_str())
        || !str_equal(preview.content_digest.as_str(), request.content_digest.as_str()) {
        return Err(crate::plugin_control::PluginControlError::new(
            "import_content_changed",
            "The selected package changed after preview; inspect it again.",
        ));
    }
    let staged = match staged_digest {
        Ok(d) => d,
        Err(e) => return Err(e),
    };
    if !str_equal(staged.as_str(), request.content_digest.as_str()) {
        return Err(crate::plugin_control::PluginControlError::new(
            "import_content_changed",
            "Package content changed during staging.",
        ));
    }
    if !grants_cover(&request.grants, &preview.manifest.permissions) {
        return Err(crate::plugin_control::PluginControlError::new(
            "permission_required",
            "Every permission the plugin declares must be explicitly granted.",
        ));
    }
    let registration = LocalPluginRegistration {
        path: copy_string(&request.path),
        grants: copy_permissions(&request.grants),
        broker_policy: crate::plugin_permissions::BrokerPolicy {
            read_roots: crate::text::copy_strings(&request.broker_policy.read_roots),
            network_origins: crate::text::copy_strings(&request.broker_policy.network_origins),
            executables: crate::text::copy_strings(&request.broker_policy.executables),
        },
    };
    let version = ManagedVersion {
        version_key,
        package_path: preview.path,
        content_digest: preview.content_digest,
        source: preview.source,
        manifest: preview.manifest,
    };
    let current = match record {
        Some(x) => x,
        None => ManagedPluginRecord { current_version: None, history: Vec::new() },
    };
    let ghost old_history = current.history@;
    let ghost old_current = current.spec_current();
    let ghost current_version_key = match &current.current_version {
        Some(k) => Some(k@),
        None => None::<Seq<char>>,
    };
    match find_version(&current.history, version.version_key.as_str()) {
        Some(i) => {
            if !str_equal(current.history[i].package_path.as_str(), request.path.as_str()) {
                return Err(crate::plugin_control::PluginControlError::new(
                    "registration_conflict",
                    "currentVersion must match the registered directory",
                ));
            }
        },
        None => {},
    }
    let next = record_with_version(current, version);
    proof {
        if let Some(c) = current_version_key {
            lemma_key_index_found(old_history, c);
        }
        lemma_selected_is_current(old_history, old_current, version);
    }
    Ok(StagedManaged { record: next, registration, enabled: false })
}

/// What a registry holds for one plugin: its local registration, its
/// managed record, and whether it is enabled.
#[derive(Debug)]
pub struct RegistryEntry {
    pub local: Option<LocalPluginRegistration>,
    pub managed: Option<ManagedPluginRecord>,
    pub enabled: bool,
}

/// Two managed records with the same current version and history.
pub open spec fn same_record(a: ManagedPluginRecord, b: ManagedPluginRecord) -> bool {
    crate::plugins::opt_view(a.current_version) == crate::plugins::opt_view(b.current_version) && same_history(
        a.history@,
        b.history@,
    )
}

/// Two registry entries for the same plugin that hold the same records.
pub open spec fn same_entry(a: RegistryEntry, b: RegistryEntry) -> bool {
    &&& match (a.local, b.local) {
        (Some(x), Some(y)) => x@ == y@,
        (None, None) => true,
        _ => false,
    }
    &&& match (a.managed, b.managed) {
        (Some(x), Some(y)) => same_record(x, y),
        (None, None) => true,
        _ => false,
    }
    &&& a.enabled == b.enabled
}

fn versions_equal(a: &ManagedVersion, b: &ManagedVersion) -> (r: bool)
    ensures
        r == same_version(*a, *b),
{
    str_equal(a.version_key.as_str(), b.version_key.as_str()) && str_equal(a.package_path.as_str(), b.package_path.as_str())
        && str_equal(a.content_digest.as_str(), b.content_digest.as_str()) && sources_equal(&a.source, &b.source)
        && manifests_equal(&a.manifest, &b.manifest)
}

fn records_equal(a: &ManagedPluginRecord, b: &ManagedPluginRecord) -> (r: bool)
    ensures
        r == same_record(*a, *b),
{
    if !options_equal(&a.current_version, &b.current_version) || a.history.len() != b.history.len() {
        return false;
    }
    let mut i: usize = 0;
    while i < a.history.len()
        invariant
            i <= a.history@.len(),
            a.history@.len() == b.history@.len(),
            forall|j: int| 0 <= j < i ==> same_version(#[trigger] a.history@[j], b.history@[j]),
        decreases a.history@.len() - i,
    {
        if !versions_equal(&a.history[i], &b.history[i]) {
            return false;
        }
        i = i + 1;
    }
    true
}

fn entries_equal(a: &RegistryEntry, b: &RegistryEntry) -> (r: bool)
    ensures
        r == same_entry(*a, *b),
{
    let local = match (&a.local, &b.local) {
        (Some(x), Some(y)) => crate::os_broker::authorization::same_registration(x, y),
        (None, None) => true,
        _ => false,
    };
    let managed = match (&a.managed, &b.managed) {
        (Some(x), Some(y)) => records_equal(x, y),
        (None, None) => true,
        _ => false,
    };
    local && managed && a.enabled == b.enabled
}

/// How a failed transaction's registration is put back.
#[derive(Debug, Clone, Copy, PartialEq, Eq, Structural)]
pub enum RestoreStep {
    /// The registry already holds the previous records: only the checkpoint
    /// is cleared.
    AlreadyRestored,
    /// The registry still holds what the transaction wrote: the previous
    /// records are written back.
    Restore,
}

/// Whether a transaction may put back the previous registration of a
/// plugin: only if the registry holds either the previous records or
/// exactly what the transaction wrote. A concurrent change of trust,
/// version or enabled state is never undone.
pub fn restore_decision(expected: &RegistryEntry, previous: &RegistryEntry, current: &RegistryEntry) -> (r: Result<
    RestoreStep,
    crate::plugin_control::PluginControlError,
>)
    ensures
        same_entry(*current, *previous) ==> r == Ok::<RestoreStep, crate::plugin_control::PluginControlError>(
            RestoreStep::AlreadyRestored,
        ),
        !same_entry(*current, *previous) && same_entry(*current, *expected) ==> r == Ok::<
            RestoreStep,
            crate::plugin_control::PluginControlError,
        >(RestoreStep::Restore),
        !same_entry(*current, *previous) && !same_entry(*current, *expected) ==> (r matches Err(e) && e.code@
            == "managed_restore_conflict"@ && e.message@
            == "Concurrent trust, version or enabled changes prevent automatic registration restoration; affected packages remain stopped."@),
{
    if entries_equal(current, previous) {
        return Ok(RestoreStep::AlreadyRestored);
    }
    if !entries_equal(current, expected) {
        return Err(control_error(
            "managed_restore_conflict",
            "Concurrent trust, version or enabled changes prevent automatic registration restoration; affected packages remain stopped.",
        ));
    }
    Ok(RestoreStep::Restore)
}

} // verus!

