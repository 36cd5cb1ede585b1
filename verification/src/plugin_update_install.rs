//! Automatic update installation: which release asset to download, whether
//! an update needs an explicit review before it is installed, and the
//! management request and receipt checks that install it.
use vstd::prelude::*;

use crate::github_distribution::{GitHubAsset, GitHubRelease, GitHubSource};
use crate::managed_plugins::{copy_permissions, ManagedOperation, ManagedPreview};
use crate::plugin_control::{PluginControlAction, PluginControlRequest};
use crate::plugin_permissions::BrokerPolicy;
use crate::plugin_cli::ControlStatus;
use crate::text::{copy_string, copy_strings};
use crate::plugins::{contains_permission, Permission};
use crate::text::{ascii_lower, chars_of, chars_equal, ends_with, lower_char, starts_with, chars_start_with};
use crate::plugin_updates::spec_tag_version;

verus! {

/// Replaces every non-overlapping occurrence of `from`, left to right; an
/// empty `from` inserts `to` before every character and at the end.
pub open spec fn spec_replace(s: Seq<char>, from: Seq<char>, to: Seq<char>) -> Seq<char>
    decreases s.len(),
{
    if from.len() == 0 {
        if s.len() == 0 {
            to
        } else {
            to + seq![s[0]] + spec_replace(s.drop_first(), from, to)
        }
    } else if s.len() == 0 {
        s
    } else if starts_with(s, from) {
        to + spec_replace(s.skip(from.len() as int), from, to)
    } else {
        seq![s[0]] + spec_replace(s.drop_first(), from, to)
    }
}

/// `{version}` as characters.
pub open spec fn version_placeholder() -> Seq<char> {
    seq!['{', 'v', 'e', 'r', 's', 'i', 'o', 'n', '}']
}

/// An asset name with the release tag, then the tag without its `v`,
/// replaced by `{version}`.
pub open spec fn spec_asset_pattern(name: Seq<char>, tag: Seq<char>) -> Seq<char> {
    spec_replace(
        spec_replace(name, tag, version_placeholder()),
        spec_tag_version(tag),
        version_placeholder(),
    )
}

/// Replaces every non-overlapping occurrence of `from` by `to`.
pub fn replace_chars(s: &[char], from: &[char], to: &[char]) -> (r: Vec<char>)
    ensures
        r@ == spec_replace(s@, from@, to@),
    decreases s@.len(),
{
    let mut out: Vec<char> = Vec::new();
    if from.len() == 0 {
        let mut k: usize = 0;
        while k < to.len()
            invariant
                k <= to@.len(),
                out@ == to@.take(k as int),
            decreases to@.len() - k,
        {
            out.push(to[k]);
            k = k + 1;
            proof {
                assert(out@ =~= to@.take(k as int));
            }
        }
        proof {
            assert(to@.take(to@.len() as int) =~= to@);
        }
        if s.len() == 0 {
            return out;
        }
        out.push(s[0]);
        let rest = replace_chars(&s[1..s.len()], from, to);
        proof {
            assert(s@.subrange(1, s@.len() as int) =~= s@.drop_first());
        }
        let mut k: usize = 0;
        let ghost base = out@;
        while k < rest.len()
            invariant
                k <= rest@.len(),
                out@ == base + rest@.take(k as int),
            decreases rest@.len() - k,
        {
            out.push(rest[k]);
            k = k + 1;
            proof {
                assert(out@ =~= base + rest@.take(k as int));
            }
        }
        proof {
            assert(rest@.take(rest@.len() as int) =~= rest@);
            assert(out@ =~= to@ + seq![s@[0]] + spec_replace(s@.drop_first(), from@, to@));
        }
        return out;
    }
    if s.len() == 0 {
        proof {
            assert(out@ =~= s@);
        }
        return out;
    }
    let (head, rest_start): (Vec<char>, usize) = if chars_start_with(s, from) {
        let mut h: Vec<char> = Vec::new();
        let mut k: usize = 0;
        while k < to.len()
            invariant
                k <= to@.len(),
                h@ == to@.take(k as int),
            decreases to@.len() - k,
        {
            h.push(to[k]);
            k = k + 1;
            proof {
                assert(h@ =~= to@.take(k as int));
            }
        }
        proof {
            assert(to@.take(to@.len() as int) =~= to@);
        }
        (h, from.len())
    } else {
        let mut h: Vec<char> = Vec::new();
        h.push(s[0]);
        proof {
            assert(h@ =~= seq![s@[0]]);
        }
        (h, 1)
    };
    let rest = replace_chars(&s[rest_start..s.len()], from, to);
    proof {
        assert(s@.subrange(rest_start as int, s@.len() as int) =~= s@.skip(rest_start as int));
        assert(s@.skip(1) =~= s@.drop_first());
    }
    out = head;
    let ghost base = out@;
    let mut k: usize = 0;
    while k < rest.len()
        invariant
            k <= rest@.len(),
            out@ == base + rest@.take(k as int),
        decreases rest@.len() - k,
    {
        out.push(rest[k]);
        k = k + 1;
        proof {
            assert(out@ =~= base + rest@.take(k as int));
        }
    }
    proof {
        assert(rest@.take(rest@.len() as int) =~= rest@);
    }
    out
}


/// `{version}` placeholder.
fn placeholder() -> (v: Vec<char>)
    ensures
        v@ == version_placeholder(),
{
    let mut v: Vec<char> = Vec::new();
    v.push('{');
    v.push('v');
    v.push('e');
    v.push('r');
    v.push('s');
    v.push('i');
    v.push('o');
    v.push('n');
    v.push('}');
    proof {
        assert(v@ =~= version_placeholder());
    }
    v
}

/// The asset name with the tag (and the tag without its `v`) replaced by
/// `{version}`.
pub fn asset_pattern(name: &str, tag: &str) -> (r: Vec<char>)
    ensures
        r@ == spec_asset_pattern(name@, tag@),
{
    let n = chars_of(name);
    let t = chars_of(tag);
    let p = placeholder();
    let first = replace_chars(n.as_slice(), t.as_slice(), p.as_slice());
    let bare = crate::plugin_updates::tag_version(tag);
    replace_chars(first.as_slice(), bare.as_slice(), p.as_slice())
}

/// `.zip` as characters.
pub open spec fn zip_suffix() -> Seq<char> {
    seq!['.', 'z', 'i', 'p']
}

/// An asset is a ZIP archive by its name, ignoring ASCII case.
pub open spec fn is_zip(a: GitHubAsset) -> bool {
    ends_with(a.name@.map_values(|c: char| ascii_lower(c)), zip_suffix())
}

/// The asset corresponds to the installed one by exact name or by name pattern.
pub open spec fn matches_source(a: GitHubAsset, source: GitHubSource, release_tag: Seq<char>) -> bool {
    a.name@ == source.asset_name@
        || spec_asset_pattern(a.name@, release_tag) == spec_asset_pattern(source.asset_name@, source.tag@)
}

/// ZIP assets of a release, in order.
pub open spec fn zip_assets(assets: Seq<GitHubAsset>) -> Seq<GitHubAsset> {
    assets.filter(|a: GitHubAsset| is_zip(a))
}

/// ZIP assets that correspond to the installed asset, in order.
pub open spec fn matching_assets(source: GitHubSource, release: GitHubRelease) -> Seq<GitHubAsset> {
    zip_assets(release.assets@).filter(|a: GitHubAsset| matches_source(a, source, release.tag@))
}

/// The asset to download: the only ZIP asset, or else the only ZIP asset
/// matching the installed asset's name or name pattern.
pub open spec fn spec_select_asset(source: GitHubSource, release: GitHubRelease) -> Option<GitHubAsset> {
    if zip_assets(release.assets@).len() == 1 {
        Some(zip_assets(release.assets@)[0])
    } else if matching_assets(source, release).len() == 1 {
        Some(matching_assets(source, release)[0])
    } else {
        None
    }
}

fn lower_chars(v: &Vec<char>) -> (r: Vec<char>)
    ensures
        r@ == v@.map_values(|c: char| ascii_lower(c)),
{
    let mut r: Vec<char> = Vec::new();
    let mut i: usize = 0;
    while i < v.len()
        invariant
            i <= v@.len(),
            r@ == v@.take(i as int).map_values(|c: char| ascii_lower(c)),
        decreases v@.len() - i,
    {
        r.push(lower_char(v[i]));
        i = i + 1;
        proof {
            assert(r@ =~= v@.take(i as int).map_values(|c: char| ascii_lower(c)));
        }
    }
    proof {
        assert(v@.take(v@.len() as int) =~= v@);
    }
    r
}

fn asset_is_zip(a: &GitHubAsset) -> (b: bool)
    ensures
        b == is_zip(*a),
{
    let name = chars_of(a.name.as_str());
    let lower = lower_chars(&name);
    let mut suffix: Vec<char> = Vec::new();
    suffix.push('.');
    suffix.push('z');
    suffix.push('i');
    suffix.push('p');
    proof {
        assert(suffix@ =~= zip_suffix());
    }
    crate::text::chars_end_with(lower.as_slice(), suffix.as_slice())
}

fn asset_matches(a: &GitHubAsset, source: &GitHubSource, release_tag: &str) -> (b: bool)
    ensures
        b == matches_source(*a, *source, release_tag@),
{
    if crate::text::str_equal(a.name.as_str(), source.asset_name.as_str()) {
        return true;
    }
    let x = asset_pattern(a.name.as_str(), release_tag);
    let y = asset_pattern(source.asset_name.as_str(), source.tag.as_str());
    chars_equal(x.as_slice(), y.as_slice())
}

/// The assets behind a sequence of references.
pub open spec fn derefs(s: Seq<&GitHubAsset>) -> Seq<GitHubAsset> {
    s.map_values(|a: &GitHubAsset| *a)
}

/// Chooses the release asset to install for an installed package.
pub fn select_asset<'a>(source: &GitHubSource, release: &'a GitHubRelease) -> (r: Result<&'a GitHubAsset, String>)
    ensures
        match (r, spec_select_asset(*source, *release)) {
            (Ok(a), Some(b)) => *a == b,
            (Err(_), None) => true,
            _ => false,
        },
{
    let assets = &release.assets;
    let mut zips: Vec<&GitHubAsset> = Vec::new();
    let mut i: usize = 0;
    proof {
        assert(assets@.take(0) =~= Seq::<GitHubAsset>::empty());
        reveal_with_fuel(Seq::<GitHubAsset>::filter, 1);
    }
    while i < assets.len()
        invariant
            i <= assets@.len(),
            derefs(zips@) == zip_assets(assets@.take(i as int)),
        decreases assets@.len() - i,
    {
        proof {
            assert(assets@.take(i as int + 1).drop_last() =~= assets@.take(i as int));
            reveal_with_fuel(Seq::<GitHubAsset>::filter, 1);
        }
        if asset_is_zip(&assets[i]) {
            let ghost before = zips@;
            zips.push(&assets[i]);
            proof {
                assert(derefs(zips@) =~= derefs(before).push(assets@[i as int]));
            }
        }
        i = i + 1;
    }
    proof {
        assert(assets@.take(assets@.len() as int) =~= assets@);
    }
    if zips.len() == 1 {
        proof {
            assert(derefs(zips@)[0] == *zips@[0]);
        }
        return Ok(zips[0]);
    }
    let mut matching: Vec<&GitHubAsset> = Vec::new();
    let mut j: usize = 0;
    proof {
        assert(derefs(zips@).take(0) =~= Seq::<GitHubAsset>::empty());
        assert(derefs(matching@) =~= Seq::<GitHubAsset>::empty());
        reveal_with_fuel(Seq::<GitHubAsset>::filter, 1);
    }
    while j < zips.len()
        invariant
            j <= zips@.len(),
            derefs(zips@) == zip_assets(release.assets@),
            derefs(matching@) == derefs(zips@).take(j as int).filter(|a: GitHubAsset| matches_source(a, *source, release.tag@)),
        decreases zips@.len() - j,
    {
        proof {
            assert(derefs(zips@).take(j as int + 1).drop_last() =~= derefs(zips@).take(j as int));
            assert(derefs(zips@).take(j as int + 1).last() == *zips@[j as int]);
            reveal_with_fuel(Seq::<GitHubAsset>::filter, 1);
        }
        if asset_matches(zips[j], source, release.tag.as_str()) {
            let ghost before = matching@;
            matching.push(zips[j]);
            proof {
                assert(derefs(matching@) =~= derefs(before).push(*zips@[j as int]));
            }
        }
        j = j + 1;
    }
    proof {
        assert(derefs(zips@).take(zips@.len() as int) =~= derefs(zips@));
    }
    if matching.len() == 1 {
        proof {
            assert(derefs(matching@)[0] == *matching@[0]);
        }
        Ok(matching[0])
    } else {
        Err("The latest release has more than one possible package. Choose a ZIP asset manually.".to_string())
    }
}

/// An update needs explicit review unless it is an in-place managed update
/// whose requested permissions are all already granted and which changes no
/// permission, requirement, provision or restart requirement.
pub open spec fn spec_needs_review(p: ManagedPreview) -> bool {
    ||| p.existing_registration is None
    ||| (exists|i: int| 0 <= i < p.manifest.permissions@.len()
        && !p.existing_registration.unwrap().grants@.contains(#[trigger] p.manifest.permissions@[i]))
    ||| p.operation != ManagedOperation::Update
    ||| p.changes.restart_required
    ||| p.changes.permissions_added@.len() > 0
    ||| p.changes.requirements_added@.len() > 0
    ||| p.changes.requirements_removed@.len() > 0
    ||| p.changes.provides_added@.len() > 0
    ||| p.changes.provides_removed@.len() > 0
}

/// Whether the update must be reviewed before installation.
pub fn needs_review(p: &ManagedPreview) -> (b: bool)
    ensures
        b == spec_needs_review(*p),
{
    let registration = match &p.existing_registration {
        None => return true,
        Some(r) => r,
    };
    let mut i: usize = 0;
    while i < p.manifest.permissions.len()
        invariant
            i <= p.manifest.permissions@.len(),
            p.existing_registration == Some(*registration),
            forall|j: int| 0 <= j < i ==> registration.grants@.contains(#[trigger] p.manifest.permissions@[j]),
        decreases p.manifest.permissions@.len() - i,
    {
        if !contains_permission(&registration.grants, p.manifest.permissions[i]) {
            return true;
        }
        i = i + 1;
    }
    p.operation != ManagedOperation::Update || p.changes.restart_required || p.changes.permissions_added.len() > 0
        || p.changes.requirements_added.len() > 0 || p.changes.requirements_removed.len() > 0
        || p.changes.provides_added.len() > 0 || p.changes.provides_removed.len() > 0
}

/// The scopes kept by an update: those of a broker permission the new
/// manifest no longer requests are retired with it.
pub open spec fn kept_scopes(scopes: Seq<String>, requested: Seq<Permission>, permission: Permission) -> Seq<String> {
    if requested.contains(permission) {
        scopes
    } else {
        Seq::empty()
    }
}

/// The management request that installs a reviewed-free update in place:
/// the plugin keeps its enabled state, is granted what the new manifest
/// requests, and keeps only the broker scopes of permissions it still
/// requests.
pub fn update_request(p: &ManagedPreview, id: &str) -> (r: Result<PluginControlRequest, String>)
    ensures
        match p.existing_registration {
            None => r matches Err(e) && e@ == "Installed plugin has no grants."@,
            Some(old) => r matches Ok(q) && {
                &&& q.action == PluginControlAction::Update
                &&& q.plugin_id@ == id@
                &&& q.permission is None
                &&& !q.cascade
                &&& q.remove_source is None
                &&& q.local_import matches Some(li) && {
                    &&& li.path@ == p.path@
                    &&& li.content_digest@ == p.content_digest@
                    &&& li.registration_digest@ == p.registration_digest@
                    &&& li.trusted
                    &&& li.grants@ == p.manifest.permissions@
                    &&& li.enable == p.existing_enabled
                    &&& li.managed == Some(p.operation)
                    &&& li.broker_policy.read_roots@ == kept_scopes(
                        old.broker_policy.read_roots@,
                        p.manifest.permissions@,
                        Permission::HostFs,
                    )
                    &&& li.broker_policy.network_origins@ == kept_scopes(
                        old.broker_policy.network_origins@,
                        p.manifest.permissions@,
                        Permission::HostNetwork,
                    )
                    &&& li.broker_policy.executables@ == kept_scopes(
                        old.broker_policy.executables@,
                        p.manifest.permissions@,
                        Permission::HostProcess,
                    )
                }
            },
        },
{
    let old = match &p.existing_registration {
        Some(r) => r,
        None => return Err("Installed plugin has no grants.".to_string()),
    };
    let perms = &p.manifest.permissions;
    let read_roots = if contains_permission(perms, Permission::HostFs) {
        copy_strings(&old.broker_policy.read_roots)
    } else {
        Vec::new()
    };
    let network_origins = if contains_permission(perms, Permission::HostNetwork) {
        copy_strings(&old.broker_policy.network_origins)
    } else {
        Vec::new()
    };
    let executables = if contains_permission(perms, Permission::HostProcess) {
        copy_strings(&old.broker_policy.executables)
    } else {
        Vec::new()
    };
    let policy = BrokerPolicy { read_roots, network_origins, executables };
    let request = p.request(copy_permissions(perms), policy, p.existing_enabled);
    Ok(PluginControlRequest {
        action: PluginControlAction::Update,
        plugin_id: id.to_string(),
        permission: None,
        cascade: false,
        local_import: Some(Box::new(request)),
        remove_source: None,
    })
}

/// The message of a refused step: the Host's error, else the default.
pub open spec fn message_or(error: Option<String>, default: Seq<char>) -> Seq<char> {
    match error {
        Some(e) => e@,
        None => default,
    }
}

fn message_or_default(error: &Option<String>, default: &str) -> (r: String)
    ensures
        r@ == message_or(*error, default@),
{
    match error {
        Some(e) => copy_string(e),
        None => default.to_string(),
    }
}

/// The receipt of a prepared update: refused unless the Host prepared it
/// and returned an operation ID.
pub fn prepared_receipt(status: ControlStatus, operation_id: &Option<String>, error: &Option<String>) -> (r: Result<
    String,
    String,
>)
    ensures
        status != ControlStatus::Prepared ==> (r matches Err(e) && e@ == message_or(
            *error,
            "The update could not be prepared."@,
        )),
        status == ControlStatus::Prepared ==> match operation_id {
            Some(id) => r matches Ok(t) && t@ == id@,
            None => r matches Err(e) && e@ == "The update returned no receipt."@,
        },
{
    if status != ControlStatus::Prepared {
        return Err(message_or_default(error, "The update could not be prepared."));
    }
    match operation_id {
        Some(id) => Ok(copy_string(id)),
        None => Err("The update returned no receipt.".to_string()),
    }
}

/// Whether the Host took the prepared update: queued, running or already
/// completed; else its error.
pub fn update_submitted(status: ControlStatus, error: &Option<String>) -> (r: Result<(), String>)
    ensures
        r is Ok <==> (status == ControlStatus::Queued || status == ControlStatus::Running || status
            == ControlStatus::Completed),
        r matches Err(e) ==> e@ == message_or(*error, "The update was not submitted."@),
{
    match status {
        ControlStatus::Queued | ControlStatus::Running | ControlStatus::Completed => Ok(()),
        _ => Err(message_or_default(error, "The update was not submitted.")),
    }
}

/// How a finished management operation completed: with an error, or with
/// a report that may carry a message.
#[derive(Debug, Clone)]
pub enum Completion {
    Error(String),
    Report(Option<String>),
}

/// The failure message of a completion.
pub open spec fn completion_message(c: Completion) -> Seq<char> {
    match c {
        Completion::Error(e) => e@,
        Completion::Report(m) => message_or(m, "Plugin update failed."@),
    }
}

/// What one look at the receipt of a submitted update says: `None` while
/// it is queued or running, else how it ended. `completion` is how the
/// operation completed, if the reply says; `error` the Host's error.
pub fn receipt_outcome(status: ControlStatus, success: bool, completion: &Option<Completion>, error: &Option<String>) -> (r: Option<
    Result<(), String>,
>)
    ensures
        success ==> r == Some(Ok::<(), String>(())),
        !success && (status == ControlStatus::Queued || status == ControlStatus::Running) ==> r is None,
        !success && !(status == ControlStatus::Queued || status == ControlStatus::Running) ==> (r matches Some(Err(e))
            && e@ == match completion {
            Some(c) => completion_message(*c),
            None => message_or(*error, "Plugin update status is unavailable."@),
        }),
{
    if success {
        return Some(Ok(()));
    }
    if status == ControlStatus::Queued || status == ControlStatus::Running {
        return None;
    }
    match completion {
        Some(Completion::Error(e)) => Some(Err(copy_string(e))),
        Some(Completion::Report(m)) => Some(Err(message_or_default(m, "Plugin update failed."))),
        None => Some(Err(message_or_default(error, "Plugin update status is unavailable."))),
    }
}


/// An asset is a ZIP archive exactly when its name ends in `.zip`, each of
/// the three letters in either case.
pub proof fn law_zip_assets_end_in_dot_zip(a: GitHubAsset)
    ensures
        is_zip(a) <==> ({
            let n = a.name@;
            let k = n.len() - 4;
            &&& n.len() >= 4
            &&& n[k] == '.'
            &&& (n[k + 1] == 'z' || n[k + 1] == 'Z')
            &&& (n[k + 2] == 'i' || n[k + 2] == 'I')
            &&& (n[k + 3] == 'p' || n[k + 3] == 'P')
        }),
{
    let n = a.name@;
    let low = n.map_values(|c: char| ascii_lower(c));
    if n.len() >= 4 {
        let k = n.len() - 4;
        let tail = low.skip(k);
        assert(tail[0] == ascii_lower(n[k]));
        assert(tail[1] == ascii_lower(n[k + 1]));
        assert(tail[2] == ascii_lower(n[k + 2]));
        assert(tail[3] == ascii_lower(n[k + 3]));
        assert(('A' as u32) + 32 == 'a' as u32);
        if ({
            &&& n[k] == '.'
            &&& (n[k + 1] == 'z' || n[k + 1] == 'Z')
            &&& (n[k + 2] == 'i' || n[k + 2] == 'I')
            &&& (n[k + 3] == 'p' || n[k + 3] == 'P')
        }) {
            assert(tail =~= zip_suffix());
        }
        if is_zip(a) {
            assert(tail[0] == zip_suffix()[0]);
            assert(tail[1] == zip_suffix()[1]);
            assert(tail[2] == zip_suffix()[2]);
            assert(tail[3] == zip_suffix()[3]);
        }
    }
}

proof fn lemma_filter_only(s: Seq<GitHubAsset>, pred: spec_fn(GitHubAsset) -> bool, i: int)
    requires
        0 <= i < s.len(),
        pred(s[i]),
        forall|j: int| 0 <= j < s.len() && j != i ==> !pred(#[trigger] s[j]),
    ensures
        s.filter(pred) =~= seq![s[i]],
    decreases s.len(),
{
    reveal_with_fuel(Seq::<GitHubAsset>::filter, 1);
    let front = s.drop_last();
    if i == s.len() - 1 {
        assert(front.all(|x: GitHubAsset| !pred(x))) by {
            assert forall|j: int| 0 <= j < front.len() implies !pred(#[trigger] front[j]) by {
                assert(front[j] == s[j]);
            }
        }
        front.lemma_all_neg_filter_empty(pred);
        assert(front.filter(pred) =~= Seq::<GitHubAsset>::empty());
    } else {
        assert forall|j: int| 0 <= j < front.len() && j != i implies !pred(#[trigger] front[j]) by {
            assert(front[j] == s[j]);
        }
        lemma_filter_only(front, pred, i);
        assert(!pred(s.last()));
    }
}

/// A release with exactly one ZIP asset (by name, ignoring ASCII case) has
/// that asset selected, whatever its name and whatever the installed asset
/// was called; and any asset selected is a ZIP asset of the release.
pub proof fn law_the_only_zip_asset_is_selected(source: GitHubSource, release: GitHubRelease, i: int)
    ensures
        0 <= i < release.assets@.len() && is_zip(release.assets@[i]) && (forall|j: int|
            0 <= j < release.assets@.len() && j != i ==> !is_zip(#[trigger] release.assets@[j]))
            ==> spec_select_asset(source, release) == Some(release.assets@[i]),
        spec_select_asset(source, release) matches Some(a) ==> release.assets@.contains(a) && is_zip(a),
{
    broadcast use vstd::seq_lib::group_filter_ensures;

    let zp = |a: GitHubAsset| is_zip(a);
    if 0 <= i < release.assets@.len() && is_zip(release.assets@[i]) && (forall|j: int|
        0 <= j < release.assets@.len() && j != i ==> !is_zip(#[trigger] release.assets@[j])) {
        lemma_filter_only(release.assets@, zp, i);
        assert(zip_assets(release.assets@) =~= seq![release.assets@[i]]);
    }
    let zips = zip_assets(release.assets@);
    let mp = |a: GitHubAsset| matches_source(a, source, release.tag@);
    if zips.len() == 1 {
        assert(zips.contains(zips[0]));
        release.assets@.lemma_filter_contains_rev(zp, zips[0]);
    } else if matching_assets(source, release).len() == 1 {
        let m = matching_assets(source, release);
        assert(zips.filter(mp).contains(m[0]));
        zips.lemma_filter_contains_rev(mp, m[0]);
        let k = choose|k: int| 0 <= k < zips.len() && zips[k] == m[0];
        assert(zp(zips[k]));
        release.assets@.lemma_filter_contains_rev(zp, m[0]);
    }
}

} // verus!
