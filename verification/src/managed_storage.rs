//! Stable plugin-ID directories for managed packages. Files are replaced only
//! after the previous runtime retired, under a short-lived journal that keeps
//! the previous package restorable until activation commits. This module
//! decides what the journal and checkpoints allow; the owner moves the files.
use vstd::prelude::*;

use crate::managed_plugins::ManagedPluginRecord;
use crate::plugin_control::PluginControlError;
use crate::plugins::{spec_valid_plugin_id, valid_plugin_id, LocalPluginRegistration};
use crate::text::str_equal;

verus! {

fn issue(message: &str) -> (e: PluginControlError)
    ensures
        e.code@ == "managed_storage"@,
        e.message@ == message@,
{
    PluginControlError::new("managed_storage", message)
}

/// What an installation recorded before it moved any file.
#[derive(Debug, Clone)]
pub struct InstallJournal {
    pub schema: u32,
    pub id: String,
    /// The plugin's stable directory.
    pub target: String,
    /// The selected package as it was staged.
    pub staged: String,
    /// The copy about to become the stable directory.
    pub ready: String,
    /// Where the previous stable directory is kept until commit.
    pub backup: Option<String>,
    pub previous_registration: Option<LocalPluginRegistration>,
    pub previous_managed: Option<ManagedPluginRecord>,
    pub previous_enabled: bool,
    /// Registration digests the transaction may leave or find.
    pub allowed_registrations: Vec<String>,
    pub committed: bool,
}

/// The previous state saved before a staged registration replaces it.
#[derive(Debug, Clone)]
pub struct RegistrationCheckpoint {
    pub schema: u32,
    pub id: String,
    /// Registration digest with the staged registration.
    pub candidate: String,
    /// Registration digest before it.
    pub previous: String,
    pub registration: Option<LocalPluginRegistration>,
    pub managed: Option<ManagedPluginRecord>,
    pub enabled: bool,
}

/// Refuses a checkpoint while an earlier transaction of the plugin is
/// unrecovered: a journal, or an earlier checkpoint.
pub fn checkpoint_allowed(journal_exists: bool, checkpoint_exists: bool) -> (r: Result<(), PluginControlError>)
    ensures
        !journal_exists && !checkpoint_exists ==> r is Ok,
        journal_exists ==> (r matches Err(e) && e.code@ == "managed_storage"@ && e.message@
            == "An interrupted installation must be recovered before another update"@),
        !journal_exists && checkpoint_exists ==> (r matches Err(e) && e.code@ == "managed_storage"@ && e.message@
            == "An interrupted registration must be recovered before another update"@),
{
    if journal_exists {
        return Err(issue("An interrupted installation must be recovered before another update"));
    }
    if checkpoint_exists {
        return Err(issue("An interrupted registration must be recovered before another update"));
    }
    Ok(())
}

/// Refuses a recovery record that is not the checkpoint of the plugin its
/// file is named after.
pub fn check_checkpoint(checkpoint: &RegistrationCheckpoint, file_stem: Option<&str>) -> (r: Result<(), PluginControlError>)
    ensures
        r is Ok <==> (checkpoint.schema == 1 && spec_valid_plugin_id(checkpoint.id@) && (file_stem matches Some(s) && s@
            == checkpoint.id@)),
        r matches Err(e) ==> e.code@ == "managed_storage"@ && e.message@ == "Registration recovery identity is invalid"@,
{
    let stem_ok = match file_stem {
        Some(s) => str_equal(s, checkpoint.id.as_str()),
        None => false,
    };
    if checkpoint.schema != 1 || !valid_plugin_id(checkpoint.id.as_str()) || !stem_ok {
        return Err(issue("Registration recovery identity is invalid"));
    }
    Ok(())
}

/// Retires a checkpoint once the registration is the staged or the previous
/// one; a later change of the registration keeps it.
pub fn checkpoint_retirable(checkpoint: &RegistrationCheckpoint, id: &str, current: &str) -> (r: Result<(), PluginControlError>)
    ensures
        r is Ok <==> (checkpoint.id@ == id@ && (current@ == checkpoint.candidate@ || current@ == checkpoint.previous@)),
        r matches Err(e) ==> e.code@ == "managed_storage"@ && e.message@
            == "A later registration change prevents checkpoint retirement"@,
{
    if !str_equal(checkpoint.id.as_str(), id) || (!str_equal(current, checkpoint.candidate.as_str()) && !str_equal(
        current,
        checkpoint.previous.as_str(),
    )) {
        return Err(issue("A later registration change prevents checkpoint retirement"));
    }
    Ok(())
}

/// What startup does with a checkpoint left by an interrupted registration.
#[derive(Debug, Clone, Copy, PartialEq, Eq, Structural)]
pub enum CheckpointAction {
    /// The staged registration is still in place: restore the previous one.
    Restore,
    /// The previous registration is in place: retire the checkpoint.
    Retire,
    /// A later change was made: keep it and leave the plugin alone.
    Defer,
}

/// What startup does with the checkpoint, given the registration digest now.
pub fn checkpoint_action(checkpoint: &RegistrationCheckpoint, current: &str) -> (r: CheckpointAction)
    ensures
        r == if current@ == checkpoint.candidate@ {
            CheckpointAction::Restore
        } else if current@ == checkpoint.previous@ {
            CheckpointAction::Retire
        } else {
            CheckpointAction::Defer
        },
{
    if str_equal(current, checkpoint.candidate.as_str()) {
        CheckpointAction::Restore
    } else if str_equal(current, checkpoint.previous.as_str()) {
        CheckpointAction::Retire
    } else {
        CheckpointAction::Defer
    }
}

/// Whether the journal allows the registration digest found.
pub fn registration_allowed(journal: &InstallJournal, current: &str) -> (r: bool)
    ensures
        r == exists|i: int| 0 <= i < journal.allowed_registrations@.len() && journal.allowed_registrations@[i]@ == current@,
{
    let mut i: usize = 0;
    while i < journal.allowed_registrations.len()
        invariant
            i <= journal.allowed_registrations@.len(),
            forall|j: int| 0 <= j < i ==> journal.allowed_registrations@[j]@ != current@,
        decreases journal.allowed_registrations@.len() - i,
    {
        if str_equal(journal.allowed_registrations[i].as_str(), current) {
            return true;
        }
        i = i + 1;
    }
    false
}

/// Why a managed installation may not begin, in the order checked: an
/// unrecovered journal, no selected version, and a stable directory owned by
/// another registration.
pub open spec fn spec_publish_problem(
    journal_exists: bool,
    selected: bool,
    target_exists: bool,
    target: Seq<char>,
    previous: Option<LocalPluginRegistration>,
) -> Option<Seq<char>> {
    if journal_exists {
        Some("An interrupted installation must be recovered before updating this plugin"@)
    } else if !selected {
        Some("Managed selection missing"@)
    } else if target_exists && !(previous matches Some(r) && r.path@ == target) {
        Some("The plugin ID directory is already owned by another source"@)
    } else {
        None
    }
}

/// Refuses to begin installing into the stable directory `target` when the
/// rules above say so; `record` is the candidate's managed record.
pub fn publish_allowed(
    journal_exists: bool,
    record: Option<&ManagedPluginRecord>,
    target_exists: bool,
    target: &str,
    previous: Option<&LocalPluginRegistration>,
) -> (r: Result<(), PluginControlError>)
    ensures
        ({
            let selected = record matches Some(x) && x.spec_current() is Some;
            let prev = match previous {
                Some(p) => Some(*p),
                None => None,
            };
            match spec_publish_problem(journal_exists, selected, target_exists, target@, prev) {
                None => r is Ok,
                Some(m) => r matches Err(e) && e.code@ == "managed_storage"@ && e.message@ == m,
            }
        }),
{
    if journal_exists {
        return Err(issue("An interrupted installation must be recovered before updating this plugin"));
    }
    let selected = match record {
        Some(x) => x.current().is_some(),
        None => false,
    };
    if !selected {
        return Err(issue("Managed selection missing"));
    }
    let owned = match previous {
        Some(p) => str_equal(p.path.as_str(), target),
        None => false,
    };
    if target_exists && !owned {
        return Err(issue("The plugin ID directory is already owned by another source"));
    }
    Ok(())
}

/// One step of rolling an unfinished installation back, in order; the first
/// step that fails ends the rollback.
#[derive(Debug, Clone, Copy, PartialEq, Eq, Structural)]
pub enum RollbackStep {
    /// Check the backup holds the previous package.
    CheckBackup,
    /// Check the previous registration's directory holds the previous package.
    CheckPreviousDirectory,
    /// Check the stable directory holds this installation's package, then remove it.
    RemoveTarget,
    /// Move the backup back into the stable directory.
    RestoreBackup,
    /// Restore the previous registration, managed record and enabled state.
    RestoreRegistration,
    /// Remove the ready copy and the staged package where no registration uses them.
    CleanStaging,
    RemoveJournal,
}

/// The rollback of the journal's installation, given whether its backup and
/// its stable directory exist; refused when the registration changed in a way
/// the journal does not allow.
pub open spec fn spec_rollback_plan(j: InstallJournal, allowed: bool, backup_exists: bool, target_exists: bool) -> Result<
    Seq<RollbackStep>,
    Seq<char>,
> {
    if !allowed {
        Err("Concurrent permission or source changes prevent installation restoration"@)
    } else {
        let backup = j.backup is Some && backup_exists;
        let check = if backup {
            seq![RollbackStep::CheckBackup]
        } else if j.previous_registration is Some {
            seq![RollbackStep::CheckPreviousDirectory]
        } else {
            seq![]
        };
        let remove = if target_exists && (backup || !(j.previous_registration matches Some(r) && r.path@ == j.target@)) {
            seq![RollbackStep::RemoveTarget]
        } else {
            seq![]
        };
        let restore = if backup {
            seq![RollbackStep::RestoreBackup]
        } else {
            seq![]
        };
        Ok(
            check + remove + restore + seq![
                RollbackStep::RestoreRegistration,
                RollbackStep::CleanStaging,
                RollbackStep::RemoveJournal,
            ],
        )
    }
}

/// How to roll the journal's installation back, given the registration
/// digest now and whether its backup and stable directory exist.
pub fn rollback_plan(journal: &InstallJournal, current: &str, backup_exists: bool, target_exists: bool) -> (r: Result<
    Vec<RollbackStep>,
    PluginControlError,
>)
    ensures
        ({
            let allowed = exists|i: int|
                0 <= i < journal.allowed_registrations@.len() && journal.allowed_registrations@[i]@ == current@;
            match spec_rollback_plan(*journal, allowed, backup_exists, target_exists) {
                Ok(steps) => r matches Ok(v) && v@ == steps,
                Err(m) => r matches Err(e) && e.code@ == "managed_storage"@ && e.message@ == m,
            }
        }),
{
    if !registration_allowed(journal, current) {
        return Err(issue("Concurrent permission or source changes prevent installation restoration"));
    }
    let backup = journal.backup.is_some() && backup_exists;
    let mut steps: Vec<RollbackStep> = Vec::new();
    if backup {
        steps.push(RollbackStep::CheckBackup);
    } else if journal.previous_registration.is_some() {
        steps.push(RollbackStep::CheckPreviousDirectory);
    }
    let kept = match &journal.previous_registration {
        Some(r) => str_equal(r.path.as_str(), journal.target.as_str()),
        None => false,
    };
    if target_exists && (backup || !kept) {
        steps.push(RollbackStep::RemoveTarget);
    }
    if backup {
        steps.push(RollbackStep::RestoreBackup);
    }
    steps.push(RollbackStep::RestoreRegistration);
    steps.push(RollbackStep::CleanStaging);
    steps.push(RollbackStep::RemoveJournal);
    proof {
        let allowed = exists|i: int|
            0 <= i < journal.allowed_registrations@.len() && journal.allowed_registrations@[i]@ == current@;
        let want = spec_rollback_plan(*journal, allowed, backup_exists, target_exists);
        assert(want matches Ok(w) && steps@ =~= w);
    }
    Ok(steps)
}

/// Whether a managed plugin's current version still needs moving into its
/// stable directory `target`: it has a current version that is not the only
/// retained one already there.
pub fn needs_migration(record: &ManagedPluginRecord, target: &str) -> (r: bool)
    ensures
        r == match record.spec_current() {
            None => false,
            Some(i) => !(record.history@[i].package_path@ == target@ && record.history@.len() == 1),
        },
{
    match record.current() {
        None => false,
        Some(current) => !(str_equal(current.package_path.as_str(), target) && record.history.len() == 1),
    }
}

/// A rollback never restores over a registration the journal did not allow:
/// when the registration digest now is none the journal names, the rollback
/// is refused.
pub proof fn law_rollback_never_overrides_later_changes(
    j: InstallJournal,
    current: Seq<char>,
    backup_exists: bool,
    target_exists: bool,
)
    requires
        forall|i: int| 0 <= i < j.allowed_registrations@.len() ==> j.allowed_registrations@[i]@ != current,
    ensures
        spec_rollback_plan(
            j,
            exists|i: int| 0 <= i < j.allowed_registrations@.len() && j.allowed_registrations@[i]@ == current,
            backup_exists,
            target_exists,
        ) is Err,
{
}

/// The path separator of a path style.
pub open spec fn separator(style: crate::platform::PathStyle) -> char {
    match style {
        crate::platform::PathStyle::Posix => '/',
        crate::platform::PathStyle::Windows => '\\',
    }
}

/// `dir` joined with a plain name: the directory, one separator, the name.
pub open spec fn joined_path(dir: Seq<char>, name: Seq<char>, style: crate::platform::PathStyle) -> Seq<char> {
    dir.push(separator(style)) + name
}

/// A path whose parent directory is `dir`: `dir`, one separator, and a
/// non-empty name without separators.
pub open spec fn child_of(path: Seq<char>, dir: Seq<char>, style: crate::platform::PathStyle) -> bool {
    &&& path.len() > dir.len() + 1
    &&& path.take(dir.len() as int) == dir
    &&& path[dir.len() as int] == separator(style)
    &&& forall|i: int| dir.len() < i < path.len() ==> path[i] != separator(style)
}

/// A recovery record fit to act on: schema 1, a valid plugin ID, the
/// plugin's stable directory under the packages root, and its ready copy
/// and any backup directly inside the root's `.staging` directory.
pub open spec fn spec_journal_paths_valid(j: InstallJournal, root: Seq<char>, style: crate::platform::PathStyle) -> bool {
    let staging = joined_path(root, ".staging"@, style);
    &&& j.schema == 1
    &&& spec_valid_plugin_id(j.id@)
    &&& j.target@ == joined_path(root, j.id@, style)
    &&& child_of(j.ready@, staging, style)
    &&& (j.backup matches Some(b) ==> child_of(b@, staging, style))
}

fn sep(style: crate::platform::PathStyle) -> (c: char)
    ensures
        c == separator(style),
{
    match style {
        crate::platform::PathStyle::Posix => '/',
        crate::platform::PathStyle::Windows => '\\',
    }
}

fn is_child_of(path: &str, dir: &Vec<char>, style: crate::platform::PathStyle) -> (b: bool)
    ensures
        b == child_of(path@, dir@, style),
{
    let p = crate::text::chars_of(path);
    let c = sep(style);
    if dir.len() >= p.len() || p.len() - dir.len() <= 1 {
        return false;
    }
    if !crate::text::chars_start_with(p.as_slice(), dir.as_slice()) || p[dir.len()] != c {
        return false;
    }
    let mut i: usize = dir.len() + 1;
    while i < p.len()
        invariant
            dir@.len() + 1 <= i <= p@.len(),
            p@ == path@,
            c == separator(style),
            forall|k: int| dir@.len() < k < i ==> p@[k] != c,
        decreases p@.len() - i,
    {
        if p[i] == c {
            return false;
        }
        i = i + 1;
    }
    true
}

/// Refuses a recovery record that does not describe an install under the
/// packages `root`.
pub fn check_journal_paths(journal: &InstallJournal, root: &str, style: crate::platform::PathStyle) -> (r: Result<
    (),
    PluginControlError,
>)
    ensures
        r is Ok <==> spec_journal_paths_valid(*journal, root@, style),
        r matches Err(e) ==> e.code@ == "managed_storage"@ && e.message@ == "Installation recovery paths are invalid"@,
{
    let c = sep(style);
    let mut target: Vec<char> = crate::text::chars_of(root);
    target.push(c);
    crate::text::push_str(&mut target, journal.id.as_str());
    let mut staging: Vec<char> = crate::text::chars_of(root);
    staging.push(c);
    crate::text::push_str(&mut staging, ".staging");
    let t = crate::text::chars_of(journal.target.as_str());
    let backup_ok = match &journal.backup {
        Some(b) => is_child_of(b.as_str(), &staging, style),
        None => true,
    };
    if journal.schema != 1 || !valid_plugin_id(journal.id.as_str()) || !crate::text::chars_equal(t.as_slice(), target.as_slice())
        || !is_child_of(journal.ready.as_str(), &staging, style) || !backup_ok {
        return Err(PluginControlError::new("managed_storage", "Installation recovery paths are invalid"));
    }
    Ok(())
}

} // verus!

