//! Installer-owned official packages: the rules a bundled catalog and its
//! package records must satisfy, which source an update may replace and
//! which records may prove its installed bytes, which permissions an update
//! adds, and how an interrupted install is recovered.
use vstd::prelude::*;

use crate::plugin_control::PluginControlError;
use crate::plugins::{contains_permission, spec_valid_plugin_id, valid_plugin_id, LocalPluginRegistration, Permission};
use crate::text::{ascii_lower, chars_of, is_ascii_alnum, is_lower_hex, split, split_chars, views};

verus! {

pub const MAX_FILE: u64 = 16777216;
pub const MAX_TOTAL: u64 = 67108864;
pub const MAX_FILES: usize = 512;

/// One file of an official package.
#[derive(Debug, Clone)]
pub struct FileRecord {
    pub path: String,
    pub sha256: String,
    pub bytes: u64,
}

/// An official package as its catalog describes it.
#[derive(Debug, Clone)]
pub struct Package {
    pub id: String,
    pub version: String,
    pub permissions: Vec<Permission>,
    pub files: Vec<FileRecord>,
}

/// The official plugin IDs.
pub open spec fn spec_official_id(id: Seq<char>) -> bool {
    id == "codex.ui.adapter"@ || id == "codex.desktop.adapter"@ || id == "codlet-gui"@
}

/// Whether the ID names an official plugin.
pub fn official_id(id: &str) -> (b: bool)
    ensures
        b == spec_official_id(id@),
{
    crate::text::str_equal(id, "codex.ui.adapter") || crate::text::str_equal(id, "codex.desktop.adapter")
        || crate::text::str_equal(id, "codlet-gui")
}

/// A character allowed in a package file path.
pub open spec fn path_char(c: char) -> bool {
    is_ascii_alnum(c) || c == '.' || c == '_' || c == '/' || c == '-'
}

/// A relative path of plain names joined by `/`.
pub open spec fn spec_valid_file_path(p: Seq<char>) -> bool {
    &&& p.len() > 0
    &&& forall|i: int| 0 <= i < split(p, '/').len() ==> {
        let s = #[trigger] split(p, '/')[i];
        s.len() > 0 && s != seq!['.'] && s != seq!['.', '.']
    }
    &&& forall|i: int| 0 <= i < p.len() ==> path_char(#[trigger] p[i])
}

/// A well-formed file record on its own.
pub open spec fn spec_valid_record(f: FileRecord) -> bool {
    &&& spec_valid_file_path(f.path@)
    &&& f.sha256@.len() == 64
    &&& forall|i: int| 0 <= i < f.sha256@.len() ==> is_lower_hex(#[trigger] f.sha256@[i])
    &&& f.bytes <= MAX_FILE
}

/// The path of a record, ASCII-lowercased.
pub open spec fn lower_path(f: FileRecord) -> Seq<char> {
    f.path@.map_values(|c: char| ascii_lower(c))
}

/// The total size of the records.
pub open spec fn total_bytes(fs: Seq<FileRecord>) -> int
    decreases fs.len(),
{
    if fs.len() == 0 {
        0
    } else {
        total_bytes(fs.drop_last()) + fs.last().bytes
    }
}

/// An official package record: a valid ID, 1..=512 well-formed files whose
/// paths differ ignoring ASCII case, at most 64 MiB in all, one of them the
/// manifest `codlet.json`.
pub open spec fn spec_valid_package_files(p: Package) -> bool {
    &&& forall|i: int| 0 <= i < p.files@.len() ==> spec_valid_record(#[trigger] p.files@[i])
    &&& forall|i: int, j: int| 0 <= i < j < p.files@.len() ==> lower_path(p.files@[i]) != lower_path(p.files@[j])
}

/// Which rule a package breaks first, by message; `None` when it is valid.
pub open spec fn spec_package_problem(p: Package) -> Option<Seq<char>> {
    if !spec_valid_plugin_id(p.id@) || p.files@.len() == 0 || p.files@.len() > MAX_FILES {
        Some("Invalid official package identity or file count"@)
    } else if !spec_valid_package_files(p) {
        Some("Invalid official package file record"@)
    } else if total_bytes(p.files@) > MAX_TOTAL || !(exists|i: int| 0 <= i < p.files@.len() && lower_path(
        #[trigger] p.files@[i],
    ) == "codlet.json"@) {
        Some("Invalid package size or missing manifest"@)
    } else {
        None
    }
}

fn record_ok(f: &FileRecord) -> (b: bool)
    ensures
        b == spec_valid_record(*f),
{
    let p = chars_of(f.path.as_str());
    if p.len() == 0 {
        return false;
    }
    let pieces = split_chars(p.as_slice(), '/');
    let mut i: usize = 0;
    while i < pieces.len()
        invariant
            i <= pieces@.len(),
            views(pieces@) == split(f.path@, '/'),
            p@ == f.path@,
            forall|j: int| 0 <= j < i ==> {
                let s = #[trigger] split(f.path@, '/')[j];
                s.len() > 0 && s != seq!['.'] && s != seq!['.', '.']
            },
        decreases pieces@.len() - i,
    {
        let s = &pieces[i];
        proof {
            assert(split(f.path@, '/')[i as int] == s@);
            if s@ == seq!['.'] {
                assert(s@[0] == '.');
            }
            if s@ == seq!['.', '.'] {
                assert(s@[0] == '.' && s@[1] == '.');
            }
            if s@.len() == 1 && s@[0] == '.' {
                assert(s@ =~= seq!['.']);
            }
            if s@.len() == 2 && s@[0] == '.' && s@[1] == '.' {
                assert(s@ =~= seq!['.', '.']);
            }
        }
        if s.len() == 0 || (s.len() == 1 && s[0] == '.') || (s.len() == 2 && s[0] == '.' && s[1] == '.') {
            return false;
        }
        i = i + 1;
    }
    let mut k: usize = 0;
    while k < p.len()
        invariant
            k <= p@.len(),
            p@ == f.path@,
            forall|j: int| 0 <= j < k ==> path_char(#[trigger] p@[j]),
        decreases p@.len() - k,
    {
        let c = p[k];
        if !(('0' <= c && c <= '9') || ('a' <= c && c <= 'z') || ('A' <= c && c <= 'Z') || c == '.' || c == '_' || c == '/'
            || c == '-') {
            proof {
                assert(!path_char(p@[k as int]));
            }
            return false;
        }
        k = k + 1;
    }
    let h = chars_of(f.sha256.as_str());
    if h.len() != 64 {
        return false;
    }
    let mut m: usize = 0;
    while m < h.len()
        invariant
            m <= h@.len(),
            h@ == f.sha256@,
            forall|j: int| 0 <= j < m ==> is_lower_hex(#[trigger] h@[j]),
        decreases h@.len() - m,
    {
        let c = h[m];
        if !(('0' <= c && c <= '9') || ('a' <= c && c <= 'f')) {
            proof {
                assert(!is_lower_hex(h@[m as int]));
            }
            return false;
        }
        m = m + 1;
    }
    f.bytes <= MAX_FILE
}

fn lowered(f: &FileRecord) -> (r: Vec<char>)
    ensures
        r@ == lower_path(*f),
{
    let p = chars_of(f.path.as_str());
    let mut out: Vec<char> = Vec::new();
    let mut i: usize = 0;
    while i < p.len()
        invariant
            i <= p@.len(),
            p@ == f.path@,
            out@ == p@.take(i as int).map_values(|c: char| ascii_lower(c)),
        decreases p@.len() - i,
    {
        out.push(crate::text::lower_char(p[i]));
        i = i + 1;
        proof {
            assert(out@ =~= p@.take(i as int).map_values(|c: char| ascii_lower(c)));
        }
    }
    proof {
        assert(p@.take(p@.len() as int) =~= p@);
    }
    out
}

proof fn lemma_total_push(fs: Seq<FileRecord>, f: FileRecord)
    ensures
        total_bytes(fs.push(f)) == total_bytes(fs) + f.bytes,
{
    assert(fs.push(f).drop_last() =~= fs);
}

proof fn lemma_total_bound(fs: Seq<FileRecord>)
    requires
        forall|i: int| 0 <= i < fs.len() ==> (#[trigger] fs[i]).bytes <= MAX_FILE,
    ensures
        0 <= total_bytes(fs) <= fs.len() * MAX_FILE,
    decreases fs.len(),
{
    if fs.len() > 0 {
        assert forall|i: int| 0 <= i < fs.drop_last().len() implies (#[trigger] fs.drop_last()[i]).bytes <= MAX_FILE by {
            assert(fs.drop_last()[i] == fs[i]);
        }
        lemma_total_bound(fs.drop_last());
        assert(fs.last() == fs[fs.len() - 1]);
    }
}

/// Refuses a package record that breaks the official package rules.
pub fn valid(p: &Package) -> (r: Result<(), PluginControlError>)
    ensures
        match spec_package_problem(*p) {
            None => r is Ok,
            Some(m) => r matches Err(e) && e.code@ == "official_seed"@ && e.message@ == m,
        },
{
    if !valid_plugin_id(p.id.as_str()) || p.files.len() == 0 || p.files.len() > MAX_FILES {
        return Err(PluginControlError::new("official_seed", "Invalid official package identity or file count"));
    }
    let mut names: Vec<Vec<char>> = Vec::new();
    let mut total: u64 = 0;
    let mut i: usize = 0;
    while i < p.files.len()
        invariant
            i <= p.files@.len(),
            p.files@.len() <= MAX_FILES,
            p.files@.len() > 0,
            spec_valid_plugin_id(p.id@),
            names@.len() == i,
            forall|j: int| 0 <= j < i ==> (#[trigger] names@[j])@ == lower_path(p.files@[j]),
            forall|j: int| 0 <= j < i ==> spec_valid_record(#[trigger] p.files@[j]),
            forall|a: int, b: int| 0 <= a < b < i ==> lower_path(p.files@[a]) != lower_path(p.files@[b]),
            total == total_bytes(p.files@.take(i as int)),
            total <= i * MAX_FILE,
        decreases p.files@.len() - i,
    {
        let f = &p.files[i];
        if !record_ok(f) {
            proof {
                assert(!spec_valid_record(p.files@[i as int]));
            }
            return Err(PluginControlError::new("official_seed", "Invalid official package file record"));
        }
        let low = lowered(f);
        let mut j: usize = 0;
        while j < i
            invariant
                j <= i,
                i < p.files@.len(),
                p.files@.len() <= MAX_FILES,
                spec_valid_plugin_id(p.id@),
                names@.len() == i,
                low@ == lower_path(p.files@[i as int]),
                forall|q: int| 0 <= q < i ==> (#[trigger] names@[q])@ == lower_path(p.files@[q]),
                forall|q: int| 0 <= q < j ==> lower_path(p.files@[q]) != lower_path(p.files@[i as int]),
            decreases i - j,
        {
            if crate::text::chars_equal(names[j].as_slice(), low.as_slice()) {
                proof {
                    assert(lower_path(p.files@[j as int]) == lower_path(p.files@[i as int]));
                    assert(!spec_valid_package_files(*p));
                }
                return Err(PluginControlError::new("official_seed", "Invalid official package file record"));
            }
            j = j + 1;
        }
        proof {
            assert(p.files@.take(i as int + 1) =~= p.files@.take(i as int).push(p.files@[i as int]));
            lemma_total_push(p.files@.take(i as int), p.files@[i as int]);
        }
        total = total + f.bytes;
        names.push(low);
        i = i + 1;
    }
    proof {
        assert(p.files@.take(p.files@.len() as int) =~= p.files@);
    }
    let mut manifest = false;
    let mut k: usize = 0;
    while k < names.len()
        invariant
            k <= names@.len(),
            names@.len() == p.files@.len(),
            forall|q: int| 0 <= q < names@.len() ==> (#[trigger] names@[q])@ == lower_path(p.files@[q]),
            manifest == exists|q: int| 0 <= q < k && lower_path(#[trigger] p.files@[q]) == "codlet.json"@,
        decreases names@.len() - k,
    {
        if crate::text::chars_equal(names[k].as_slice(), chars_of("codlet.json").as_slice()) {
            manifest = true;
        }
        proof {
            if manifest {
                if lower_path(p.files@[k as int]) == "codlet.json"@ {
                    assert(exists|q: int| 0 <= q < k + 1 && lower_path(#[trigger] p.files@[q]) == "codlet.json"@);
                }
            }
            if exists|q: int| 0 <= q < k + 1 && lower_path(#[trigger] p.files@[q]) == "codlet.json"@ {
                let q = choose|q: int| 0 <= q < k + 1 && lower_path(#[trigger] p.files@[q]) == "codlet.json"@;
                if q < k {
                    assert(exists|q2: int| 0 <= q2 < k && lower_path(#[trigger] p.files@[q2]) == "codlet.json"@);
                }
            }
        }
        k = k + 1;
    }
    if total > MAX_TOTAL || !manifest {
        return Err(PluginControlError::new("official_seed", "Invalid package size or missing manifest"));
    }
    Ok(())
}

/// The permissions an update adds: those the package declares that are not
/// granted, and (for an existing registration) that the previous package
/// did not declare either.
pub open spec fn spec_added_permissions(declared: Seq<Permission>, grants: Seq<Permission>, registered: bool, previous: Option<Seq<Permission>>) -> Seq<Permission> {
    declared.filter(|p: Permission| !grants.contains(p) && (!registered || previous is None || !previous.unwrap().contains(p)))
}

/// The permissions an update adds, in declaration order.
pub fn added_permissions(declared: &Vec<Permission>, grants: &Vec<Permission>, registered: bool, previous: Option<&Vec<Permission>>) -> (r: Vec<Permission>)
    ensures
        r@ == spec_added_permissions(declared@, grants@, registered, match previous {
            Some(v) => Some(v@),
            None => None,
        }),
{
    let ghost prev = match previous {
        Some(v) => Some(v@),
        None => None::<Seq<Permission>>,
    };
    let ghost pred = |p: Permission| !grants@.contains(p) && (!registered || prev is None || !prev.unwrap().contains(p));
    let mut out: Vec<Permission> = Vec::new();
    let mut i: usize = 0;
    proof {
        reveal_with_fuel(Seq::<Permission>::filter, 1);
        assert(declared@.take(0) =~= Seq::<Permission>::empty());
    }
    while i < declared.len()
        invariant
            i <= declared@.len(),
            prev == (match previous {
                Some(v) => Some(v@),
                None => None::<Seq<Permission>>,
            }),
            pred == (|p: Permission| !grants@.contains(p) && (!registered || prev is None || !prev.unwrap().contains(p))),
            out@ == declared@.take(i as int).filter(pred),
        decreases declared@.len() - i,
    {
        let p = declared[i];
        let keep = !contains_permission(grants, p) && (!registered || match previous {
            None => true,
            Some(v) => !contains_permission(v, p),
        });
        proof {
            reveal_with_fuel(Seq::<Permission>::filter, 1);
            assert(declared@.take(i as int + 1).drop_last() =~= declared@.take(i as int));
            assert(keep == pred(p));
        }
        if keep {
            out.push(p);
        }
        i = i + 1;
    }
    proof {
        assert(declared@.take(declared@.len() as int) =~= declared@);
    }
    out
}

/// The receipt of an installed official package.
#[derive(Debug, Clone)]
pub struct Receipt {
    pub schema: u32,
    pub source: String,
    pub package: Package,
}

/// What an installer transaction recorded before it touched the package
/// directory or the registry.
#[derive(Debug, Clone)]
pub struct Journal {
    pub schema: u32,
    pub id: String,
    pub previous: Option<LocalPluginRegistration>,
    pub next: LocalPluginRegistration,
    pub previous_enabled: bool,
    pub enabled: bool,
    pub previous_package: Option<Package>,
    pub package: Package,
    pub previous_receipt: Option<Receipt>,
    pub committed: bool,
}

fn refusal(message: &str) -> (e: PluginControlError)
    ensures
        e.code@ == "official_seed"@,
        e.message@ == message@,
{
    PluginControlError::new("official_seed", message)
}

/// Which rule a journal found under `expected_id` breaks, by message.
pub open spec fn spec_journal_problem(j: Journal, expected_id: Seq<char>) -> Option<Seq<char>> {
    if j.id@ != expected_id {
        Some("Invalid transaction identity"@)
    } else if j.schema != 1 || !spec_official_id(j.id@) || j.package.id@ != j.id@ {
        Some("Invalid installer journal"@)
    } else {
        None
    }
}

/// Refuses a journal that is not the official installer's journal for
/// `expected_id`.
pub fn check_journal(journal: &Journal, expected_id: &str) -> (r: Result<(), PluginControlError>)
    ensures
        match spec_journal_problem(*journal, expected_id@) {
            None => r is Ok,
            Some(m) => r matches Err(e) && e.code@ == "official_seed"@ && e.message@ == m,
        },
{
    if !crate::text::str_equal(journal.id.as_str(), expected_id) {
        return Err(refusal("Invalid transaction identity"));
    }
    if journal.schema != 1 || !official_id(journal.id.as_str()) || !crate::text::str_equal(
        journal.package.id.as_str(),
        journal.id.as_str(),
    ) {
        return Err(refusal("Invalid installer journal"));
    }
    Ok(())
}

/// Whether the journal's registrations all name the owned package directory.
pub open spec fn spec_journal_paths_owned(j: Journal, target: Seq<char>) -> bool {
    j.next.path@ == target && match j.previous {
        Some(r) => r.path@ == target,
        None => true,
    }
}

/// Refuses a journal whose registrations name another directory than the
/// owned package directory `target`.
pub fn check_journal_paths(journal: &Journal, target: &str) -> (r: Result<(), PluginControlError>)
    ensures
        spec_journal_paths_owned(*journal, target@) ==> r is Ok,
        !spec_journal_paths_owned(*journal, target@) ==> (r matches Err(e) && e.code@ == "official_seed"@ && e.message@
            == "Installer journal path escaped its owned directory"@),
{
    let previous_ok = match &journal.previous {
        Some(r) => crate::text::str_equal(r.path.as_str(), target),
        None => true,
    };
    if !crate::text::str_equal(journal.next.path.as_str(), target) || !previous_ok {
        return Err(refusal("Installer journal path escaped its owned directory"));
    }
    Ok(())
}

/// One step of recovering an interrupted installer transaction, in the order
/// the owner performs them; the first step that fails ends recovery.
#[derive(Debug, Clone, Copy, PartialEq, Eq, Structural)]
pub enum RecoveryStep {
    /// Check the package directory holds exactly the new package.
    VerifyTarget,
    /// Check the package directory holds exactly the previous package.
    VerifyTargetAsPrevious,
    /// Check what is left of the new package in the package directory.
    VerifyTargetRemainder,
    RemoveTarget,
    /// Check the backup holds exactly the previous package.
    VerifyBackup,
    /// Check what is left of the previous package in the backup.
    VerifyBackupRemainder,
    RemoveBackup,
    /// Move the backup back into the package directory.
    RestoreBackup,
    /// Fail: a backup exists although no previous package was recorded.
    RefuseUnexpectedBackup,
    /// Put back the previous registration and enabled state and save the registry.
    RestoreRegistration,
    /// Write back the previous receipt.
    RestoreReceipt,
    RemoveReceipt,
    /// Check the temporary staging directory holds only package paths, then remove it.
    CleanTemporary,
    RemoveJournal,
}

/// The file-system steps that restore or finish a transaction.
pub open spec fn spec_package_steps(j: Journal, backup_exists: bool, target_exists: bool, receipt_exists: bool) -> Seq<RecoveryStep> {
    if j.committed {
        if backup_exists {
            if j.previous_package is None {
                seq![RecoveryStep::VerifyTarget, RecoveryStep::RefuseUnexpectedBackup]
            } else {
                seq![RecoveryStep::VerifyTarget, RecoveryStep::VerifyBackupRemainder, RecoveryStep::RemoveBackup]
            }
        } else {
            seq![RecoveryStep::VerifyTarget]
        }
    } else {
        let files = if backup_exists {
            if j.previous_package is None {
                seq![RecoveryStep::RefuseUnexpectedBackup]
            } else if target_exists {
                seq![
                    RecoveryStep::VerifyBackup,
                    RecoveryStep::VerifyTargetRemainder,
                    RecoveryStep::RemoveTarget,
                    RecoveryStep::RestoreBackup,
                ]
            } else {
                seq![RecoveryStep::VerifyBackup, RecoveryStep::RestoreBackup]
            }
        } else if j.previous_package is Some {
            seq![RecoveryStep::VerifyTargetAsPrevious]
        } else if target_exists {
            seq![RecoveryStep::VerifyTargetRemainder, RecoveryStep::RemoveTarget]
        } else {
            seq![]
        };
        let receipt = if j.previous_receipt is Some {
            seq![RecoveryStep::RestoreReceipt]
        } else if receipt_exists {
            seq![RecoveryStep::RemoveReceipt]
        } else {
            seq![]
        };
        files + seq![RecoveryStep::RestoreRegistration] + receipt
    }
}

/// How a transaction is recovered, given the registration digest now and
/// those the registry would have before and after the transaction: refused
/// when a later change intervened, else its package steps, then the cleanup of
/// the staging directory when it exists, then the journal's removal.
pub open spec fn spec_recovery_plan(
    j: Journal,
    current: Seq<char>,
    old_digest: Seq<char>,
    new_digest: Seq<char>,
    backup_exists: bool,
    target_exists: bool,
    receipt_exists: bool,
    ready_exists: bool,
) -> Result<Seq<RecoveryStep>, Seq<char>> {
    if current != old_digest && current != new_digest {
        Err("A later source or authorization change prevents automatic recovery"@)
    } else if j.committed && current != new_digest {
        Err("Committed registration changed before cleanup"@)
    } else {
        Ok(
            spec_package_steps(j, backup_exists, target_exists, receipt_exists) + (if ready_exists {
                seq![RecoveryStep::CleanTemporary]
            } else {
                seq![]
            }) + seq![RecoveryStep::RemoveJournal],
        )
    }
}

/// The steps that recover the interrupted transaction `journal` records.
pub fn recovery_plan(
    journal: &Journal,
    current: &str,
    old_digest: &str,
    new_digest: &str,
    backup_exists: bool,
    target_exists: bool,
    receipt_exists: bool,
    ready_exists: bool,
) -> (r: Result<Vec<RecoveryStep>, PluginControlError>)
    ensures
        match spec_recovery_plan(
            *journal,
            current@,
            old_digest@,
            new_digest@,
            backup_exists,
            target_exists,
            receipt_exists,
            ready_exists,
        ) {
            Ok(steps) => r matches Ok(v) && v@ == steps,
            Err(m) => r matches Err(e) && e.code@ == "official_seed"@ && e.message@ == m,
        },
{
    let at_old = crate::text::str_equal(current, old_digest);
    let at_new = crate::text::str_equal(current, new_digest);
    if !at_old && !at_new {
        return Err(refusal("A later source or authorization change prevents automatic recovery"));
    }
    if journal.committed && !at_new {
        return Err(refusal("Committed registration changed before cleanup"));
    }
    let mut steps: Vec<RecoveryStep> = Vec::new();
    if journal.committed {
        steps.push(RecoveryStep::VerifyTarget);
        if backup_exists {
            if journal.previous_package.is_none() {
                steps.push(RecoveryStep::RefuseUnexpectedBackup);
            } else {
                steps.push(RecoveryStep::VerifyBackupRemainder);
                steps.push(RecoveryStep::RemoveBackup);
            }
        }
    } else {
        if backup_exists {
            if journal.previous_package.is_none() {
                steps.push(RecoveryStep::RefuseUnexpectedBackup);
            } else {
                steps.push(RecoveryStep::VerifyBackup);
                if target_exists {
                    steps.push(RecoveryStep::VerifyTargetRemainder);
                    steps.push(RecoveryStep::RemoveTarget);
                }
                steps.push(RecoveryStep::RestoreBackup);
            }
        } else if journal.previous_package.is_some() {
            steps.push(RecoveryStep::VerifyTargetAsPrevious);
        } else if target_exists {
            steps.push(RecoveryStep::VerifyTargetRemainder);
            steps.push(RecoveryStep::RemoveTarget);
        }
        steps.push(RecoveryStep::RestoreRegistration);
        if journal.previous_receipt.is_some() {
            steps.push(RecoveryStep::RestoreReceipt);
        } else if receipt_exists {
            steps.push(RecoveryStep::RemoveReceipt);
        }
    }
    if ready_exists {
        steps.push(RecoveryStep::CleanTemporary);
    }
    steps.push(RecoveryStep::RemoveJournal);
    proof {
        let want = spec_recovery_plan(
            *journal,
            current@,
            old_digest@,
            new_digest@,
            backup_exists,
            target_exists,
            receipt_exists,
            ready_exists,
        );
        assert(want matches Ok(w) && steps@ =~= w);
    }
    Ok(steps)
}

/// A recovery plan ends by removing the journal and removes it nowhere else;
/// it restores the previous registration exactly when the transaction had not
/// committed; and it refuses to go on exactly when a backup exists with no
/// previous package recorded.
pub proof fn law_recovery_rolls_back_only_uncommitted_work(
    j: Journal,
    current: Seq<char>,
    old_digest: Seq<char>,
    new_digest: Seq<char>,
    backup_exists: bool,
    target_exists: bool,
    receipt_exists: bool,
    ready_exists: bool,
)
    requires
        spec_recovery_plan(j, current, old_digest, new_digest, backup_exists, target_exists, receipt_exists, ready_exists) is Ok,
    ensures
        ({
            let steps = spec_recovery_plan(j, current, old_digest, new_digest, backup_exists, target_exists, receipt_exists, ready_exists)->Ok_0;
            &&& steps.len() > 0 && steps.last() == RecoveryStep::RemoveJournal
            &&& forall|i: int| 0 <= i < steps.len() - 1 ==> steps[i] != RecoveryStep::RemoveJournal
            &&& steps.contains(RecoveryStep::RestoreRegistration) <==> !j.committed
            &&& steps.contains(RecoveryStep::RefuseUnexpectedBackup) <==> (backup_exists && j.previous_package is None)
        }),
{
    let steps = spec_recovery_plan(j, current, old_digest, new_digest, backup_exists, target_exists, receipt_exists, ready_exists)->Ok_0;
    let body = spec_package_steps(j, backup_exists, target_exists, receipt_exists);
    if steps.contains(RecoveryStep::RestoreRegistration) {
        let i = choose|i: int| 0 <= i < steps.len() && steps[i] == RecoveryStep::RestoreRegistration;
        if j.committed {
            assert(steps[i] != RecoveryStep::RestoreRegistration);
        }
    }
    if !j.committed {
        let k = body.len() - 1 - (if j.previous_receipt is Some || receipt_exists { 1int } else { 0int });
        assert(steps[k] == RecoveryStep::RestoreRegistration);
    }
    if steps.contains(RecoveryStep::RefuseUnexpectedBackup) {
        let i = choose|i: int| 0 <= i < steps.len() && steps[i] == RecoveryStep::RefuseUnexpectedBackup;
        assert(steps[i] == RecoveryStep::RefuseUnexpectedBackup);
    }
    if backup_exists && j.previous_package is None {
        let k = if j.committed { 1int } else { 0int };
        assert(steps[k] == RecoveryStep::RefuseUnexpectedBackup);
    }
}

/// The path is one of the package's file paths.
pub open spec fn is_package_path(p: Package, f: Seq<char>) -> bool {
    exists|k: int| 0 <= k < p.files@.len() && #[trigger] p.files@[k].path@ == f
}

/// Some package file lies under the directory.
pub open spec fn holds_package_file(p: Package, d: Seq<char>) -> bool {
    exists|k: int| 0 <= k < p.files@.len() && crate::text::starts_with(#[trigger] p.files@[k].path@, d.push('/'))
}

/// Every staged file is a package file, and every staged directory holds some
/// package file.
pub open spec fn spec_temporary_entries_expected(files: Seq<Seq<char>>, dirs: Seq<Seq<char>>, p: Package) -> bool {
    &&& forall|i: int| 0 <= i < files.len() ==> is_package_path(p, #[trigger] files[i])
    &&& forall|i: int| 0 <= i < dirs.len() ==> holds_package_file(p, #[trigger] dirs[i])
}

/// Whether a staging directory holding `files` and `dirs` (relative paths)
/// holds only what the package could have staged.
pub fn temporary_entries_expected(files: &Vec<String>, dirs: &Vec<String>, package: &Package) -> (r: bool)
    ensures
        r == spec_temporary_entries_expected(files@.map_values(|s: String| s@), dirs@.map_values(|s: String| s@), *package),
{
    let ghost fs = files@.map_values(|s: String| s@);
    let ghost ds = dirs@.map_values(|s: String| s@);
    let mut i: usize = 0;
    while i < files.len()
        invariant
            i <= files@.len(),
            fs == files@.map_values(|s: String| s@),
            forall|a: int| 0 <= a < i ==> is_package_path(*package, #[trigger] fs[a]),
        decreases files@.len() - i,
    {
        let mut found = false;
        let mut k: usize = 0;
        while k < package.files.len()
            invariant
                i < files@.len(),
                k <= package.files@.len(),
                found ==> exists|q: int| 0 <= q < package.files@.len() && #[trigger] package.files@[q].path@ == files@[i as int]@,
                !found ==> forall|q: int| 0 <= q < k ==> package.files@[q].path@ != files@[i as int]@,
            decreases package.files@.len() - k,
        {
            if crate::text::str_equal(package.files[k].path.as_str(), files[i].as_str()) {
                found = true;
            }
            k = k + 1;
        }
        proof {
            assert(fs[i as int] == files@[i as int]@);
        }
        if !found {
            return false;
        }
        i = i + 1;
    }
    let mut i: usize = 0;
    while i < dirs.len()
        invariant
            i <= dirs@.len(),
            fs == files@.map_values(|s: String| s@),
            ds == dirs@.map_values(|s: String| s@),
            forall|a: int| 0 <= a < fs.len() ==> is_package_path(*package, #[trigger] fs[a]),
            forall|a: int| 0 <= a < i ==> holds_package_file(*package, #[trigger] ds[a]),
        decreases dirs@.len() - i,
    {
        let mut prefix = chars_of(dirs[i].as_str());
        prefix.push('/');
        let mut found = false;
        let mut k: usize = 0;
        while k < package.files.len()
            invariant
                i < dirs@.len(),
                prefix@ == dirs@[i as int]@.push('/'),
                k <= package.files@.len(),
                found ==> exists|q: int|
                    0 <= q < package.files@.len() && crate::text::starts_with(#[trigger] package.files@[q].path@, prefix@),
                !found ==> forall|q: int| 0 <= q < k ==> !crate::text::starts_with(#[trigger] package.files@[q].path@, prefix@),
            decreases package.files@.len() - k,
        {
            let path = chars_of(package.files[k].path.as_str());
            if crate::text::chars_start_with(path.as_slice(), prefix.as_slice()) {
                found = true;
            }
            k = k + 1;
        }
        proof {
            assert(ds[i as int] == dirs@[i as int]@);
        }
        if !found {
            return false;
        }
        i = i + 1;
    }
    true
}

/// The message of a refused official update whose current source cannot be
/// proved an unmodified official package.
pub open spec fn migration_message(detail: Seq<char>) -> Seq<char> {
    "官方插件未更新："@ + detail
        + "。当前来源无法证明是未修改的官方安装包；作者文件、授权和禁用状态均保留，请在插件管理中检查来源。"@
}

/// The refusal of an official update whose source changed.
pub fn migration(detail: &str) -> (e: PluginControlError)
    ensures
        e.code@ == "official_seed_source_changed"@,
        e.message@ == migration_message(detail@),
{
    let message = crate::text::concat3(
        "官方插件未更新：",
        detail,
        "。当前来源无法证明是未修改的官方安装包；作者文件、授权和禁用状态均保留，请在插件管理中检查来源。",
    );
    PluginControlError { code: "official_seed_source_changed".to_string(), message }
}

/// How many packages of a catalog carry the ID.
pub open spec fn id_count(packages: Seq<Package>, id: Seq<char>) -> nat
    decreases packages.len(),
{
    if packages.len() == 0 {
        0
    } else {
        id_count(packages.drop_last(), id) + if packages.last().id@ == id { 1nat } else { 0nat }
    }
}

/// The package a bundled catalog offers for an official plugin: the ID must
/// be official, the catalog of the official bundle kind in schema 1, and
/// the ID listed exactly once. Gives the package's index.
pub fn catalog_package(id: &str, schema: u32, kind: &str, packages: &Vec<Package>) -> (r: Result<usize, PluginControlError>)
    ensures
        !spec_official_id(id@) ==> (r matches Err(e) && e.code@ == "official_seed"@ && e.message@
            == "Unknown official plugin"@),
        spec_official_id(id@) && (schema != 1 || kind@ != "codlet-official-plugin-bundle"@) ==> (r matches Err(e) && e.code@
            == "official_seed"@ && e.message@ == "Invalid official plugin catalog"@),
        spec_official_id(id@) && schema == 1 && kind@ == "codlet-official-plugin-bundle"@ && id_count(packages@, id@) != 1 ==> (
        r matches Err(e) && e.code@ == "official_seed"@ && e.message@ == "Catalog identity is missing or duplicated"@),
        r is Ok <==> spec_official_id(id@) && schema == 1 && kind@ == "codlet-official-plugin-bundle"@ && id_count(
            packages@,
            id@,
        ) == 1,
        r matches Ok(i) ==> i < packages@.len() && packages@[i as int].id@ == id@,
{
    if !official_id(id) {
        return Err(PluginControlError::new("official_seed", "Unknown official plugin"));
    }
    if schema != 1 || !crate::text::str_equal(kind, "codlet-official-plugin-bundle") {
        return Err(PluginControlError::new("official_seed", "Invalid official plugin catalog"));
    }
    let mut count: usize = 0;
    let mut found: usize = 0;
    let mut i: usize = 0;
    while i < packages.len()
        invariant
            i <= packages@.len(),
            count == id_count(packages@.take(i as int), id@),
            count <= i,
            count > 0 ==> found < i && packages@[found as int].id@ == id@,
        decreases packages@.len() - i,
    {
        proof {
            assert(packages@.take(i + 1).drop_last() =~= packages@.take(i as int));
        }
        if crate::text::str_equal(packages[i].id.as_str(), id) {
            if count == 0 {
                found = i;
            }
            count = count + 1;
        }
        i = i + 1;
    }
    proof {
        assert(packages@.take(packages@.len() as int) =~= packages@);
    }
    if count != 1 {
        return Err(PluginControlError::new("official_seed", "Catalog identity is missing or duplicated"));
    }
    Ok(found)
}

/// Refuses a package directory whose manifest is not the catalog's: its ID,
/// version and permissions must be the package's.
pub fn check_candidate(manifest_id: &str, manifest_version: &str, manifest_permissions: &Vec<Permission>, package: &Package) -> (r:
    Result<(), PluginControlError>)
    ensures
        r is Ok <==> (manifest_id@ == package.id@ && manifest_version@ == package.version@ && manifest_permissions@
            == package.permissions@),
        r matches Err(e) ==> e.code@ == "official_seed"@ && e.message@ == "Catalog and manifest differ"@,
{
    if !crate::text::str_equal(manifest_id, package.id.as_str()) || !crate::text::str_equal(
        manifest_version,
        package.version.as_str(),
    ) || !crate::managed_plugins::permissions_equal(manifest_permissions, &package.permissions) {
        return Err(PluginControlError::new("official_seed", "Catalog and manifest differ"));
    }
    Ok(())
}

/// Refuses an official update over a source the installer does not own: a
/// managed GitHub install, or a registration of another directory.
pub fn check_source_owner(id: &str, managed: bool, registered_path: Option<&str>, target: &str) -> (r: Result<(), PluginControlError>)
    ensures
        r is Ok <==> !(managed || (registered_path matches Some(p) && p@ != target@)),
        r matches Err(e) ==> e.code@ == "official_seed_source_changed"@ && e.message@ == migration_message(
            id@ + " uses a custom or GitHub source"@,
        ),
{
    let other = match registered_path {
        Some(p) => !crate::text::str_equal(p, target),
        None => false,
    };
    if managed || other {
        let detail = crate::text::concat3(id, " uses a custom or GitHub source", "");
        proof {
            reveal_strlit("");
            assert(detail@ =~= id@ + " uses a custom or GitHub source"@);
        }
        return Err(migration(detail.as_str()));
    }
    Ok(())
}

/// Refuses an official update whose registered directory is gone.
pub fn check_source_present(id: &str, target_exists: bool, registered: bool) -> (r: Result<(), PluginControlError>)
    ensures
        r is Ok <==> (target_exists || !registered),
        r matches Err(e) ==> e.code@ == "official_seed_source_changed"@ && e.message@ == migration_message(
            id@ + " source directory is missing"@,
        ),
{
    if !target_exists && registered {
        let detail = crate::text::concat3(id, " source directory is missing", "");
        proof {
            reveal_strlit("");
            assert(detail@ =~= id@ + " source directory is missing"@);
        }
        return Err(migration(detail.as_str()));
    }
    Ok(())
}

/// A package record that may prove the bytes already installed.
#[derive(Debug, Clone, Copy, PartialEq, Eq, Structural)]
pub enum ProofSource {
    /// The receipt the installer wrote.
    Receipt,
    /// The package an earlier install script left.
    OldScript,
    /// The package of the current catalog.
    Catalog,
    /// The known legacy package at this index.
    Legacy(usize),
}

/// An ASCII hexadecimal digit, either case.
pub open spec fn is_hex_digit(c: char) -> bool {
    crate::text::is_digit(c) || ('a' <= c && c <= 'f') || ('A' <= c && c <= 'F')
}

/// A source revision of 40 hexadecimal digits.
pub open spec fn spec_revision(r: Seq<char>) -> bool {
    r.len() == 40 && forall|i: int| 0 <= i < r.len() ==> is_hex_digit(#[trigger] r[i])
}

/// Whether a legacy record may prove the plugin's bytes.
pub open spec fn legacy_proof(l: (String, Package), id: Seq<char>) -> bool {
    spec_revision(l.0@) && l.1.id@ == id
}

/// The legacy records that may prove the plugin's bytes, by index.
pub open spec fn legacy_sources(legacy: Seq<(String, Package)>, id: Seq<char>) -> Seq<ProofSource>
    decreases legacy.len(),
{
    if legacy.len() == 0 {
        Seq::empty()
    } else {
        let rest = legacy_sources(legacy.drop_last(), id);
        if legacy_proof(legacy.last(), id) {
            rest.push(ProofSource::Legacy((legacy.len() - 1) as usize))
        } else {
            rest
        }
    }
}

/// The records that may prove the installed bytes of the plugin, in the
/// order they are tried: an installer receipt of schema 1, the package an
/// earlier install script left, the current catalog's package, then each
/// legacy package with a 40-digit hexadecimal source revision; only those
/// of the plugin's ID.
pub open spec fn spec_proof_sources(
    id: Seq<char>,
    receipt: Option<Receipt>,
    old_script: Option<Package>,
    package: Package,
    legacy: Seq<(String, Package)>,
) -> Seq<ProofSource> {
    let a: Seq<ProofSource> = if receipt matches Some(r) && r.schema == 1 && r.source@ == "official-installer"@ && r.package.id@
        == id {
        seq![ProofSource::Receipt]
    } else {
        Seq::empty()
    };
    let b: Seq<ProofSource> = if old_script matches Some(p) && p.id@ == id {
        seq![ProofSource::OldScript]
    } else {
        Seq::empty()
    };
    let c: Seq<ProofSource> = if package.id@ == id {
        seq![ProofSource::Catalog]
    } else {
        Seq::empty()
    };
    a + b + c + legacy_sources(legacy, id)
}

fn is_revision(r: &str) -> (b: bool)
    ensures
        b == spec_revision(r@),
{
    let v = chars_of(r);
    if v.len() != 40 {
        return false;
    }
    let mut i: usize = 0;
    while i < v.len()
        invariant
            i <= v@.len(),
            v@ == r@,
            forall|j: int| 0 <= j < i ==> is_hex_digit(#[trigger] v@[j]),
        decreases v@.len() - i,
    {
        let c = v[i];
        let hex = ('0' <= c && c <= '9') || ('a' <= c && c <= 'f') || ('A' <= c && c <= 'F');
        if !hex {
            return false;
        }
        i = i + 1;
    }
    true
}

/// The records that may prove the installed bytes, in the order they are
/// tried.
pub fn proof_sources(
    id: &str,
    receipt: Option<&Receipt>,
    old_script: Option<&Package>,
    package: &Package,
    legacy: &Vec<(String, Package)>,
) -> (r: Vec<ProofSource>)
    ensures
        r@ == spec_proof_sources(
            id@,
            match receipt {
                Some(x) => Some(*x),
                None => None,
            },
            match old_script {
                Some(x) => Some(*x),
                None => None,
            },
            *package,
            legacy@,
        ),
{
    let mut out: Vec<ProofSource> = Vec::new();
    match receipt {
        Some(x) => if x.schema == 1 && crate::text::str_equal(x.source.as_str(), "official-installer")
            && crate::text::str_equal(x.package.id.as_str(), id) {
            out.push(ProofSource::Receipt);
        },
        None => {},
    }
    match old_script {
        Some(x) => if crate::text::str_equal(x.id.as_str(), id) {
            out.push(ProofSource::OldScript);
        },
        None => {},
    }
    if crate::text::str_equal(package.id.as_str(), id) {
        out.push(ProofSource::Catalog);
    }
    let ghost head = out@;
    let mut i: usize = 0;
    proof {
        assert(legacy@.take(0) =~= Seq::<(String, Package)>::empty());
        assert(out@ =~= head + legacy_sources(legacy@.take(0), id@));
    }
    while i < legacy.len()
        invariant
            i <= legacy@.len(),
            out@ == head + legacy_sources(legacy@.take(i as int), id@),
        decreases legacy@.len() - i,
    {
        proof {
            assert(legacy@.take(i + 1).drop_last() =~= legacy@.take(i as int));
            assert(legacy@.take(i + 1).last() == legacy@[i as int]);
        }
        if is_revision(legacy[i].0.as_str()) && crate::text::str_equal(legacy[i].1.id.as_str(), id) {
            out.push(ProofSource::Legacy(i));
            proof {
                assert(out@ =~= head + legacy_sources(legacy@.take(i + 1), id@));
            }
        } else {
            proof {
                assert(out@ =~= head + legacy_sources(legacy@.take(i + 1), id@));
            }
        }
        i = i + 1;
    }
    proof {
        assert(legacy@.take(legacy@.len() as int) =~= legacy@);
        assert(out@ =~= spec_proof_sources(
            id@,
            match receipt {
                Some(x) => Some(*x),
                None => None,
            },
            match old_script {
                Some(x) => Some(*x),
                None => None,
            },
            *package,
            legacy@,
        ));
    }
    out
}

} // verus!

