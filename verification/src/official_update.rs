//! Official client updates use the client's own channel and installer; Core
//! only decides when a restart it owns is due, and which package is newer.
use vstd::prelude::*;
use crate::text::{copy_string, copy_option};

verus! {

/// How the owned client session ended.
#[derive(Debug, Clone, Copy, PartialEq, Eq, Structural)]
pub enum UpdateExit {
    Ordinary,
    Restart,
    Combined,
}

/// Milliseconds the installer's phase must stay settled after a restart
/// request before settled samples count.
pub const RESTART_SETTLE_MS: u64 = 2000;
/// Settled samples that confirm a requested restart.
pub const RESTART_SAMPLES: u8 = 3;

/// Whether the official installer asked Core to own a restart, and how long
/// its phase has looked settled since.
#[derive(Debug, Clone, Copy)]
pub struct RestartIntent {
    pub pending: bool,
    /// When the restart was requested, in the owner's monotonic milliseconds.
    pub registered_at: Option<u64>,
    pub settled_samples: u8,
}

impl Default for RestartIntent {
    fn default() -> (r: Self)
        ensures
            !r.pending && r.registered_at is None && r.settled_samples == 0,
    {
        RestartIntent { pending: false, registered_at: None, settled_samples: 0 }
    }
}

/// What observing `phase` at `now` does to an intent, and whether it
/// confirms the restart.
pub open spec fn spec_observe(i: RestartIntent, phase: Seq<char>, now: u64) -> (RestartIntent, bool) {
    if !i.pending {
        (i, false)
    } else if phase == "installing"@ {
        (RestartIntent { settled_samples: 0, ..i }, false)
    } else if (phase == "idle"@ || phase == "ready"@) && (i.registered_at matches Some(t) && now > t && now - t
        > RESTART_SETTLE_MS) {
        let samples = (i.settled_samples + 1) as u8;
        if samples >= RESTART_SAMPLES {
            (RestartIntent { pending: false, settled_samples: samples, ..i }, true)
        } else {
            (RestartIntent { settled_samples: samples, ..i }, false)
        }
    } else {
        (i, false)
    }
}

/// An intent that was just registered at `t`.
pub open spec fn fresh_intent(t: u64) -> RestartIntent {
    RestartIntent { pending: true, registered_at: Some(t), settled_samples: 0 }
}

impl RestartIntent {
    /// The intent's own bound: a pending intent has fewer settled samples
    /// than confirm a restart.
    pub open spec fn wf(self) -> bool {
        self.settled_samples <= RESTART_SAMPLES && (self.pending ==> self.settled_samples < RESTART_SAMPLES)
    }

    /// The installer requested a restart at `now`.
    pub fn registered(&mut self, now: u64)
        ensures
            *final(self) == fresh_intent(now),
    {
        self.pending = true;
        self.registered_at = Some(now);
        self.settled_samples = 0;
    }

    /// Observes the installer's phase at `now`; true exactly when this
    /// observation confirms the pending restart. Without a pending restart
    /// nothing changes. While one is pending, installing resets the count;
    /// `idle` or `ready` more than two seconds after the request count as
    /// settled, and the third settled sample confirms.
    pub fn observe(&mut self, phase: &str, now: u64) -> (confirmed: bool)
        requires
            old(self).wf(),
        ensures
            final(self).wf(),
            (*final(self), confirmed) == spec_observe(*old(self), phase@, now),
    {
        if !self.pending {
            return false;
        }
        if crate::text::str_equal(phase, "installing") {
            self.settled_samples = 0;
            return false;
        }
        let settled_phase = crate::text::str_equal(phase, "idle") || crate::text::str_equal(phase, "ready");
        let elapsed = match self.registered_at {
            Some(t) => now > t && now - t > RESTART_SETTLE_MS,
            None => false,
        };
        if settled_phase && elapsed {
            let samples = self.settled_samples + 1;
            self.settled_samples = samples;
            if samples >= RESTART_SAMPLES {
                self.pending = false;
                return true;
            }
        }
        false
    }
}

/// After a restart request at `t`, settled phases observed more than two
/// seconds later confirm the restart on the third sample and not before;
/// an installing phase in between starts the count again. Once confirmed,
/// no later observation confirms again until a new request.
pub proof fn law_third_settled_sample_confirms(t: u64, a: u64, b: u64, c: u64, d: u64)
    requires
        a > t && a - t > RESTART_SETTLE_MS,
        b > t && b - t > RESTART_SETTLE_MS,
        c > t && c - t > RESTART_SETTLE_MS,
    ensures
        ({
            let (s1, r1) = spec_observe(fresh_intent(t), "ready"@, a);
            let (s2, r2) = spec_observe(s1, "idle"@, b);
            let (s3, r3) = spec_observe(s2, "ready"@, c);
            let (s4, r4) = spec_observe(s3, "ready"@, d);
            !r1 && !r2 && r3 && !s3.pending && !r4
        }),
        ({
            let (s1, r1) = spec_observe(fresh_intent(t), "ready"@, a);
            let (s2, r2) = spec_observe(s1, "installing"@, b);
            let (s3, r3) = spec_observe(s2, "ready"@, c);
            !r1 && !r2 && !r3 && s3.pending && s3.settled_samples == 1
        }),
{
    reveal_strlit("ready");
    reveal_strlit("idle");
    reveal_strlit("installing");
    assert("ready"@ != "installing"@) by {
        assert("ready"@.len() != "installing"@.len());
    }
    assert("idle"@ != "installing"@) by {
        assert("idle"@.len() != "installing"@.len());
    }
    let i0 = fresh_intent(t);
    let (s1, r1) = spec_observe(i0, "ready"@, a);
    assert(s1.settled_samples == 1 && s1.pending && !r1);
    let (s2, r2) = spec_observe(s1, "idle"@, b);
    assert(s2.settled_samples == 2 && s2.pending && !r2);
    let (s3, r3) = spec_observe(s2, "ready"@, c);
    assert(r3 && !s3.pending);
    let (u2, q2) = spec_observe(s1, "installing"@, b);
    assert(u2.settled_samples == 0 && u2.pending && !q2);
}

/// The status of the official update as the management UI sees it.
#[derive(Debug, Clone)]
pub struct OfficialUpdateStatus {
    pub available: bool,
    pub restart_preserved: bool,
    pub phase: String,
    pub is_update_ready: bool,
    pub combined_phase: String,
    pub error: Option<String>,
}

impl OfficialUpdateStatus {
    /// Whether a combined update is in flight.
    pub fn busy(&self) -> (b: bool)
        ensures
            b == (self.combined_phase@ == "downloading"@ || self.combined_phase@ == "preparing"@
                || self.combined_phase@ == "installing"@),
    {
        let p = self.combined_phase.as_str();
        crate::text::str_equal(p, "downloading") || crate::text::str_equal(p, "preparing") || crate::text::str_equal(
            p,
            "installing",
        )
    }
}

/// Whether a combined phase is one of the running ones.
pub open spec fn combined_running(phase: Seq<char>) -> bool {
    phase == "downloading"@ || phase == "preparing"@ || phase == "installing"@
}



impl OfficialUpdateStatus {
    /// No update known: nothing available, restart not preserved, both
    /// phases idle.
    pub fn initial() -> (r: Self)
        ensures
            !r.available && !r.restart_preserved && r.phase@ == "idle"@ && !r.is_update_ready && r.combined_phase@
                == "idle"@ && r.error is None,
    {
        OfficialUpdateStatus {
            available: false,
            restart_preserved: false,
            phase: "idle".to_string(),
            is_update_ready: false,
            combined_phase: "idle".to_string(),
            error: None,
        }
    }

    /// A field-by-field copy.
    pub fn copy(&self) -> (r: Self)
        ensures
            r.available == self.available && r.restart_preserved == self.restart_preserved && r.phase@ == self.phase@
                && r.is_update_ready == self.is_update_ready && r.combined_phase@ == self.combined_phase@
                && r.error.is_some() == self.error.is_some() && (r.error matches Some(e) ==> e@ == self.error->0@),
    {
        OfficialUpdateStatus {
            available: self.available,
            restart_preserved: self.restart_preserved,
            phase: copy_string(&self.phase),
            is_update_ready: self.is_update_ready,
            combined_phase: copy_string(&self.combined_phase),
            error: copy_option(&self.error),
        }
    }

    /// The official client's own update is staged and restart-ready.
    pub open spec fn client_ready(self) -> bool {
        self.available && self.restart_preserved && self.is_update_ready && self.phase@ == "ready"@
    }
}

/// The phase of the Codlet runtime update, as far as the official update
/// decides on it.
#[derive(Debug, Clone, Copy, PartialEq, Eq, Structural)]
pub enum RuntimePhase {
    Available,
    Downloaded,
    Failed,
    /// Any other phase (idle, checking, downloading, installing, ...).
    Other,
}

/// What the official update reads of the Codlet runtime update.
#[derive(Debug, Clone)]
pub struct RuntimeSnapshot {
    /// The ID of the runtime candidate.
    pub candidate: Option<String>,
    pub install_available: bool,
    pub phase: RuntimePhase,
    /// The message of the runtime update's error.
    pub error: Option<String>,
}

/// The coordinated-update state shared with the management UI: the status,
/// and the runtime candidate a combined update was started for.
#[derive(Debug)]
pub struct OfficialUpdates {
    pub status: OfficialUpdateStatus,
    pub candidate_id: Option<String>,
}

/// What a request for a combined update does.
#[derive(Debug, Clone, Copy, PartialEq, Eq, Structural)]
pub enum CombinedRequest {
    /// A combined update is already running; nothing changed.
    Running,
    /// The candidate was recorded; the runtime candidate must be downloaded
    /// first when `download` is set, then the combined update starts.
    Start { download: bool },
}

/// The refusal of a combined update, or how it starts.
pub open spec fn spec_request_combined(status: OfficialUpdateStatus, runtime: RuntimeSnapshot, expected: Seq<char>) -> Result<
    CombinedRequest,
    Seq<char>,
> {
    if combined_running(status.combined_phase@) {
        Ok(CombinedRequest::Running)
    } else if !(runtime.candidate matches Some(c) && c@ == expected) {
        Err("The update changed. Cancel and review it again before installing."@)
    } else if !status.client_ready() || !runtime.install_available || !(runtime.phase == RuntimePhase::Available
        || runtime.phase == RuntimePhase::Downloaded) {
        Err("Both updates must be ready for this Codlet launcher before a combined update can start."@)
    } else {
        Ok(CombinedRequest::Start { download: runtime.phase == RuntimePhase::Available })
    }
}

impl OfficialUpdates {
    /// No update known and no candidate recorded.
    pub fn new() -> (r: Self)
        ensures
            r.candidate_id is None,
            !r.status.available && !r.status.restart_preserved && r.status.phase@ == "idle"@ && !r.status.is_update_ready
                && r.status.combined_phase@ == "idle"@ && r.status.error is None,
    {
        OfficialUpdates { status: OfficialUpdateStatus::initial(), candidate_id: None }
    }

    /// Asks for a combined update of the official client and the Codlet
    /// runtime candidate `expected`. Refused unless the runtime candidate is
    /// still `expected` and both updates are ready; on success the candidate
    /// is recorded.
    pub fn request_combined(&mut self, runtime: &RuntimeSnapshot, expected: &str) -> (r: Result<CombinedRequest, String>)
        ensures
            match spec_request_combined(old(self).status, *runtime, expected@) {
                Ok(CombinedRequest::Start { download }) => r == Ok::<CombinedRequest, String>(
                    CombinedRequest::Start { download },
                ) && final(self).status == old(self).status && (final(self).candidate_id matches Some(c) && c@
                    == expected@),
                Ok(CombinedRequest::Running) => r == Ok::<CombinedRequest, String>(CombinedRequest::Running)
                    && *final(self) == *old(self),
                Err(m) => r matches Err(e) && e@ == m && *final(self) == *old(self),
            },
    {
        if self.status.busy() {
            return Ok(CombinedRequest::Running);
        }
        let same = match &runtime.candidate {
            Some(c) => crate::text::str_equal(c.as_str(), expected),
            None => false,
        };
        if !same {
            return Err("The update changed. Cancel and review it again before installing.".to_string());
        }
        let ready = self.status.available && self.status.restart_preserved && self.status.is_update_ready
            && crate::text::str_equal(self.status.phase.as_str(), "ready");
        let phase_ok = match runtime.phase {
            RuntimePhase::Available => true,
            RuntimePhase::Downloaded => true,
            _ => false,
        };
        if !ready || !runtime.install_available || !phase_ok {
            return Err(
                "Both updates must be ready for this Codlet launcher before a combined update can start.".to_string(),
            );
        }
        self.candidate_id = Some(expected.to_string());
        let download = match runtime.phase {
            RuntimePhase::Available => true,
            _ => false,
        };
        Ok(CombinedRequest::Start { download })
    }

    /// The combined update has started downloading.
    pub fn start_downloading(&mut self)
        ensures
            final(self).status.combined_phase@ == "downloading"@,
            final(self).status.error is None,
            final(self).candidate_id == old(self).candidate_id,
            final(self).status.available == old(self).status.available,
            final(self).status.restart_preserved == old(self).status.restart_preserved,
            final(self).status.phase == old(self).status.phase,
            final(self).status.is_update_ready == old(self).status.is_update_ready,
    {
        self.status.combined_phase = "downloading".to_string();
        self.status.error = None;
    }

    /// The combined update failed with `message`; its candidate is dropped.
    pub fn fail(&mut self, message: &str)
        ensures
            final(self).status.combined_phase@ == "failed"@,
            final(self).status.error matches Some(e) && e@ == message@,
            final(self).candidate_id is None,
            final(self).status.available == old(self).status.available,
            final(self).status.restart_preserved == old(self).status.restart_preserved,
            final(self).status.phase == old(self).status.phase,
            final(self).status.is_update_ready == old(self).status.is_update_ready,
    {
        self.status.combined_phase = "failed".to_string();
        self.status.error = Some(message.to_string());
        self.candidate_id = None;
    }
}

/// How a poll continues a running combined update.
#[derive(Debug, Clone, Copy, PartialEq, Eq, Structural)]
pub enum CombinedGate {
    /// No combined update is running.
    Idle,
    /// The runtime candidate is downloaded but plugin management is busy:
    /// wait for a later poll.
    Hold,
    /// Both updates are ready: ask the runtime for the combined install,
    /// then go on.
    RequestInstall,
    /// Go on with the handoff and the install.
    Proceed,
}

/// How a poll continues a combined update, or why it fails: `runtime` is
/// `None` once the runtime update service has ended, `candidate` the one the
/// combined update was started for.
pub open spec fn spec_combined_gate(
    status: OfficialUpdateStatus,
    runtime: Option<RuntimeSnapshot>,
    candidate: Option<Seq<char>>,
    management_busy: bool,
) -> Result<CombinedGate, Seq<char>> {
    if !combined_running(status.combined_phase@) {
        Ok(CombinedGate::Idle)
    } else {
        match runtime {
            None => Err("Runtime update service ended"@),
            Some(rt) => {
                let same = match (rt.candidate, candidate) {
                    (Some(a), Some(b)) => a@ == b,
                    (None, None) => true,
                    _ => false,
                };
                if !same {
                    Err("The Codlet update candidate changed; review the updates again."@)
                } else if rt.error is Some {
                    Err(rt.error->0@)
                } else if rt.phase == RuntimePhase::Failed {
                    Err("Codlet update preparation failed"@)
                } else if status.combined_phase@ == "downloading"@ && rt.phase == RuntimePhase::Downloaded {
                    if management_busy {
                        Ok(CombinedGate::Hold)
                    } else if !status.client_ready() {
                        Err("The official update is no longer ready; the current client was retained."@)
                    } else {
                        Ok(CombinedGate::RequestInstall)
                    }
                } else {
                    Ok(CombinedGate::Proceed)
                }
            },
        }
    }
}

/// How a poll continues a combined update, or why it fails.
pub fn combined_gate(
    status: &OfficialUpdateStatus,
    runtime: Option<&RuntimeSnapshot>,
    candidate: Option<&str>,
    management_busy: bool,
) -> (r: Result<CombinedGate, String>)
    ensures
        match spec_combined_gate(
            *status,
            match runtime {
                Some(rt) => Some(*rt),
                None => None,
            },
            match candidate {
                Some(c) => Some(c@),
                None => None,
            },
            management_busy,
        ) {
            Ok(g) => r == Ok::<CombinedGate, String>(g),
            Err(m) => r matches Err(e) && e@ == m,
        },
{
    if !status.busy() {
        return Ok(CombinedGate::Idle);
    }
    let rt = match runtime {
        Some(rt) => rt,
        None => return Err("Runtime update service ended".to_string()),
    };
    let same = match (&rt.candidate, candidate) {
        (Some(a), Some(b)) => crate::text::str_equal(a.as_str(), b),
        (None, None) => true,
        _ => false,
    };
    if !same {
        return Err("The Codlet update candidate changed; review the updates again.".to_string());
    }
    match &rt.error {
        Some(e) => return Err(copy_string(e)),
        None => {},
    }
    if rt.phase == RuntimePhase::Failed {
        return Err("Codlet update preparation failed".to_string());
    }
    if crate::text::str_equal(status.combined_phase.as_str(), "downloading") && rt.phase == RuntimePhase::Downloaded {
        if management_busy {
            return Ok(CombinedGate::Hold);
        }
        let ready = status.available && status.restart_preserved && status.is_update_ready && crate::text::str_equal(
            status.phase.as_str(),
            "ready",
        );
        if !ready {
            return Err("The official update is no longer ready; the current client was retained.".to_string());
        }
        return Ok(CombinedGate::RequestInstall);
    }
    Ok(CombinedGate::Proceed)
}

/// What the official install call answered: `Some(accepted)` for a reply,
/// `None` when no reply came. A call without a reply is not retried; it is
/// observed through the installer instead.
pub fn install_reply(reply: Option<bool>) -> (r: Result<(), String>)
    ensures
        r is Ok <==> reply != Some(false),
        r matches Err(e) ==> e@ == "The official installer did not accept the update."@,
{
    match reply {
        Some(false) => Err("The official installer did not accept the update.".to_string()),
        _ => Ok(()),
    }
}

/// Milliseconds the installer may take to begin after the install call.
pub const INSTALL_START_MS: u64 = 120000;

/// Whether `found` is a newer, launchable package than `installed`; a
/// package seen on two consecutive checks is confirmed. Gives the package
/// to compare the next check with, and whether this check confirmed it.
pub open spec fn spec_package_step(
    installed: PackageIdentity,
    found: Option<PackageIdentity>,
    launchable: bool,
    stable: Option<Seq<char>>,
) -> (Option<Seq<char>>, bool) {
    match found {
        Some(p) => if installed.family_name@ == p.family_name@ && installed.full_name@ != p.full_name@
            && version_after(parts(p), parts(installed)) && launchable {
            if stable == Some(p.full_name@) {
                (stable, true)
            } else {
                (Some(p.full_name@), false)
            }
        } else {
            (None, false)
        },
        None => (None, false),
    }
}

/// One check for the updated package: `found` is the package installed for
/// the client's family now, if exactly one is; `launchable` whether its
/// executable resolves; `stable` the package the previous check found.
pub fn package_step(installed: &PackageIdentity, found: Option<&PackageIdentity>, launchable: bool, stable: Option<String>) -> (r: (
    Option<String>,
    bool,
))
    ensures
        ({
            let (next, confirmed) = spec_package_step(
                *installed,
                match found {
                    Some(p) => Some(*p),
                    None => None,
                },
                launchable,
                match stable {
                    Some(s) => Some(s@),
                    None => None,
                },
            );
            r.1 == confirmed && match next {
                Some(n) => r.0 matches Some(x) && x@ == n,
                None => r.0 is None,
            }
        }),
{
    match found {
        Some(p) => if newer_package(installed, p) && launchable {
            let same = match &stable {
                Some(s) => crate::text::str_equal(s.as_str(), p.full_name.as_str()),
                None => false,
            };
            if same {
                (stable, true)
            } else {
                (Some(copy_string(&p.full_name)), false)
            }
        } else {
            (None, false)
        },
        None => (None, false),
    }
}

/// A package is confirmed only on the second of two consecutive checks that
/// both find the same newer, launchable package; a check that finds none
/// starts over.
pub proof fn law_package_confirmed_on_second_sighting(
    installed: PackageIdentity,
    p: PackageIdentity,
    launchable: bool,
)
    requires
        installed.family_name@ == p.family_name@,
        installed.full_name@ != p.full_name@,
        version_after(parts(p), parts(installed)),
        launchable,
    ensures
        ({
            let (s1, c1) = spec_package_step(installed, Some(p), launchable, None);
            let (s2, c2) = spec_package_step(installed, Some(p), launchable, s1);
            !c1 && c2 && s1 == Some(p.full_name@)
        }),
        ({
            let (s1, c1) = spec_package_step(installed, Some(p), launchable, None);
            let (s2, c2) = spec_package_step(installed, None, launchable, s1);
            let (s3, c3) = spec_package_step(installed, Some(p), launchable, s2);
            !c1 && !c2 && !c3 && s2 is None
        }),
        forall|stable: Option<Seq<char>>| !(#[trigger] spec_package_step(installed, Some(installed), launchable, stable)).1,
{
}

/// What the owner does when the client closes.
#[derive(Debug, Clone, Copy, PartialEq, Eq, Structural)]
pub enum FinishStep {
    /// A rehearsal: restart the client.
    Restart,
    /// No restart was requested: an ordinary close.
    Ordinary,
    /// A restart was requested: wait for the updated package.
    AwaitPackage,
}

/// What confirming the installer's phase did to a held combined install.
#[derive(Debug, Clone, PartialEq, Eq)]
pub enum PhaseOutcome {
    /// No restart was confirmed by this sample.
    Unconfirmed,
    /// The installer settled without a held combined install.
    Confirmed,
    /// The installer settled while a combined install was held: the request
    /// with this ID is to be retired and the combined update aborted.
    Cancelled(String),
}

/// The identity of an installed client package.
#[derive(Debug, Clone)]
pub struct PackageIdentity {
    pub family_name: String,
    pub full_name: String,
    pub major: u16,
    pub minor: u16,
    pub build: u16,
    pub revision: u16,
}

/// Lexicographic order of four-part versions.
pub open spec fn version_after(a: (u16, u16, u16, u16), b: (u16, u16, u16, u16)) -> bool {
    a.0 > b.0 || (a.0 == b.0 && (a.1 > b.1 || (a.1 == b.1 && (a.2 > b.2 || (a.2 == b.2 && a.3 > b.3)))))
}

/// The four version parts of a package.
pub open spec fn parts(p: PackageIdentity) -> (u16, u16, u16, u16) {
    (p.major, p.minor, p.build, p.revision)
}

/// Whether `new` is a different, higher-versioned package of the same family.
pub fn newer_package(old: &PackageIdentity, new: &PackageIdentity) -> (b: bool)
    ensures
        b == (old.family_name@ == new.family_name@ && old.full_name@ != new.full_name@ && version_after(parts(*new), parts(*old))),
{
    let later = new.major > old.major || (new.major == old.major && (new.minor > old.minor || (new.minor == old.minor
        && (new.build > old.build || (new.build == old.build && new.revision > old.revision)))));
    crate::text::str_equal(old.family_name.as_str(), new.family_name.as_str()) && !crate::text::str_equal(
        old.full_name.as_str(),
        new.full_name.as_str(),
    ) && later
}

/// A renderer target session the owner may evaluate the update bridge in.
#[derive(Debug, Clone)]
pub struct TargetSession {
    pub target_id: String,
    pub session_id: String,
}

/// A change to the set of attached renderer targets.
#[derive(Debug, Clone)]
pub enum TargetChange {
    Attached(TargetSession),
    NavigatedAway(TargetSession),
    SessionEnded { target_id: String, session_id: String },
}

/// The session table as a map from target ID to session ID, later entries
/// overriding earlier ones.
pub open spec fn session_map(s: Seq<(Seq<char>, Seq<char>)>) -> Map<Seq<char>, Seq<char>>
    decreases s.len(),
{
    if s.len() == 0 {
        Map::empty()
    } else {
        session_map(s.drop_last()).insert(s.last().0, s.last().1)
    }
}

/// No target ID occurs twice.
pub open spec fn unique_targets(s: Seq<(Seq<char>, Seq<char>)>) -> bool {
    forall|i: int, j: int| 0 <= i < j < s.len() ==> #[trigger] s[i].0 != #[trigger] s[j].0
}

/// The target and session IDs of the sessions.
pub open spec fn session_pairs(v: Seq<TargetSession>) -> Seq<(Seq<char>, Seq<char>)> {
    v.map_values(|t: TargetSession| (t.target_id@, t.session_id@))
}

proof fn lemma_session_map_dom(s: Seq<(Seq<char>, Seq<char>)>, k: Seq<char>)
    ensures
        session_map(s).dom().contains(k) <==> exists|i: int| 0 <= i < s.len() && #[trigger] s[i].0 == k,
    decreases s.len(),
{
    if s.len() > 0 {
        lemma_session_map_dom(s.drop_last(), k);
        if exists|i: int| 0 <= i < s.len() && #[trigger] s[i].0 == k {
            let i = choose|i: int| 0 <= i < s.len() && #[trigger] s[i].0 == k;
            if i < s.len() - 1 {
                assert(s.drop_last()[i].0 == k);
            }
        }
        if exists|i: int| 0 <= i < s.drop_last().len() && #[trigger] s.drop_last()[i].0 == k {
            let i = choose|i: int| 0 <= i < s.drop_last().len() && #[trigger] s.drop_last()[i].0 == k;
            assert(s[i].0 == k);
        }
    }
}

proof fn lemma_session_map_at(s: Seq<(Seq<char>, Seq<char>)>, i: int)
    requires
        unique_targets(s),
        0 <= i < s.len(),
    ensures
        session_map(s).dom().contains(s[i].0),
        session_map(s)[s[i].0] == s[i].1,
    decreases s.len(),
{
    if i < s.len() - 1 {
        lemma_session_map_at(s.drop_last(), i);
        assert(s.drop_last()[i] == s[i]);
        assert(s[i].0 != s.last().0);
    }
}

proof fn lemma_session_map_update(s: Seq<(Seq<char>, Seq<char>)>, i: int, v: Seq<char>)
    requires
        unique_targets(s),
        0 <= i < s.len(),
    ensures
        session_map(s.update(i, (s[i].0, v))) == session_map(s).insert(s[i].0, v),
    decreases s.len(),
{
    let t = s.update(i, (s[i].0, v));
    if i == s.len() - 1 {
        assert(t.drop_last() =~= s.drop_last());
        assert(!session_map(s.drop_last()).dom().contains(s[i].0) ==> true);
        assert(session_map(t) =~= session_map(s).insert(s[i].0, v));
    } else {
        assert(unique_targets(s.drop_last()));
        lemma_session_map_update(s.drop_last(), i, v);
        assert(t.drop_last() =~= s.drop_last().update(i, (s[i].0, v)));
        assert(s.last().0 != s[i].0);
        assert(session_map(t) =~= session_map(s).insert(s[i].0, v));
    }
}

proof fn lemma_session_map_remove(s: Seq<(Seq<char>, Seq<char>)>, i: int)
    requires
        unique_targets(s),
        0 <= i < s.len(),
    ensures
        session_map(s.remove(i)) == session_map(s).remove(s[i].0),
    decreases s.len(),
{
    let t = s.remove(i);
    if i == s.len() - 1 {
        assert(t =~= s.drop_last());
        lemma_session_map_dom(s.drop_last(), s[i].0);
        assert(!session_map(s.drop_last()).dom().contains(s[i].0));
        assert(session_map(t) =~= session_map(s).remove(s[i].0));
    } else {
        assert(unique_targets(s.drop_last()));
        lemma_session_map_remove(s.drop_last(), i);
        assert(t.drop_last() =~= s.drop_last().remove(i));
        assert(t.last() == s.last());
        assert(s.last().0 != s[i].0);
        assert(session_map(t) =~= session_map(s).remove(s[i].0));
    }
}

/// What the update owner decides from: the attached renderer sessions, the
/// restart it was asked to own, and whether this is a rehearsal.
#[derive(Debug)]
pub struct OfficialUpdateOwner {
    sessions: Vec<TargetSession>,
    intent: RestartIntent,
    rehearsal: bool,
    completed: bool,
    /// The ID of the runtime install request this owner holds.
    request: Option<String>,
    /// Whether the runtime handoff for `request` is still running.
    handoff: bool,
    /// When the official install call was sent.
    install_sent: Option<u64>,
}

/// Spec view of the update owner.
pub struct OwnerView {
    pub sessions: Map<Seq<char>, Seq<char>>,
    pub intent: RestartIntent,
    pub rehearsal: bool,
    pub completed: bool,
    pub request: Option<Seq<char>>,
    pub handoff: bool,
    pub install_sent: Option<u64>,
}

impl View for OfficialUpdateOwner {
    type V = OwnerView;

    closed spec fn view(&self) -> OwnerView {
        OwnerView {
            sessions: session_map(session_pairs(self.sessions@)),
            intent: self.intent,
            rehearsal: self.rehearsal,
            completed: self.completed,
            request: match self.request {
                Some(r) => Some(r@),
                None => None,
            },
            handoff: self.handoff,
            install_sent: self.install_sent,
        }
    }
}

impl OfficialUpdateOwner {
    #[verifier::type_invariant]
    spec fn inv(self) -> bool {
        unique_targets(session_pairs(self.sessions@)) && self.intent.wf() && (self.handoff ==> self.request is Some)
    }

    /// An owner with no sessions and no restart requested.
    pub fn new() -> (r: Self)
        ensures
            r@ == (OwnerView {
                sessions: Map::empty(),
                intent: RestartIntent { pending: false, registered_at: None, settled_samples: 0 },
                rehearsal: false,
                completed: false,
                request: None,
                handoff: false,
                install_sent: None,
            }),
    {
        let r = OfficialUpdateOwner {
            sessions: Vec::new(),
            intent: RestartIntent { pending: false, registered_at: None, settled_samples: 0 },
            rehearsal: false,
            completed: false,
            request: None,
            handoff: false,
            install_sent: None,
        };
        proof {
            assert(session_pairs(r.sessions@) =~= Seq::<(Seq<char>, Seq<char>)>::empty());
        }
        r
    }

    fn index_of(&self, target_id: &str) -> (r: Option<usize>)
        ensures
            match r {
                Some(i) => i < self.sessions@.len() && self.sessions@[i as int].target_id@ == target_id@,
                None => !self@.sessions.dom().contains(target_id@),
            },
    {
        let mut i: usize = 0;
        while i < self.sessions.len()
            invariant
                i <= self.sessions@.len(),
                forall|j: int| 0 <= j < i ==> self.sessions@[j].target_id@ != target_id@,
            decreases self.sessions@.len() - i,
        {
            if crate::text::str_equal(self.sessions[i].target_id.as_str(), target_id) {
                return Some(i);
            }
            i = i + 1;
        }
        proof {
            let s = session_pairs(self.sessions@);
            lemma_session_map_dom(s, target_id@);
            assert forall|j: int| 0 <= j < s.len() implies #[trigger] s[j].0 != target_id@ by {
                assert(s[j].0 == self.sessions@[j].target_id@);
            }
        }
        None
    }

    fn insert_session(&mut self, session: TargetSession)
        ensures
            final(self)@ == (OwnerView { sessions: old(self)@.sessions.insert(session.target_id@, session.session_id@), ..old(self)@ }),
    {
        proof {
            use_type_invariant(&*self);
        }
        let ghost s = session_pairs(self.sessions@);
        match self.index_of(session.target_id.as_str()) {
            Some(i) => {
                proof {
                    lemma_session_map_update(s, i as int, session.session_id@);
                }
                let ghost key = session.target_id@;
                let mut sessions = Vec::new();
                std::mem::swap(&mut sessions, &mut self.sessions);
                sessions.set(i, session);
                proof {
                    assert(session_pairs(sessions@) =~= s.update(i as int, (key, sessions@[i as int].session_id@)));
                    assert forall|a: int, b: int| 0 <= a < b < sessions@.len() implies #[trigger] session_pairs(sessions@)[a].0
                        != #[trigger] session_pairs(sessions@)[b].0 by {
                        assert(session_pairs(sessions@)[a].0 == s[a].0);
                        assert(session_pairs(sessions@)[b].0 == s[b].0);
                    }
                }
                self.sessions = sessions;
            },
            None => {
                let ghost key = session.target_id@;
                let ghost value = session.session_id@;
                proof {
                    lemma_session_map_dom(s, key);
                }
                let mut sessions = Vec::new();
                std::mem::swap(&mut sessions, &mut self.sessions);
                sessions.push(session);
                proof {
                    assert(session_pairs(sessions@) =~= s.push((key, value)));
                    assert(session_pairs(sessions@).drop_last() =~= s);
                    assert forall|a: int, b: int| 0 <= a < b < sessions@.len() implies #[trigger] session_pairs(sessions@)[a].0
                        != #[trigger] session_pairs(sessions@)[b].0 by {
                        if b == sessions@.len() - 1 {
                            assert(s[a].0 != key);
                        }
                    }
                }
                self.sessions = sessions;
            },
        }
    }

    fn remove_session(&mut self, target_id: &str, session_id: Option<&str>)
        ensures
            final(self)@ == (OwnerView {
                sessions: if old(self)@.sessions.dom().contains(target_id@) && match session_id {
                    Some(sid) => old(self)@.sessions[target_id@] == sid@,
                    None => true,
                } {
                    old(self)@.sessions.remove(target_id@)
                } else {
                    old(self)@.sessions
                },
                ..old(self)@
            }),
    {
        proof {
            use_type_invariant(&*self);
        }
        let ghost s = session_pairs(self.sessions@);
        match self.index_of(target_id) {
            Some(i) => {
                proof {
                    assert(s[i as int].0 == target_id@);
                    lemma_session_map_at(s, i as int);
                }
                let matches = match session_id {
                    Some(sid) => crate::text::str_equal(self.sessions[i].session_id.as_str(), sid),
                    None => true,
                };
                if matches {
                    proof {
                        lemma_session_map_remove(s, i as int);
                    }
                    let mut sessions = Vec::new();
                    std::mem::swap(&mut sessions, &mut self.sessions);
                    sessions.remove(i);
                    proof {
                        assert(session_pairs(sessions@) =~= s.remove(i as int));
                        assert forall|a: int, b: int| 0 <= a < b < sessions@.len() implies #[trigger] session_pairs(sessions@)[a].0
                            != #[trigger] session_pairs(sessions@)[b].0 by {
                            let a2 = if a < i { a } else { a + 1 };
                            let b2 = if b < i { b } else { b + 1 };
                            assert(session_pairs(sessions@)[a].0 == s[a2].0);
                            assert(session_pairs(sessions@)[b].0 == s[b2].0);
                        }
                    }
                    self.sessions = sessions;
                }
            },
            None => {},
        }
    }

    /// Records the sessions already attached when the owner starts; a later
    /// session for the same target replaces an earlier one.
    pub fn seed_sessions(&mut self, sessions: &Vec<TargetSession>)
        ensures
            final(self)@ == (OwnerView {
                sessions: old(self)@.sessions.union_prefer_right(session_map(session_pairs(sessions@))),
                ..old(self)@
            }),
    {
        let mut i: usize = 0;
        proof {
            assert(session_pairs(sessions@).take(0) =~= Seq::<(Seq<char>, Seq<char>)>::empty());
            assert(old(self)@.sessions.union_prefer_right(session_map(Seq::empty())) =~= old(self)@.sessions);
        }
        while i < sessions.len()
            invariant
                i <= sessions@.len(),
                self@ == (OwnerView {
                    sessions: old(self)@.sessions.union_prefer_right(session_map(session_pairs(sessions@).take(i as int))),
                    ..old(self)@
                }),
            decreases sessions@.len() - i,
        {
            let ghost before = self@;
            let session = TargetSession {
                target_id: sessions[i].target_id.clone(),
                session_id: sessions[i].session_id.clone(),
            };
            self.insert_session(session);
            proof {
                let p = session_pairs(sessions@);
                assert(p.take(i + 1).drop_last() =~= p.take(i as int));
                assert(p.take(i + 1).last() == p[i as int]);
                assert(self@.sessions =~= old(self)@.sessions.union_prefer_right(session_map(p.take(i + 1))));
            }
            i = i + 1;
        }
        proof {
            assert(session_pairs(sessions@).take(sessions@.len() as int) =~= session_pairs(sessions@));
        }
    }

    /// Follows a change of the attached targets: an attached session is
    /// recorded, a target that navigated away is forgotten, and an ended
    /// session is forgotten only if it is still the one recorded.
    pub fn observe(&mut self, change: &TargetChange)
        ensures
            final(self)@ == (OwnerView {
                sessions: match change {
                    TargetChange::Attached(t) => old(self)@.sessions.insert(t.target_id@, t.session_id@),
                    TargetChange::NavigatedAway(t) => old(self)@.sessions.remove(t.target_id@),
                    TargetChange::SessionEnded { target_id, session_id } => if old(self)@.sessions.dom().contains(target_id@)
                        && old(self)@.sessions[target_id@] == session_id@ {
                        old(self)@.sessions.remove(target_id@)
                    } else {
                        old(self)@.sessions
                    },
                },
                ..old(self)@
            }),
    {
        match change {
            TargetChange::Attached(t) => {
                self.insert_session(TargetSession { target_id: t.target_id.clone(), session_id: t.session_id.clone() });
            },
            TargetChange::NavigatedAway(t) => {
                self.remove_session(t.target_id.as_str(), None);
                proof {
                    if !old(self)@.sessions.dom().contains(t.target_id@) {
                        assert(old(self)@.sessions.remove(t.target_id@) =~= old(self)@.sessions);
                    }
                }
            },
            TargetChange::SessionEnded { target_id, session_id } => {
                self.remove_session(target_id.as_str(), Some(session_id.as_str()));
            },
        }
    }

    /// Starts a rehearsed restart at `now`: refused while an update is running
    /// or while native restart preservation is not ready.
    pub fn rehearse(&mut self, status: &OfficialUpdateStatus, now: u64) -> (r: Result<(), String>)
        ensures
            ({
                let busy = status.combined_phase@ == "downloading"@ || status.combined_phase@ == "preparing"@
                    || status.combined_phase@ == "installing"@;
                match r {
                    Ok(()) => !busy && status.restart_preserved && final(self)@ == (OwnerView {
                        rehearsal: true,
                        intent: fresh_intent(now),
                        ..old(self)@
                    }),
                    Err(e) => final(self)@ == old(self)@ && (busy && e@ == "An update is already running"@ || !busy
                        && !status.restart_preserved && e@ == "Native restart preservation is not ready"@),
                }
            }),
    {
        proof {
            use_type_invariant(&*self);
        }
        if status.busy() {
            return Err("An update is already running".to_string());
        }
        if !status.restart_preserved {
            return Err("Native restart preservation is not ready".to_string());
        }
        self.rehearsal = true;
        self.intent = RestartIntent { pending: true, registered_at: Some(now), settled_samples: 0 };
        Ok(())
    }

    /// The recorded sessions, one per target, for the update bridge to be
    /// evaluated in.
    pub fn sessions(&self) -> (r: &Vec<TargetSession>)
        ensures
            session_map(session_pairs(r@)) == self@.sessions,
            unique_targets(session_pairs(r@)),
    {
        proof {
            use_type_invariant(self);
        }
        &self.sessions
    }

    /// Whether the current restart is a rehearsal.
    pub fn is_rehearsal(&self) -> (r: bool)
        ensures
            r == self@.rehearsal,
    {
        self.rehearsal
    }

    /// Whether Core still owes the client a restart. `bridge_registered` is
    /// whether the restart bridge reported a new restart request since it was
    /// last asked; such a request is taken as registered at `now`.
    pub fn waiting_for_restart(&mut self, bridge_registered: bool, now: u64) -> (r: bool)
        ensures
            final(self)@ == (OwnerView {
                intent: if bridge_registered {
                    fresh_intent(now)
                } else {
                    old(self)@.intent
                },
                ..old(self)@
            }),
            r == final(self)@.intent.pending,
    {
        proof {
            use_type_invariant(&*self);
        }
        if bridge_registered {
            self.intent = RestartIntent { pending: true, registered_at: Some(now), settled_samples: 0 };
        }
        self.intent.pending
    }

    /// Feeds the installer's phase sampled at `now` to the restart intent.
    /// A restart confirmed while a combined install is held cancels it: the
    /// held request is handed back to be retired, and the owner no longer
    /// holds it.
    pub fn observe_phase(&mut self, phase: &str, now: u64) -> (r: PhaseOutcome)
        ensures
            ({
                let (intent, confirmed) = spec_observe(old(self)@.intent, phase@, now);
                &&& final(self)@.intent == intent
                &&& final(self)@.sessions == old(self)@.sessions
                &&& final(self)@.rehearsal == old(self)@.rehearsal
                &&& final(self)@.completed == old(self)@.completed
                &&& match r {
                    PhaseOutcome::Unconfirmed => !confirmed && final(self)@.request == old(self)@.request
                        && final(self)@.handoff == old(self)@.handoff && final(self)@.install_sent == old(
                        self,
                    )@.install_sent,
                    PhaseOutcome::Confirmed => confirmed && old(self)@.request is None && final(self)@.request is None
                        && final(self)@.handoff == old(self)@.handoff && final(self)@.install_sent == old(
                        self,
                    )@.install_sent,
                    PhaseOutcome::Cancelled(id) => confirmed && old(self)@.request == Some(id@)
                        && final(self)@.request is None && !final(self)@.handoff && final(self)@.install_sent is None,
                }
            }),
    {
        proof {
            use_type_invariant(&*self);
        }
        let mut intent = self.intent;
        let confirmed = intent.observe(phase, now);
        self.intent = intent;
        if !confirmed {
            return PhaseOutcome::Unconfirmed;
        }
        if self.request.is_none() {
            return PhaseOutcome::Confirmed;
        }
        match self.abort() {
            Some(id) => PhaseOutcome::Cancelled(id),
            None => PhaseOutcome::Confirmed,
        }
    }

    /// Whether the owner may take a runtime install request: it holds none
    /// and runs no handoff.
    pub fn awaits_install_request(&self) -> (b: bool)
        ensures
            b == (self@.request is None && !self@.handoff),
    {
        self.request.is_none() && !self.handoff
    }

    /// Whether a runtime handoff is running.
    pub fn handoff_running(&self) -> (b: bool)
        ensures
            b == self@.handoff,
            b ==> self@.request is Some,
    {
        proof {
            use_type_invariant(self);
        }
        self.handoff
    }

    /// Takes the runtime install request `id` and starts its handoff, when
    /// the owner awaits one; else nothing changes.
    pub fn start_handoff(&mut self, id: String) -> (started: bool)
        ensures
            started == (old(self)@.request is None && !old(self)@.handoff),
            started ==> final(self)@ == (OwnerView { request: Some(id@), handoff: true, ..old(self)@ }),
            !started ==> final(self)@ == old(self)@,
    {
        proof {
            use_type_invariant(&*self);
        }
        if self.request.is_none() && !self.handoff {
            self.request = Some(id);
            self.handoff = true;
            true
        } else {
            false
        }
    }

    /// The runtime handoff finished with `result` at `now`. A failed handoff
    /// fails the update, and so does a client that can no longer preserve
    /// its restart; otherwise the install call is due for the held request,
    /// whose ID is returned, and its time is recorded. The call is made once:
    /// a timeout after it is observed, never retried.
    pub fn handoff_finished(&mut self, result: Result<(), String>, restart_preserved: bool, now: u64) -> (r: Result<
        String,
        String,
    >)
        requires
            old(self)@.handoff,
        ensures
            !final(self)@.handoff,
            final(self)@.request == old(self)@.request,
            final(self)@.sessions == old(self)@.sessions,
            final(self)@.intent == old(self)@.intent,
            final(self)@.rehearsal == old(self)@.rehearsal,
            final(self)@.completed == old(self)@.completed,
            match result {
                Err(e) => r == Err::<String, String>(e) && final(self)@.install_sent == old(self)@.install_sent,
                Ok(()) => if restart_preserved {
                    r matches Ok(id) && old(self)@.request == Some(id@) && final(self)@.install_sent == Some(now)
                } else {
                    (r matches Err(e) && e@ == "Restart preservation is unavailable; the current client was retained."@)
                        && final(self)@.install_sent == old(self)@.install_sent
                },
            },
    {
        proof {
            use_type_invariant(&*self);
        }
        self.handoff = false;
        match result {
            Err(e) => Err(e),
            Ok(()) => {
                if !restart_preserved {
                    return Err("Restart preservation is unavailable; the current client was retained.".to_string());
                }
                self.install_sent = Some(now);
                match &self.request {
                    Some(id) => Ok(copy_string(id)),
                    None => Err("Restart preservation is unavailable; the current client was retained.".to_string()),
                }
            },
        }
    }

    /// Fails the update when the install call went out more than two minutes
    /// before `now` and the installer has not asked for its restart.
    pub fn install_overdue(&self, now: u64) -> (r: Result<(), String>)
        ensures
            r is Err <==> (self@.install_sent matches Some(at) && now > at && now - at > INSTALL_START_MS
                && !self@.intent.pending),
            r matches Err(e) ==> e@ == "The official installer did not begin installation; the current client was retained."@,
    {
        match self.install_sent {
            Some(at) => if now > at && now - at > INSTALL_START_MS && !self.intent.pending {
                return Err(
                    "The official installer did not begin installation; the current client was retained.".to_string(),
                );
            },
            None => {},
        }
        Ok(())
    }

    /// Gives up the combined install: the held request, if any, is handed
    /// back to be gated as not ready, and no handoff or install call is
    /// outstanding afterwards.
    pub fn abort(&mut self) -> (r: Option<String>)
        ensures
            final(self)@ == (OwnerView { request: None, handoff: false, install_sent: None, ..old(self)@ }),
            match r {
                Some(id) => old(self)@.request == Some(id@),
                None => old(self)@.request is None,
            },
    {
        proof {
            use_type_invariant(&*self);
        }
        self.handoff = false;
        self.install_sent = None;
        let mut r = None;
        std::mem::swap(&mut r, &mut self.request);
        r
    }

    /// Whether a close without confirmed installation must abort: a request
    /// is held, or a combined update is running.
    pub fn must_abort(&self, combined_busy: bool) -> (b: bool)
        ensures
            b == (self@.request is Some || combined_busy),
    {
        self.request.is_some() || combined_busy
    }

    /// The client closed at `now`; `bridge_registered` is whether the bridge
    /// reported a restart request since last asked. A rehearsal restarts and
    /// completes; without a pending restart the close is ordinary; otherwise
    /// the updated package is awaited.
    pub fn finish(&mut self, bridge_registered: bool, now: u64) -> (r: FinishStep)
        ensures
            ({
                let intent = if bridge_registered {
                    fresh_intent(now)
                } else {
                    old(self)@.intent
                };
                &&& final(self)@ == (OwnerView {
                    intent,
                    completed: old(self)@.completed || old(self)@.rehearsal,
                    ..old(self)@
                })
                &&& r == if old(self)@.rehearsal {
                    FinishStep::Restart
                } else if !intent.pending {
                    FinishStep::Ordinary
                } else {
                    FinishStep::AwaitPackage
                }
            }),
    {
        proof {
            use_type_invariant(&*self);
        }
        if bridge_registered {
            self.intent = RestartIntent { pending: true, registered_at: Some(now), settled_samples: 0 };
        }
        if self.rehearsal {
            self.completed = true;
            return FinishStep::Restart;
        }
        if !self.intent.pending {
            return FinishStep::Ordinary;
        }
        FinishStep::AwaitPackage
    }

    /// Hands over the held runtime install request, to be gated as ready
    /// for the confirmed package.
    pub fn take_request(&mut self) -> (r: Option<String>)
        ensures
            final(self)@ == (OwnerView { request: None, handoff: false, ..old(self)@ }),
            match r {
                Some(id) => old(self)@.request == Some(id@),
                None => old(self)@.request is None,
            },
    {
        proof {
            use_type_invariant(&*self);
        }
        self.handoff = false;
        let mut r = None;
        std::mem::swap(&mut r, &mut self.request);
        r
    }

    /// The update was confirmed: with a combined install it is a combined
    /// exit, else a restart.
    pub fn complete(&mut self, combined: bool) -> (r: UpdateExit)
        ensures
            final(self)@ == (OwnerView { completed: true, ..old(self)@ }),
            r == if combined {
                UpdateExit::Combined
            } else {
                UpdateExit::Restart
            },
    {
        proof {
            use_type_invariant(&*self);
        }
        self.completed = true;
        if combined {
            UpdateExit::Combined
        } else {
            UpdateExit::Restart
        }
    }

    /// Whether the update was confirmed.
    pub fn is_completed(&self) -> (b: bool)
        ensures
            b == self@.completed,
    {
        self.completed
    }
}


/// Package versions are ordered lexicographically by major, minor, build
/// and revision: the first part that differs decides, whatever the later
/// parts are, and the order is strict and total.
pub proof fn law_package_versions_order_part_by_part(a: (u16, u16, u16, u16), b: (u16, u16, u16, u16))
    ensures
        a.0 > b.0 ==> version_after(a, b),
        a.0 == b.0 && a.1 > b.1 ==> version_after(a, b),
        a.0 == b.0 && a.1 == b.1 && a.2 > b.2 ==> version_after(a, b),
        a.0 == b.0 && a.1 == b.1 && a.2 == b.2 && a.3 > b.3 ==> version_after(a, b),
        !version_after(a, a),
        version_after(a, b) ==> !version_after(b, a),
        a != b ==> version_after(a, b) || version_after(b, a),
{
}

} // verus!
