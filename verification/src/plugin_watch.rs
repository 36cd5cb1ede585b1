//! Opt-in, foreground observation of local plugin sources. The watcher never
//! loads a plugin itself: it answers with the same typed reload request a user
//! would submit, at most one per poll, once a changed source has settled.
//!
//! The owner loop reads the registry and the sampled sources' fingerprints and
//! hands them in; every decision about what changed, what is paused, what is
//! announced and what is reloaded is made here.
use vstd::prelude::*;
use crate::text::{copy_string};

use crate::managed_plugins::{copy_manifest, copy_permissions, permissions_equal};
use crate::plugin_control::{PluginControlAction, PluginControlRequest};
use crate::plugin_lifecycle::{closed_under_dependents, contains_str, depends_on, dependent_closure, id_set, manifests};
use crate::plugins::{LoadedPlugin, ManifestView, Permission};
use crate::text::{chars_of, concat3, str_equal};

verus! {

/// Least time between two registry reads, in milliseconds.
pub const POLL_INTERVAL_MS: u64 = 250;

/// How long an observation must stay unchanged before it counts, in milliseconds.
pub const QUIET_PERIOD_MS: u64 = 250;

/// Most sources sampled in one poll.
pub const MAX_SOURCES_PER_POLL: usize = 4;

/// Most diagnostics kept until they are taken.
pub const MAX_DIAGNOSTICS: usize = 32;

/// A condition the user should be told about.
#[derive(Debug, Clone)]
pub struct WatchDiagnostic {
    pub plugin_id: String,
    pub code: String,
    pub message: String,
}

/// Spec view of a diagnostic.
pub struct DiagnosticView {
    pub plugin_id: Seq<char>,
    pub code: Seq<char>,
    pub message: Seq<char>,
}

impl View for WatchDiagnostic {
    type V = DiagnosticView;

    open spec fn view(&self) -> DiagnosticView {
        DiagnosticView { plugin_id: self.plugin_id@, code: self.code@, message: self.message@ }
    }
}

/// A plugin the runtime loaded from a local source directory.
#[derive(Debug, Clone)]
pub struct LocalWatchSource {
    pub path: String,
    pub grants: Vec<Permission>,
    pub plugin: LoadedPlugin,
    /// Fingerprint of the source the runtime actually loaded, when it loaded one.
    pub loaded_fingerprint: Option<String>,
}

/// Spec view of a watched source.
pub struct SourceView {
    pub path: Seq<char>,
    pub grants: Seq<Permission>,
    pub manifest: ManifestView,
    pub generation: u64,
    pub loaded: Option<Seq<char>>,
}

impl View for LocalWatchSource {
    type V = SourceView;

    open spec fn view(&self) -> SourceView {
        SourceView {
            path: self.path@,
            grants: self.grants@,
            manifest: self.plugin.manifest@,
            generation: self.plugin.generation,
            loaded: crate::plugins::opt_view(self.loaded_fingerprint),
        }
    }
}

/// A local registration as the registry currently records it.
#[derive(Debug, Clone)]
pub struct RegisteredSource {
    pub plugin_id: String,
    pub path: String,
    pub grants: Vec<Permission>,
}

/// Spec view of a registration.
pub struct RegisteredView {
    pub plugin_id: Seq<char>,
    pub path: Seq<char>,
    pub grants: Seq<Permission>,
}

impl View for RegisteredSource {
    type V = RegisteredView;

    open spec fn view(&self) -> RegisteredView {
        RegisteredView { plugin_id: self.plugin_id@, path: self.path@, grants: self.grants@ }
    }
}

/// What one sample of a source found.
#[derive(Debug)]
enum Observation {
    Ready { fingerprint: String, grants: Vec<Permission> },
    Paused { code: String, message: String },
}

/// Spec view of an observation.
pub enum ObservationView {
    Ready { fingerprint: Seq<char>, grants: Seq<Permission> },
    Paused { code: Seq<char>, message: Seq<char> },
}

impl View for Observation {
    type V = ObservationView;

    closed spec fn view(&self) -> ObservationView {
        match self {
            Observation::Ready { fingerprint, grants } => ObservationView::Ready { fingerprint: fingerprint@, grants: grants@ },
            Observation::Paused { code, message } => ObservationView::Paused { code: code@, message: message@ },
        }
    }
}

spec fn opt_observation(o: Option<Observation>) -> Option<ObservationView> {
    match o {
        Some(v) => Some(v@),
        None => None,
    }
}

/// What an attempt records of one affected plugin's observation.
#[derive(Debug)]
enum Summary {
    Fingerprint(String),
    Message(String),
    Nothing,
}

/// Spec view of an observation summary.
pub enum SummaryView {
    Fingerprint(Seq<char>),
    Message(Seq<char>),
    Nothing,
}

impl View for Summary {
    type V = SummaryView;

    closed spec fn view(&self) -> SummaryView {
        match self {
            Summary::Fingerprint(f) => SummaryView::Fingerprint(f@),
            Summary::Message(m) => SummaryView::Message(m@),
            Summary::Nothing => SummaryView::Nothing,
        }
    }
}

/// What an attempt records of one affected plugin.
#[derive(Debug)]
struct SignatureEntry {
    id: String,
    watched: Option<(String, Summary)>,
    grants: Option<Vec<Permission>>,
}

/// Spec view of a signature entry.
pub struct SignatureView {
    pub id: Seq<char>,
    pub watched: Option<(Seq<char>, SummaryView)>,
    pub grants: Option<Seq<Permission>>,
}

impl View for SignatureEntry {
    type V = SignatureView;

    closed spec fn view(&self) -> SignatureView {
        SignatureView {
            id: self.id@,
            watched: match self.watched {
                Some(w) => Some((w.0@, w.1@)),
                None => None,
            },
            grants: match self.grants {
                Some(g) => Some(g@),
                None => None,
            },
        }
    }
}

/// The set of entries a signature holds.
spec fn signature_set(v: Seq<SignatureEntry>) -> Set<SignatureView> {
    v.map_values(|e: SignatureEntry| e@).to_set()
}

spec fn opt_signature(v: Option<Vec<SignatureEntry>>) -> Option<Set<SignatureView>> {
    match v {
        Some(s) => Some(signature_set(s@)),
        None => None,
    }
}

/// Per-source watch state.
#[derive(Debug)]
struct WatchState {
    path: String,
    generation: u64,
    installed: Observation,
    observed: Option<Observation>,
    observed_since: u64,
    stable_samples: u8,
    last_attempted: Option<Vec<SignatureEntry>>,
    announced_pause: Option<Observation>,
}

/// Spec view of one source's watch state.
pub struct StateView {
    pub path: Seq<char>,
    pub generation: u64,
    pub installed: ObservationView,
    pub observed: Option<ObservationView>,
    pub observed_since: u64,
    pub stable_samples: u8,
    pub last_attempted: Option<Set<SignatureView>>,
    pub announced_pause: Option<ObservationView>,
}

impl View for WatchState {
    type V = StateView;

    closed spec fn view(&self) -> StateView {
        StateView {
            path: self.path@,
            generation: self.generation,
            installed: self.installed@,
            observed: opt_observation(self.observed),
            observed_since: self.observed_since,
            stable_samples: self.stable_samples,
            last_attempted: opt_signature(self.last_attempted),
            announced_pause: opt_observation(self.announced_pause),
        }
    }
}

/// The view of a list of keyed states.
spec fn entries_view(v: Seq<(String, WatchState)>) -> Seq<(Seq<char>, StateView)> {
    v.map_values(|e: (String, WatchState)| (e.0@, e.1@))
}

/// A registry read that failed, while it keeps failing the same way.
#[derive(Debug)]
struct RegistryProblem {
    message: String,
    since: u64,
    samples: u8,
    announced: bool,
}

/// Spec view of a registry problem.
pub struct ProblemView {
    pub message: Seq<char>,
    pub since: u64,
    pub samples: u8,
    pub announced: bool,
}

impl View for RegistryProblem {
    type V = ProblemView;

    closed spec fn view(&self) -> ProblemView {
        ProblemView { message: self.message@, since: self.since, samples: self.samples, announced: self.announced }
    }
}

/// Foreground watcher of local plugin sources.
#[derive(Debug)]
pub struct PluginWatcher {
    registry_path: String,
    states: Vec<(String, WatchState)>,
    next_poll: Option<u64>,
    cursor: usize,
    registry_problem: Option<RegistryProblem>,
    diagnostics: Vec<WatchDiagnostic>,
}

/// Spec view of a watcher.
pub struct WatcherView {
    pub registry_path: Seq<char>,
    pub states: Seq<(Seq<char>, StateView)>,
    pub next_poll: Option<u64>,
    pub cursor: int,
    pub problem: Option<ProblemView>,
    pub diagnostics: Seq<DiagnosticView>,
}

impl View for PluginWatcher {
    type V = WatcherView;

    closed spec fn view(&self) -> WatcherView {
        WatcherView {
            registry_path: self.registry_path@,
            states: entries_view(self.states@),
            next_poll: self.next_poll,
            cursor: self.cursor as int,
            problem: match self.registry_problem {
                Some(p) => Some(p@),
                None => None,
            },
            diagnostics: self.diagnostics@.map_values(|d: WatchDiagnostic| d@),
        }
    }
}

// ---------------------------------------------------------------------------
// Ordering and keyed lists

/// Strict lexicographic order of two names by character code, the order in
/// which the UTF-8 bytes of the names compare.
pub open spec fn name_before(a: Seq<char>, b: Seq<char>) -> bool {
    exists|k: int|
        0 <= k <= a.len() && k <= b.len() && a.take(k) == b.take(k) && ((k == a.len() && k < b.len()) || (k
            < a.len() && k < b.len() && (a[k] as u32) < (b[k] as u32)))
}

/// Whether `a` orders strictly before `b`.
fn str_before(a: &str, b: &str) -> (r: bool)
    ensures
        r == name_before(a@, b@),
{
    let x = chars_of(a);
    let y = chars_of(b);
    let mut i: usize = 0;
    while i < x.len() && i < y.len() && x[i] == y[i]
        invariant
            x@ == a@,
            y@ == b@,
            i <= x@.len(),
            i <= y@.len(),
            x@.take(i as int) == y@.take(i as int),
        decreases x@.len() - i,
    {
        proof {
            assert(x@.take(i + 1) =~= x@.take(i as int).push(x@[i as int]));
            assert(y@.take(i + 1) =~= y@.take(i as int).push(y@[i as int]));
        }
        i = i + 1;
    }
    let r = if i < x.len() && i < y.len() {
        (x[i] as u32) < (y[i] as u32)
    } else {
        i == x.len() && i < y.len()
    };
    proof {
        if r {
            assert(0 <= i <= a@.len() && i <= b@.len() && a@.take(i as int) == b@.take(i as int));
        } else {
            assert forall|k: int|
                0 <= k <= a@.len() && k <= b@.len() && a@.take(k) == b@.take(k) implies !((k == a@.len() && k
                    < b@.len()) || (k < a@.len() && k < b@.len() && (a@[k] as u32) < (b@[k] as u32))) by {
                if k < i {
                    assert(a@.take(i as int)[k] == a@[k]);
                    assert(b@.take(i as int)[k] == b@[k]);
                } else if k > i {
                    assert(a@.take(k)[i as int] == a@[i as int]);
                    assert(b@.take(k)[i as int] == b@[i as int]);
                }
            }
        }
    }
    r
}

/// The state kept under `id`, if any: the first entry with that key.
pub open spec fn lookup(s: Seq<(Seq<char>, StateView)>, id: Seq<char>) -> Option<StateView>
    decreases s.len(),
{
    if s.len() == 0 {
        None
    } else if s[0].0 == id {
        Some(s[0].1)
    } else {
        lookup(s.drop_first(), id)
    }
}

/// The list with `(id, v)` put in its place: it replaces the entry under `id`
/// or goes before the first entry that does not order before `id`.
pub open spec fn upsert(s: Seq<(Seq<char>, StateView)>, id: Seq<char>, v: StateView) -> Seq<(Seq<char>, StateView)>
    decreases s.len(),
{
    if s.len() == 0 {
        seq![(id, v)]
    } else if name_before(s[0].0, id) {
        seq![s[0]] + upsert(s.drop_first(), id, v)
    } else if s[0].0 == id {
        s.update(0, (id, v))
    } else {
        seq![(id, v)] + s
    }
}

proof fn lemma_lookup_skip(s: Seq<(Seq<char>, StateView)>, id: Seq<char>, i: int)
    requires
        0 <= i <= s.len(),
        forall|j: int| 0 <= j < i ==> s[j].0 != id,
    ensures
        lookup(s, id) == lookup(s.skip(i), id),
    decreases i,
{
    if i > 0 {
        assert(s.skip(1) =~= s.drop_first());
        lemma_lookup_skip(s.drop_first(), id, i - 1);
        assert(s.drop_first().skip(i - 1) =~= s.skip(i));
    } else {
        assert(s.skip(0) =~= s);
    }
}

proof fn lemma_upsert_at(s: Seq<(Seq<char>, StateView)>, id: Seq<char>, v: StateView, i: int)
    requires
        0 <= i <= s.len(),
        forall|j: int| 0 <= j < i ==> name_before(#[trigger] s[j].0, id),
        i < s.len() ==> !name_before(s[i].0, id),
    ensures
        upsert(s, id, v) == if i < s.len() && s[i].0 == id {
            s.update(i, (id, v))
        } else {
            s.insert(i, (id, v))
        },
    decreases i,
{
    if i > 0 {
        lemma_upsert_at(s.drop_first(), id, v, i - 1);
        if i < s.len() && s[i].0 == id {
            assert(seq![s[0]] + s.drop_first().update(i - 1, (id, v)) =~= s.update(i, (id, v)));
        } else {
            assert(seq![s[0]] + s.drop_first().insert(i - 1, (id, v)) =~= s.insert(i, (id, v)));
        }
    } else {
        if s.len() == 0 {
            assert(s.insert(0, (id, v)) =~= seq![(id, v)]);
        } else if s[0].0 != id {
            assert(s.insert(0, (id, v)) =~= seq![(id, v)] + s);
        }
    }
}

/// Index of the state kept under `id`.
fn find_state(states: &Vec<(String, WatchState)>, id: &str) -> (r: Option<usize>)
    ensures
        match r {
            Some(i) => i < states@.len() && states@[i as int].0@ == id@ && lookup(entries_view(states@), id@) == Some(
                states@[i as int].1@,
            ),
            None => lookup(entries_view(states@), id@) is None,
        },
{
    let ghost s = entries_view(states@);
    let mut i: usize = 0;
    while i < states.len()
        invariant
            i <= states@.len(),
            s == entries_view(states@),
            forall|j: int| 0 <= j < i ==> s[j].0 != id@,
        decreases states@.len() - i,
    {
        if str_equal(states[i].0.as_str(), id) {
            proof {
                lemma_lookup_skip(s, id@, i as int);
                assert(s.skip(i as int)[0] == s[i as int]);
            }
            return Some(i);
        }
        i = i + 1;
    }
    proof {
        lemma_lookup_skip(s, id@, i as int);
    }
    None
}

/// The states with `(id, value)` put in its place.
fn upsert_state(states: Vec<(String, WatchState)>, id: String, value: WatchState) -> (r: Vec<(String, WatchState)>)
    ensures
        entries_view(r@) == upsert(entries_view(states@), id@, value@),
{
    let ghost s = entries_view(states@);
    let mut states = states;
    let mut i: usize = 0;
    while i < states.len() && str_before(states[i].0.as_str(), id.as_str())
        invariant
            i <= states@.len(),
            s == entries_view(states@),
            forall|j: int| 0 <= j < i ==> name_before(#[trigger] s[j].0, id@),
        decreases states@.len() - i,
    {
        i = i + 1;
    }
    proof {
        lemma_upsert_at(s, id@, value@, i as int);
    }
    if i < states.len() && str_equal(states[i].0.as_str(), id.as_str()) {
        states.set(i, (id, value));
        proof {
            assert(entries_view(states@) =~= s.update(i as int, (id@, value@)));
        }
    } else {
        states.insert(i, (id, value));
        proof {
            assert(entries_view(states@) =~= s.insert(i as int, (id@, value@)));
        }
    }
    states
}

// ---------------------------------------------------------------------------
// Diagnostics

/// The diagnostics after one more is recorded: it replaces the one for the
/// same plugin and code, or else joins at the end, dropping the oldest when
/// the list is full.
pub open spec fn pushed_diagnostic(ds: Seq<DiagnosticView>, d: DiagnosticView) -> Seq<DiagnosticView> {
    if exists|i: int| 0 <= i < ds.len() && ds[i].plugin_id == d.plugin_id && ds[i].code == d.code {
        let i = choose|i: int|
            0 <= i < ds.len() && ds[i].plugin_id == d.plugin_id && ds[i].code == d.code && forall|j: int|
                0 <= j < i ==> !(ds[j].plugin_id == d.plugin_id && ds[j].code == d.code);
        ds.update(i, d)
    } else if ds.len() >= MAX_DIAGNOSTICS {
        ds.drop_first().push(d)
    } else {
        ds.push(d)
    }
}

spec fn diagnostics_view(v: Seq<WatchDiagnostic>) -> Seq<DiagnosticView> {
    v.map_values(|d: WatchDiagnostic| d@)
}

fn push_diagnostic(diagnostics: &mut Vec<WatchDiagnostic>, diagnostic: WatchDiagnostic)
    ensures
        diagnostics_view(final(diagnostics)@) == pushed_diagnostic(diagnostics_view(old(diagnostics)@), diagnostic@),
{
    let ghost ds = diagnostics_view(diagnostics@);
    let ghost d = diagnostic@;
    let mut i: usize = 0;
    while i < diagnostics.len()
        invariant
            i <= diagnostics@.len(),
            ds == diagnostics_view(diagnostics@),
            diagnostics@ == old(diagnostics)@,
            d == diagnostic@,
            forall|j: int| 0 <= j < i ==> !(ds[j].plugin_id == d.plugin_id && ds[j].code == d.code),
        decreases diagnostics@.len() - i,
    {
        if str_equal(diagnostics[i].plugin_id.as_str(), diagnostic.plugin_id.as_str()) && str_equal(
            diagnostics[i].code.as_str(),
            diagnostic.code.as_str(),
        ) {
            proof {
                assert(ds[i as int].plugin_id == d.plugin_id && ds[i as int].code == d.code);
                assert(exists|k: int|
                    0 <= k < ds.len() && ds[k].plugin_id == d.plugin_id && ds[k].code == d.code && forall|j: int|
                        0 <= j < k ==> !(ds[j].plugin_id == d.plugin_id && ds[j].code == d.code));
                let k = choose|k: int|
                    0 <= k < ds.len() && ds[k].plugin_id == d.plugin_id && ds[k].code == d.code && forall|j: int|
                        0 <= j < k ==> !(ds[j].plugin_id == d.plugin_id && ds[j].code == d.code);
                assert(k == i);
            }
            diagnostics.set(i, diagnostic);
            proof {
                assert(diagnostics_view(diagnostics@) =~= ds.update(i as int, d));
            }
            return;
        }
        i = i + 1;
    }
    if diagnostics.len() >= MAX_DIAGNOSTICS {
        diagnostics.remove(0);
        proof {
            assert(diagnostics_view(diagnostics@) =~= ds.drop_first());
        }
    }
    let ghost before = diagnostics@;
    diagnostics.push(diagnostic);
    proof {
        assert(diagnostics_view(diagnostics@) =~= diagnostics_view(before).push(d));
    }
}

// ---------------------------------------------------------------------------
// Observations and per-source state

/// One more, stopping at the largest `u8`.
pub open spec fn sat_inc(n: u8) -> u8 {
    if n == 255 {
        255u8
    } else {
        (n + 1) as u8
    }
}

/// A source is watched when it has a renderer entry and the runtime loaded its source.
pub open spec fn watchable(s: SourceView) -> bool {
    s.manifest.renderer_entry is Some && s.loaded is Some
}

/// What the runtime loaded for the source: the baseline that counts as unchanged.
pub open spec fn installed_observation(s: SourceView) -> ObservationView {
    ObservationView::Ready {
        fingerprint: match s.loaded {
            Some(f) => f,
            None => Seq::empty(),
        },
        grants: s.grants,
    }
}

/// The state of a source seen for the first time, or under a new directory.
pub open spec fn fresh_state(s: SourceView, now: u64) -> StateView {
    StateView {
        path: s.path,
        generation: s.generation,
        installed: installed_observation(s),
        observed: None,
        observed_since: now,
        stable_samples: 0,
        last_attempted: None,
        announced_pause: None,
    }
}

/// The state brought up to date with what the runtime has loaded. A new
/// generation takes the loaded source as baseline and keeps the record of the
/// last attempt.
pub open spec fn synchronized(st: StateView, s: SourceView, now: u64) -> StateView {
    if st.path != s.path {
        fresh_state(s, now)
    } else if st.generation != s.generation {
        StateView {
            generation: s.generation,
            installed: installed_observation(s),
            observed_since: now,
            stable_samples: 0,
            ..st
        }
    } else {
        st
    }
}

/// The state after one more sample.
pub open spec fn observed_state(st: StateView, o: ObservationView, now: u64) -> StateView {
    let counted = if st.observed == Some(o) {
        StateView { stable_samples: sat_inc(st.stable_samples), ..st }
    } else {
        StateView { observed: Some(o), observed_since: now, stable_samples: 1, ..st }
    };
    let cleared = if counted.observed == Some(counted.installed) {
        StateView { last_attempted: None, ..counted }
    } else {
        counted
    };
    if o is Ready {
        StateView { announced_pause: None, ..cleared }
    } else {
        cleared
    }
}

/// The last observation was seen at least twice and has held for the quiet period.
pub open spec fn settled(st: StateView, now: u64) -> bool {
    st.stable_samples >= 2 && now >= st.observed_since + QUIET_PERIOD_MS
}


fn same_observation(a: &Observation, b: &Observation) -> (r: bool)
    ensures
        r == (a@ == b@),
{
    match (a, b) {
        (Observation::Ready { fingerprint: f, grants: g }, Observation::Ready { fingerprint: h, grants: k }) => {
            str_equal(f.as_str(), h.as_str()) && permissions_equal(g, k)
        },
        (Observation::Paused { code: c, message: m }, Observation::Paused { code: d, message: n }) => {
            str_equal(c.as_str(), d.as_str()) && str_equal(m.as_str(), n.as_str())
        },
        _ => false,
    }
}

fn same_optional_observation(a: &Option<Observation>, b: &Option<Observation>) -> (r: bool)
    ensures
        r == (opt_observation(*a) == opt_observation(*b)),
{
    match (a, b) {
        (Some(x), Some(y)) => same_observation(x, y),
        (None, None) => true,
        _ => false,
    }
}

fn copy_observation(o: &Observation) -> (r: Observation)
    ensures
        r@ == o@,
{
    match o {
        Observation::Ready { fingerprint, grants } => Observation::Ready {
            fingerprint: copy_string(fingerprint),
            grants: copy_permissions(grants),
        },
        Observation::Paused { code, message } => Observation::Paused {
            code: copy_string(code),
            message: copy_string(message),
        },
    }
}

fn copy_optional_observation(o: &Option<Observation>) -> (r: Option<Observation>)
    ensures
        opt_observation(r) == opt_observation(*o),
{
    match o {
        Some(v) => Some(copy_observation(v)),
        None => None,
    }
}

fn copy_summary(s: &Summary) -> (r: Summary)
    ensures
        r@ == s@,
{
    match s {
        Summary::Fingerprint(f) => Summary::Fingerprint(copy_string(f)),
        Summary::Message(m) => Summary::Message(copy_string(m)),
        Summary::Nothing => Summary::Nothing,
    }
}

fn copy_entry(e: &SignatureEntry) -> (r: SignatureEntry)
    ensures
        r@ == e@,
{
    SignatureEntry {
        id: copy_string(&e.id),
        watched: match &e.watched {
            Some(w) => Some((copy_string(&w.0), copy_summary(&w.1))),
            None => None,
        },
        grants: match &e.grants {
            Some(g) => Some(copy_permissions(g)),
            None => None,
        },
    }
}

fn copy_signature(v: &Vec<SignatureEntry>) -> (r: Vec<SignatureEntry>)
    ensures
        signature_set(r@) == signature_set(v@),
{
    let mut out: Vec<SignatureEntry> = Vec::new();
    let mut i: usize = 0;
    while i < v.len()
        invariant
            i <= v@.len(),
            out@.map_values(|e: SignatureEntry| e@) == v@.map_values(|e: SignatureEntry| e@).take(i as int),
        decreases v@.len() - i,
    {
        let ghost before = out@;
        out.push(copy_entry(&v[i]));
        i = i + 1;
        proof {
            assert(out@.map_values(|e: SignatureEntry| e@) =~= before.map_values(|e: SignatureEntry| e@).push(v@[i - 1]@));
            assert(out@.map_values(|e: SignatureEntry| e@) =~= v@.map_values(|e: SignatureEntry| e@).take(i as int));
        }
    }
    proof {
        assert(v@.map_values(|e: SignatureEntry| e@).take(v@.len() as int) =~= v@.map_values(|e: SignatureEntry| e@));
    }
    out
}

fn copy_state(st: &WatchState) -> (r: WatchState)
    ensures
        r@ == st@,
{
    WatchState {
        path: copy_string(&st.path),
        generation: st.generation,
        installed: copy_observation(&st.installed),
        observed: copy_optional_observation(&st.observed),
        observed_since: st.observed_since,
        stable_samples: st.stable_samples,
        last_attempted: match &st.last_attempted {
            Some(v) => Some(copy_signature(v)),
            None => None,
        },
        announced_pause: copy_optional_observation(&st.announced_pause),
    }
}

fn installed_of(source: &LocalWatchSource) -> (r: Observation)
    ensures
        r@ == installed_observation(source@),
{
    Observation::Ready {
        fingerprint: match &source.loaded_fingerprint {
            Some(f) => copy_string(f),
            None => String::new(),
        },
        grants: copy_permissions(&source.grants),
    }
}

impl WatchState {
    fn new(source: &LocalWatchSource, now: u64) -> (r: Self)
        ensures
            r@ == fresh_state(source@, now),
    {
        WatchState {
            path: copy_string(&source.path),
            generation: source.plugin.generation,
            installed: installed_of(source),
            observed: None,
            observed_since: now,
            stable_samples: 0,
            last_attempted: None,
            announced_pause: None,
        }
    }

    fn synchronize(self, source: &LocalWatchSource, now: u64) -> (r: Self)
        ensures
            r@ == synchronized(self@, source@, now),
    {
        if !str_equal(self.path.as_str(), source.path.as_str()) {
            WatchState::new(source, now)
        } else if self.generation != source.plugin.generation {
            WatchState {
                generation: source.plugin.generation,
                installed: installed_of(source),
                observed_since: now,
                stable_samples: 0,
                ..self
            }
        } else {
            self
        }
    }

    fn observe(&mut self, observation: Observation, now: u64)
        ensures
            final(self)@ == observed_state(old(self)@, observation@, now),
    {
        let ready = match &observation {
            Observation::Ready { .. } => true,
            Observation::Paused { .. } => false,
        };
        let same = match &self.observed {
            Some(current) => same_observation(current, &observation),
            None => false,
        };
        if same {
            self.stable_samples = if self.stable_samples == 255 {
                255
            } else {
                self.stable_samples + 1
            };
        } else {
            self.observed = Some(observation);
            self.observed_since = now;
            self.stable_samples = 1;
        }
        let baseline = match &self.observed {
            Some(current) => same_observation(current, &self.installed),
            None => false,
        };
        if baseline {
            self.last_attempted = None;
        }
        if ready {
            self.announced_pause = None;
        }
    }

    fn settled(&self, now: u64) -> (r: bool)
        ensures
            r == settled(self@, now),
    {
        self.stable_samples >= 2 && now >= self.observed_since && now - self.observed_since >= QUIET_PERIOD_MS
    }
}

// ---------------------------------------------------------------------------
// Taking in the loaded sources

/// The views of the sources.
pub open spec fn source_views(v: Seq<LocalWatchSource>) -> Seq<SourceView> {
    v.map_values(|s: LocalWatchSource| s@)
}

/// The states after the loaded sources are taken in: one per watched source,
/// in name order, a source listed twice counting as its last listing. A state
/// kept from before is brought up to date; one for a new source starts fresh;
/// states of sources no longer watched are dropped.
pub open spec fn synced_states(old: Seq<(Seq<char>, StateView)>, srcs: Seq<SourceView>, now: u64) -> Seq<
    (Seq<char>, StateView),
>
    decreases srcs.len(),
{
    if srcs.len() == 0 {
        Seq::empty()
    } else {
        let acc = synced_states(old, srcs.drop_last(), now);
        let s = srcs.last();
        if watchable(s) {
            upsert(
                acc,
                s.manifest.id,
                match lookup(old, s.manifest.id) {
                    Some(st) => synchronized(st, s, now),
                    None => fresh_state(s, now),
                },
            )
        } else {
            acc
        }
    }
}

fn is_watchable(source: &LocalWatchSource) -> (r: bool)
    ensures
        r == watchable(source@),
{
    source.plugin.manifest.renderer_entry.is_some() && source.loaded_fingerprint.is_some()
}

fn synchronize_states(old: &Vec<(String, WatchState)>, sources: &Vec<LocalWatchSource>, now: u64) -> (r: Vec<(String, WatchState)>)
    ensures
        entries_view(r@) == synced_states(entries_view(old@), source_views(sources@), now),
{
    let ghost srcs = source_views(sources@);
    let mut acc: Vec<(String, WatchState)> = Vec::new();
    let mut i: usize = 0;
    proof {
        assert(srcs.take(0) =~= Seq::<SourceView>::empty());
        assert(entries_view(acc@) =~= Seq::<(Seq<char>, StateView)>::empty());
    }
    while i < sources.len()
        invariant
            i <= sources@.len(),
            srcs == source_views(sources@),
            entries_view(acc@) == synced_states(entries_view(old@), srcs.take(i as int), now),
        decreases sources@.len() - i,
    {
        let source = &sources[i];
        proof {
            assert(srcs.take(i + 1).drop_last() =~= srcs.take(i as int));
            assert(srcs.take(i + 1).last() == source@);
        }
        if is_watchable(source) {
            let id = copy_string(&source.plugin.manifest.id);
            let value = match find_state(old, id.as_str()) {
                Some(k) => copy_state(&old[k].1).synchronize(source, now),
                None => WatchState::new(source, now),
            };
            acc = upsert_state(acc, id, value);
        }
        i = i + 1;
    }
    proof {
        assert(srcs.take(sources@.len() as int) =~= srcs);
    }
    acc
}

/// The last watched listing of the plugin among the sources.
pub open spec fn source_for(srcs: Seq<SourceView>, id: Seq<char>) -> Option<SourceView>
    decreases srcs.len(),
{
    if srcs.len() == 0 {
        None
    } else if watchable(srcs.last()) && srcs.last().manifest.id == id {
        Some(srcs.last())
    } else {
        source_for(srcs.drop_last(), id)
    }
}

proof fn lemma_source_for(srcs: Seq<SourceView>, id: Seq<char>)
    ensures
        match source_for(srcs, id) {
            Some(s) => s.manifest.id == id && watchable(s),
            None => true,
        },
    decreases srcs.len(),
{
    if srcs.len() > 0 {
        lemma_source_for(srcs.drop_last(), id);
    }
}

fn find_source(sources: &Vec<LocalWatchSource>, id: &str) -> (r: Option<usize>)
    ensures
        match r {
            Some(i) => i < sources@.len() && source_for(source_views(sources@), id@) == Some(sources@[i as int]@),
            None => source_for(source_views(sources@), id@) is None,
        },
{
    let ghost srcs = source_views(sources@);
    let mut i: usize = sources.len();
    proof {
        assert(srcs.take(i as int) =~= srcs);
    }
    while i > 0
        invariant
            i <= sources@.len(),
            srcs == source_views(sources@),
            source_for(srcs, id@) == source_for(srcs.take(i as int), id@),
        decreases i,
    {
        let j = i - 1;
        proof {
            assert(srcs.take(i as int).drop_last() =~= srcs.take(j as int));
            assert(srcs.take(i as int).last() == sources@[j as int]@);
        }
        if is_watchable(&sources[j]) && str_equal(sources[j].plugin.manifest.id.as_str(), id) {
            return Some(j);
        }
        i = j;
    }
    None
}

/// The plugin's registration, if the registry has one.
pub open spec fn registration_of(reg: Seq<RegisteredView>, id: Seq<char>) -> Option<RegisteredView>
    decreases reg.len(),
{
    if reg.len() == 0 {
        None
    } else if reg[0].plugin_id == id {
        Some(reg[0])
    } else {
        registration_of(reg.drop_first(), id)
    }
}

/// The views of the registrations.
pub open spec fn registered_views(v: Seq<RegisteredSource>) -> Seq<RegisteredView> {
    v.map_values(|r: RegisteredSource| r@)
}

fn find_registration(registry: &Vec<RegisteredSource>, id: &str) -> (r: Option<usize>)
    ensures
        match r {
            Some(i) => i < registry@.len() && registration_of(registered_views(registry@), id@) == Some(registry@[i as int]@),
            None => registration_of(registered_views(registry@), id@) is None,
        },
{
    let ghost reg = registered_views(registry@);
    let mut i: usize = 0;
    proof {
        assert(reg.skip(0) =~= reg);
    }
    while i < registry.len()
        invariant
            i <= registry@.len(),
            reg == registered_views(registry@),
            registration_of(reg, id@) == registration_of(reg.skip(i as int), id@),
        decreases registry@.len() - i,
    {
        proof {
            assert(reg.skip(i as int)[0] == registry@[i as int]@);
            assert(reg.skip(i as int).drop_first() =~= reg.skip(i + 1));
        }
        if str_equal(registry[i].plugin_id.as_str(), id) {
            return Some(i);
        }
        i = i + 1;
    }
    None
}

/// Why watching the plugin is paused: its registration is gone, or now names
/// another directory than the one the runtime loaded.
pub open spec fn registration_pause(s: SourceView, reg: Seq<RegisteredView>) -> Option<ObservationView> {
    match registration_of(reg, s.manifest.id) {
        None => Some(
            ObservationView::Paused {
                code: "watch_registration_removed"@,
                message: "Watching "@ + s.manifest.id
                    + " is paused because its registration was removed; explicitly register and enable or reload the plugin to select its source."@,
            },
        ),
        Some(r) => if r.path != s.path {
            Some(
                ObservationView::Paused {
                    code: "watch_registration_path_changed"@,
                    message: "Watching "@ + s.manifest.id
                        + " is paused because its registered directory changed; enable or reload it manually to select that source."@,
                },
            )
        } else {
            None
        },
    }
}

fn pause_of(source: &LocalWatchSource, registry: &Vec<RegisteredSource>) -> (r: Option<Observation>)
    ensures
        opt_observation(r) == registration_pause(source@, registered_views(registry@)),
{
    let id = source.plugin.manifest.id.as_str();
    match find_registration(registry, id) {
        None => Some(
            Observation::Paused {
                code: "watch_registration_removed".to_string(),
                message: concat3(
                    "Watching ",
                    id,
                    " is paused because its registration was removed; explicitly register and enable or reload the plugin to select its source.",
                ),
            },
        ),
        Some(k) => if !str_equal(registry[k].path.as_str(), source.path.as_str()) {
            Some(
                Observation::Paused {
                    code: "watch_registration_path_changed".to_string(),
                    message: concat3(
                        "Watching ",
                        id,
                        " is paused because its registered directory changed; enable or reload it manually to select that source.",
                    ),
                },
            )
        } else {
            None
        },
    }
}

// ---------------------------------------------------------------------------
// Sampling, registry problems and announcements

/// What a sample of the source finds, given the registry and the fingerprint
/// of its source directory as it is now.
pub open spec fn sample_observation(s: SourceView, reg: Seq<RegisteredView>, fingerprint: Seq<char>) -> ObservationView {
    match registration_pause(s, reg) {
        Some(p) => p,
        None => ObservationView::Ready {
            fingerprint,
            grants: match registration_of(reg, s.manifest.id) {
                Some(r) => r.grants,
                None => Seq::empty(),
            },
        },
    }
}

/// How many of `n` watched sources one poll samples.
pub open spec fn sample_count(n: int) -> int {
    if n < MAX_SOURCES_PER_POLL {
        n
    } else {
        MAX_SOURCES_PER_POLL as int
    }
}

/// The states after the first `count` samples of a round that starts at
/// `start` and wraps around; `fps[k]` is the fingerprint read for sample `k`.
pub open spec fn sampled_states(
    states: Seq<(Seq<char>, StateView)>,
    srcs: Seq<SourceView>,
    reg: Seq<RegisteredView>,
    fps: Seq<Seq<char>>,
    start: int,
    count: nat,
    now: u64,
) -> Seq<(Seq<char>, StateView)>
    decreases count,
{
    if count == 0 {
        states
    } else {
        let prev = sampled_states(states, srcs, reg, fps, start, (count - 1) as nat, now);
        let idx = (start + count - 1) % (states.len() as int);
        let id = prev[idx].0;
        match source_for(srcs, id) {
            Some(s) => prev.update(idx, (id, observed_state(prev[idx].1, sample_observation(s, reg, fps[count - 1]), now))),
            None => prev,
        }
    }
}

proof fn lemma_sampled_len(
    states: Seq<(Seq<char>, StateView)>,
    srcs: Seq<SourceView>,
    reg: Seq<RegisteredView>,
    fps: Seq<Seq<char>>,
    start: int,
    count: nat,
    now: u64,
)
    requires
        states.len() > 0,
        start >= 0,
    ensures
        sampled_states(states, srcs, reg, fps, start, count, now).len() == states.len(),
        forall|i: int|
            0 <= i < states.len() ==> (#[trigger] sampled_states(states, srcs, reg, fps, start, count, now)[i]).0
                == states[i].0,
    decreases count,
{
    if count > 0 {
        lemma_sampled_len(states, srcs, reg, fps, start, (count - 1) as nat, now);
    }
}

fn sample_sources(
    states: &mut Vec<(String, WatchState)>,
    sources: &Vec<LocalWatchSource>,
    registry: &Vec<RegisteredSource>,
    fingerprints: &Vec<String>,
    start: usize,
    count: usize,
    now: u64,
)
    requires
        start < old(states)@.len(),
        count <= old(states)@.len(),
        count <= fingerprints@.len(),
    ensures
        entries_view(final(states)@) == sampled_states(
            entries_view(old(states)@),
            source_views(sources@),
            registered_views(registry@),
            fingerprints@.map_values(|f: String| f@),
            start as int,
            count as nat,
            now,
        ),
{
    let ghost s0 = entries_view(states@);
    let ghost srcs = source_views(sources@);
    let ghost reg = registered_views(registry@);
    let ghost fps = fingerprints@.map_values(|f: String| f@);
    let n = states.len();
    let mut step: usize = 0;
    while step < count
        invariant
            step <= count <= fingerprints@.len(),
            count <= n,
            n == states@.len(),
            start < n,
            s0.len() == n,
            srcs == source_views(sources@),
            reg == registered_views(registry@),
            fps == fingerprints@.map_values(|f: String| f@),
            entries_view(states@) == sampled_states(s0, srcs, reg, fps, start as int, step as nat, now),
        decreases count - step,
    {
        proof {
            lemma_sampled_len(s0, srcs, reg, fps, start as int, step as nat, now);
        }
        let idx = if step < n - start {
            start + step
        } else {
            step - (n - start)
        };
        proof {
            let x = start + step;
            if step < n - start {
                assert(x % (n as int) == x) by (nonlinear_arith)
                    requires
                        0 <= x < n,
                ;
            } else {
                assert(x % (n as int) == x - n) by (nonlinear_arith)
                    requires
                        n <= x < 2 * n,
                ;
            }
            assert(idx as int == (start + (step + 1) - 1) % (n as int));
        }
        let id = copy_string(&states[idx].0);
        proof {
            lemma_source_for(srcs, id@);
        }
        match find_source(sources, id.as_str()) {
            Some(j) => {
                let observation = match pause_of(&sources[j], registry) {
                    Some(p) => p,
                    None => Observation::Ready {
                        fingerprint: copy_string(&fingerprints[step]),
                        grants: match find_registration(registry, id.as_str()) {
                            Some(k) => copy_permissions(&registry[k].grants),
                            None => Vec::new(),
                        },
                    },
                };
                let mut state = copy_state(&states[idx].1);
                state.observe(observation, now);
                let ghost before = states@;
                states.set(idx, (id, state));
                proof {
                    assert(entries_view(states@) =~= entries_view(before).update(idx as int, (id@, state@)));
                }
            },
            None => {},
        }
        step = step + 1;
    }
}

/// The watcher after a failed registry read. The same failure seen again
/// counts one more sample; once it has been seen twice and has lasted the quiet
/// period it is announced, once.
pub open spec fn registry_problem_observed(w: WatcherView, message: Seq<char>, now: u64) -> WatcherView {
    let p = match w.problem {
        Some(q) => if q.message == message {
            ProblemView { samples: sat_inc(q.samples), ..q }
        } else {
            ProblemView { message, since: now, samples: 1, announced: false }
        },
        None => ProblemView { message, since: now, samples: 1, announced: false },
    };
    if p.samples >= 2 && now >= p.since + QUIET_PERIOD_MS && !p.announced {
        WatcherView {
            problem: Some(ProblemView { announced: true, ..p }),
            diagnostics: pushed_diagnostic(
                w.diagnostics,
                DiagnosticView {
                    plugin_id: Seq::empty(),
                    code: "watch_registry_unavailable"@,
                    message: "File watching is paused until the plugin registry can be read: "@ + p.message,
                },
            ),
            ..w
        }
    } else {
        WatcherView { problem: Some(p), ..w }
    }
}

/// One state's turn in the announcement pass: a settled pause not yet
/// announced is announced.
pub open spec fn announce_one(e: (Seq<char>, StateView), ds: Seq<DiagnosticView>, now: u64) -> (
    (Seq<char>, StateView),
    Seq<DiagnosticView>,
) {
    match e.1.observed {
        Some(ObservationView::Paused { code, message }) => if settled(e.1, now) && e.1.announced_pause != e.1.observed {
            (
                (e.0, StateView { announced_pause: e.1.observed, ..e.1 }),
                pushed_diagnostic(ds, DiagnosticView { plugin_id: e.0, code, message }),
            )
        } else {
            (e, ds)
        },
        _ => (e, ds),
    }
}

/// The announcement pass over the states in order.
pub open spec fn announced(states: Seq<(Seq<char>, StateView)>, ds: Seq<DiagnosticView>, now: u64) -> (
    Seq<(Seq<char>, StateView)>,
    Seq<DiagnosticView>,
)
    decreases states.len(),
{
    if states.len() == 0 {
        (states, ds)
    } else {
        let front = announced(states.drop_last(), ds, now);
        let last = announce_one(states.last(), front.1, now);
        (front.0.push(last.0), last.1)
    }
}

proof fn lemma_announced_len(states: Seq<(Seq<char>, StateView)>, ds: Seq<DiagnosticView>, now: u64)
    ensures
        announced(states, ds, now).0.len() == states.len(),
        forall|i: int| 0 <= i < states.len() ==> (#[trigger] announced(states, ds, now).0[i]).0 == states[i].0,
    decreases states.len(),
{
    if states.len() > 0 {
        lemma_announced_len(states.drop_last(), ds, now);
    }
}

impl PluginWatcher {
    fn observe_registry_problem(&mut self, message: String, now: u64)
        ensures
            final(self)@ == registry_problem_observed(old(self)@, message@, now),
    {
        let problem = match self.registry_problem.take() {
            Some(q) => if str_equal(q.message.as_str(), message.as_str()) {
                RegistryProblem {
                    samples: if q.samples == 255 {
                        255
                    } else {
                        q.samples + 1
                    },
                    ..q
                }
            } else {
                RegistryProblem { message, since: now, samples: 1, announced: false }
            },
            None => RegistryProblem { message, since: now, samples: 1, announced: false },
        };
        if problem.samples >= 2 && now >= problem.since && now - problem.since >= QUIET_PERIOD_MS && !problem.announced {
            let text = concat3(
                "File watching is paused until the plugin registry can be read: ",
                problem.message.as_str(),
                "",
            );
            proof {
                reveal_strlit("");
                assert(text@ =~= "File watching is paused until the plugin registry can be read: "@ + problem.message@);
            }
            push_diagnostic(
                &mut self.diagnostics,
                WatchDiagnostic { plugin_id: String::new(), code: "watch_registry_unavailable".to_string(), message: text },
            );
            self.registry_problem = Some(RegistryProblem { announced: true, ..problem });
        } else {
            self.registry_problem = Some(problem);
        }
    }

    fn announce(&mut self, now: u64)
        ensures
            entries_view(final(self).states@) == announced(entries_view(old(self).states@), diagnostics_view(old(self).diagnostics@), now).0,
            diagnostics_view(final(self).diagnostics@) == announced(entries_view(old(self).states@), diagnostics_view(old(self).diagnostics@), now).1,
            final(self).registry_path == old(self).registry_path,
            final(self).next_poll == old(self).next_poll,
            final(self).cursor == old(self).cursor,
            final(self).registry_problem == old(self).registry_problem,
    {
        let ghost s0 = entries_view(self.states@);
        let ghost d0 = diagnostics_view(self.diagnostics@);
        let n = self.states.len();
        let mut i: usize = 0;
        proof {
            assert(s0.take(0) =~= Seq::<(Seq<char>, StateView)>::empty());
            assert(s0.skip(0) =~= s0);
        }
        while i < n
            invariant
                i <= n == s0.len() == self.states@.len(),
                entries_view(self.states@) == announced(s0.take(i as int), d0, now).0 + s0.skip(i as int),
                diagnostics_view(self.diagnostics@) == announced(s0.take(i as int), d0, now).1,
                self.registry_path == old(self).registry_path,
                self.next_poll == old(self).next_poll,
                self.cursor == old(self).cursor,
                self.registry_problem == old(self).registry_problem,
            decreases n - i,
        {
            proof {
                lemma_announced_len(s0.take(i as int), d0, now);
                assert(s0.take(i + 1).drop_last() =~= s0.take(i as int));
                assert(s0.take(i + 1).last() == s0[i as int]);
                assert(entries_view(self.states@)[i as int] == s0[i as int]);
            }
            let ghost front = announced(s0.take(i as int), d0, now);
            let fire = match &self.states[i].1.observed {
                Some(Observation::Paused { .. }) => self.states[i].1.settled(now) && !same_optional_observation(
                    &self.states[i].1.announced_pause,
                    &self.states[i].1.observed,
                ),
                _ => false,
            };
            if fire {
                let id = copy_string(&self.states[i].0);
                let mut state = copy_state(&self.states[i].1);
                let (code, message) = match &state.observed {
                    Some(Observation::Paused { code, message }) => (copy_string(code), copy_string(message)),
                    _ => (String::new(), String::new()),
                };
                push_diagnostic(&mut self.diagnostics, WatchDiagnostic { plugin_id: copy_string(&id), code, message });
                state.announced_pause = copy_optional_observation(&state.observed);
                let ghost before = self.states@;
                self.states.set(i, (id, state));
                proof {
                    assert(entries_view(self.states@) =~= entries_view(before).update(i as int, (id@, state@)));
                    assert(entries_view(self.states@) =~= front.0.push(announce_one(s0[i as int], front.1, now).0)
                        + s0.skip(i + 1));
                }
            } else {
                proof {
                    assert(announce_one(s0[i as int], front.1, now) == (s0[i as int], front.1));
                    assert(entries_view(self.states@) =~= front.0.push(s0[i as int]) + s0.skip(i + 1));
                }
            }
            i = i + 1;
        }
        proof {
            assert(s0.take(n as int) =~= s0);
            assert(s0.skip(n as int) =~= Seq::<(Seq<char>, StateView)>::empty());
            assert(announced(s0, d0, now).0 + Seq::<(Seq<char>, StateView)>::empty() =~= announced(s0, d0, now).0);
        }
    }
}

// ---------------------------------------------------------------------------
// Choosing a reload

/// The manifests of the watched sources, in state order.
pub open spec fn watched_manifests(states: Seq<(Seq<char>, StateView)>, srcs: Seq<SourceView>) -> Seq<ManifestView>
    decreases states.len(),
{
    if states.len() == 0 {
        Seq::empty()
    } else {
        let rest = watched_manifests(states.drop_last(), srcs);
        match source_for(srcs, states.last().0) {
            Some(s) => rest.push(s.manifest),
            None => rest,
        }
    }
}

/// `s` is the least set that holds `root` and every plugin depending on a member.
pub open spec fn is_dependent_closure(ms: Seq<ManifestView>, root: Seq<char>, s: Set<Seq<char>>) -> bool {
    &&& closed_under_dependents(ms, s)
    &&& s.contains(root)
    &&& forall|t: Set<Seq<char>>| #[trigger] closed_under_dependents(ms, t) && t.contains(root) ==> s.subset_of(t)
}

/// The plugins a reload of `root` affects: `root` and everything depending on it.
pub open spec fn dependent_set(ms: Seq<ManifestView>, root: Seq<char>) -> Set<Seq<char>> {
    choose|s: Set<Seq<char>>| is_dependent_closure(ms, root, s)
}

proof fn lemma_dependent_set(ms: Seq<ManifestView>, root: Seq<char>, s: Set<Seq<char>>)
    requires
        is_dependent_closure(ms, root, s),
    ensures
        dependent_set(ms, root) == s,
{
    let c = dependent_set(ms, root);
    assert(is_dependent_closure(ms, root, c));
    assert(c.subset_of(s));
    assert(s.subset_of(c));
    assert(c =~= s);
}

fn watched_plugins(states: &Vec<(String, WatchState)>, sources: &Vec<LocalWatchSource>) -> (r: Vec<LoadedPlugin>)
    ensures
        manifests(r@) == watched_manifests(entries_view(states@), source_views(sources@)),
{
    let ghost s0 = entries_view(states@);
    let ghost srcs = source_views(sources@);
    let mut out: Vec<LoadedPlugin> = Vec::new();
    let mut i: usize = 0;
    proof {
        assert(s0.take(0) =~= Seq::<(Seq<char>, StateView)>::empty());
        assert(manifests(out@) =~= Seq::<ManifestView>::empty());
    }
    while i < states.len()
        invariant
            i <= states@.len(),
            s0 == entries_view(states@),
            srcs == source_views(sources@),
            manifests(out@) == watched_manifests(s0.take(i as int), srcs),
        decreases states@.len() - i,
    {
        proof {
            assert(s0.take(i + 1).drop_last() =~= s0.take(i as int));
            assert(s0.take(i + 1).last() == s0[i as int]);
        }
        match find_source(sources, states[i].0.as_str()) {
            Some(j) => {
                let ghost before = out@;
                out.push(LoadedPlugin { manifest: copy_manifest(&sources[j].plugin.manifest), generation: sources[j].plugin.generation });
                proof {
                    assert(manifests(out@) =~= manifests(before).push(sources@[j as int].plugin.manifest@));
                }
            },
            None => {},
        }
        i = i + 1;
    }
    proof {
        assert(s0.take(states@.len() as int) =~= s0);
    }
    out
}

fn closure_of(plugins: &Vec<LoadedPlugin>, root: &str) -> (r: Vec<String>)
    ensures
        id_set(r@) == dependent_set(manifests(plugins@), root@),
        r@.len() == dependent_set(manifests(plugins@), root@).len(),
{
    let r = dependent_closure(plugins, root);
    proof {
        let ms = manifests(plugins@);
        assert forall|t: Set<Seq<char>>| #[trigger] closed_under_dependents(ms, t) && t.contains(root@) implies id_set(r@).subset_of(t) by {}
        lemma_dependent_set(ms, root@, id_set(r@));
        r@.map_values(|s: String| s@).unique_seq_to_set();
    }
    r
}

/// What an attempt records of an observation.
pub open spec fn summary_of(o: Option<ObservationView>) -> SummaryView {
    match o {
        Some(ObservationView::Ready { fingerprint, .. }) => SummaryView::Fingerprint(fingerprint),
        Some(ObservationView::Paused { message, .. }) => SummaryView::Message(message),
        None => SummaryView::Nothing,
    }
}

/// What an attempt records of one affected plugin: its watched directory and
/// observation, and its registered grants.
pub open spec fn signature_entry(states: Seq<(Seq<char>, StateView)>, reg: Seq<RegisteredView>, id: Seq<char>) -> SignatureView {
    SignatureView {
        id,
        watched: match lookup(states, id) {
            Some(st) => Some((st.path, summary_of(st.observed))),
            None => None,
        },
        grants: match registration_of(reg, id) {
            Some(r) => Some(r.grants),
            None => None,
        },
    }
}

/// The record of an attempt to reload the affected plugins.
pub open spec fn attempt_signature(states: Seq<(Seq<char>, StateView)>, reg: Seq<RegisteredView>, ids: Set<Seq<char>>) -> Set<SignatureView> {
    Set::new(|e: SignatureView| ids.contains(e.id) && e == signature_entry(states, reg, e.id))
}

fn summary(o: &Option<Observation>) -> (r: Summary)
    ensures
        r@ == summary_of(opt_observation(*o)),
{
    match o {
        Some(Observation::Ready { fingerprint, .. }) => Summary::Fingerprint(copy_string(fingerprint)),
        Some(Observation::Paused { message, .. }) => Summary::Message(copy_string(message)),
        None => Summary::Nothing,
    }
}

fn entry_of(states: &Vec<(String, WatchState)>, registry: &Vec<RegisteredSource>, id: &String) -> (r: SignatureEntry)
    ensures
        r@ == signature_entry(entries_view(states@), registered_views(registry@), id@),
{
    SignatureEntry {
        id: copy_string(id),
        watched: match find_state(states, id.as_str()) {
            Some(k) => Some((copy_string(&states[k].1.path), summary(&states[k].1.observed))),
            None => None,
        },
        grants: match find_registration(registry, id.as_str()) {
            Some(k) => Some(copy_permissions(&registry[k].grants)),
            None => None,
        },
    }
}

fn signature_of(states: &Vec<(String, WatchState)>, registry: &Vec<RegisteredSource>, ids: &Vec<String>) -> (r: Vec<SignatureEntry>)
    ensures
        signature_set(r@) == attempt_signature(entries_view(states@), registered_views(registry@), id_set(ids@)),
{
    let ghost s0 = entries_view(states@);
    let ghost reg = registered_views(registry@);
    let mut out: Vec<SignatureEntry> = Vec::new();
    let mut i: usize = 0;
    while i < ids.len()
        invariant
            i <= ids@.len(),
            s0 == entries_view(states@),
            reg == registered_views(registry@),
            out@.len() == i,
            forall|j: int| 0 <= j < i ==> (#[trigger] out@[j])@ == signature_entry(s0, reg, ids@[j]@),
        decreases ids@.len() - i,
    {
        out.push(entry_of(states, registry, &ids[i]));
        i = i + 1;
    }
    proof {
        let target = attempt_signature(s0, reg, id_set(ids@));
        let got = signature_set(out@);
        assert forall|e: SignatureView| got.contains(e) implies target.contains(e) by {
            let m = out@.map_values(|x: SignatureEntry| x@);
            assert(m.contains(e));
            let j = choose|j: int| 0 <= j < m.len() && m[j] == e;
            assert(out@[j]@ == e);
            assert(id_set(ids@).contains(ids@[j]@)) by {
                assert(ids@.map_values(|x: String| x@)[j] == ids@[j]@);
            }
        }
        assert forall|e: SignatureView| target.contains(e) implies got.contains(e) by {
            let w = ids@.map_values(|x: String| x@);
            assert(w.contains(e.id));
            let j = choose|j: int| 0 <= j < w.len() && w[j] == e.id;
            assert(out@[j]@ == e);
            assert(out@.map_values(|x: SignatureEntry| x@)[j] == e);
        }
        assert(got =~= target);
    }
    out
}

fn same_summary(a: &Summary, b: &Summary) -> (r: bool)
    ensures
        r == (a@ == b@),
{
    match (a, b) {
        (Summary::Fingerprint(x), Summary::Fingerprint(y)) => str_equal(x.as_str(), y.as_str()),
        (Summary::Message(x), Summary::Message(y)) => str_equal(x.as_str(), y.as_str()),
        (Summary::Nothing, Summary::Nothing) => true,
        _ => false,
    }
}

fn same_entry(a: &SignatureEntry, b: &SignatureEntry) -> (r: bool)
    ensures
        r == (a@ == b@),
{
    let watched = match (&a.watched, &b.watched) {
        (Some(x), Some(y)) => str_equal(x.0.as_str(), y.0.as_str()) && same_summary(&x.1, &y.1),
        (None, None) => true,
        _ => false,
    };
    let grants = match (&a.grants, &b.grants) {
        (Some(x), Some(y)) => permissions_equal(x, y),
        (None, None) => true,
        _ => false,
    };
    str_equal(a.id.as_str(), b.id.as_str()) && watched && grants
}

fn all_within(a: &Vec<SignatureEntry>, b: &Vec<SignatureEntry>) -> (r: bool)
    ensures
        r == signature_set(a@).subset_of(signature_set(b@)),
{
    let mut i: usize = 0;
    while i < a.len()
        invariant
            i <= a@.len(),
            forall|j: int| 0 <= j < i ==> signature_set(b@).contains(#[trigger] a@[j]@),
        decreases a@.len() - i,
    {
        let mut found = false;
        let mut k: usize = 0;
        while k < b.len()
            invariant
                i < a@.len(),
                k <= b@.len(),
                found ==> signature_set(b@).contains(a@[i as int]@),
                !found ==> forall|j: int| 0 <= j < k ==> b@[j]@ != a@[i as int]@,
            decreases b@.len() - k,
        {
            if same_entry(&b[k], &a[i]) {
                proof {
                    assert(b@.map_values(|x: SignatureEntry| x@)[k as int] == a@[i as int]@);
                }
                found = true;
            }
            k = k + 1;
        }
        if !found {
            proof {
                assert(!signature_set(b@).contains(a@[i as int]@)) by {
                    if signature_set(b@).contains(a@[i as int]@) {
                        let m = b@.map_values(|x: SignatureEntry| x@);
                        assert(m.contains(a@[i as int]@));
                        let j = choose|j: int| 0 <= j < m.len() && m[j] == a@[i as int]@;
                        assert(b@[j]@ == a@[i as int]@);
                    }
                }
                assert(a@.map_values(|x: SignatureEntry| x@)[i as int] == a@[i as int]@);
            }
            return false;
        }
        i = i + 1;
    }
    proof {
        assert forall|e: SignatureView| signature_set(a@).contains(e) implies signature_set(b@).contains(e) by {
            let m = a@.map_values(|x: SignatureEntry| x@);
            assert(m.contains(e));
            let j = choose|j: int| 0 <= j < m.len() && m[j] == e;
            assert(a@[j]@ == e);
        }
    }
    true
}

fn same_signature(a: &Vec<SignatureEntry>, b: &Vec<SignatureEntry>) -> (r: bool)
    ensures
        r == (signature_set(a@) == signature_set(b@)),
{
    let r = all_within(a, b) && all_within(b, a);
    proof {
        if r {
            assert(signature_set(a@) =~= signature_set(b@));
        }
    }
    r
}

/// The observation found the source's files readable.
pub open spec fn ready(o: Option<ObservationView>) -> bool {
    o matches Some(ObservationView::Ready { .. })
}

/// The source settled on readable content other than what the runtime loaded.
pub open spec fn reload_candidate(st: StateView, now: u64) -> bool {
    settled(st, now) && ready(st.observed) && st.observed != Some(st.installed)
}

/// An affected plugin holds a reload back: watching it is paused, or its
/// source has not settled on readable content.
pub open spec fn blocked(
    states: Seq<(Seq<char>, StateView)>,
    srcs: Seq<SourceView>,
    reg: Seq<RegisteredView>,
    a: Seq<char>,
    now: u64,
) -> bool {
    ||| match source_for(srcs, a) {
        Some(s) => registration_pause(s, reg) is Some,
        None => false,
    }
    ||| match lookup(states, a) {
        Some(st) => !settled(st, now) || !ready(st.observed),
        None => true,
    }
}

/// The state at `k` may be reloaded now: it is a candidate, nothing it affects
/// holds it back, and this exact attempt was not made before.
pub open spec fn may_reload(
    states: Seq<(Seq<char>, StateView)>,
    srcs: Seq<SourceView>,
    reg: Seq<RegisteredView>,
    ms: Seq<ManifestView>,
    k: int,
    now: u64,
) -> bool {
    let c = dependent_set(ms, states[k].0);
    &&& reload_candidate(states[k].1, now)
    &&& !(exists|a: Seq<char>| #![trigger c.contains(a)] c.contains(a) && blocked(states, srcs, reg, a, now))
    &&& states[k].1.last_attempted != Some(attempt_signature(states, reg, c))
}

/// Among the first `k` states, the one to reload: the largest affected group
/// wins, and of equal groups the first in name order.
pub open spec fn best_reload(
    states: Seq<(Seq<char>, StateView)>,
    srcs: Seq<SourceView>,
    reg: Seq<RegisteredView>,
    ms: Seq<ManifestView>,
    now: u64,
    k: nat,
) -> Option<int>
    decreases k,
{
    if k == 0 {
        None
    } else {
        let prev = best_reload(states, srcs, reg, ms, now, (k - 1) as nat);
        let i = k - 1;
        if may_reload(states, srcs, reg, ms, i, now) && match prev {
            None => true,
            Some(j) => dependent_set(ms, states[i].0).len() > dependent_set(ms, states[j].0).len(),
        } {
            Some(i)
        } else {
            prev
        }
    }
}

/// The states with the attempt recorded for every affected plugin: each
/// records the signature of its own affected group.
pub open spec fn marked(
    states: Seq<(Seq<char>, StateView)>,
    reg: Seq<RegisteredView>,
    ms: Seq<ManifestView>,
    affected: Set<Seq<char>>,
) -> Seq<(Seq<char>, StateView)> {
    Seq::new(
        states.len(),
        |i: int|
            if affected.contains(states[i].0) {
                (
                    states[i].0,
                    StateView { last_attempted: Some(attempt_signature(states, reg, dependent_set(ms, states[i].0))), ..states[i].1 },
                )
            } else {
                states[i]
            },
    )
}

fn is_ready(o: &Option<Observation>) -> (r: bool)
    ensures
        r == ready(opt_observation(*o)),
{
    match o {
        Some(Observation::Ready { .. }) => true,
        _ => false,
    }
}

fn is_candidate(st: &WatchState, now: u64) -> (r: bool)
    ensures
        r == reload_candidate(st@, now),
{
    st.settled(now) && match &st.observed {
        Some(o) => is_ready(&st.observed) && !same_observation(o, &st.installed),
        None => false,
    }
}

fn is_blocked(
    states: &Vec<(String, WatchState)>,
    sources: &Vec<LocalWatchSource>,
    registry: &Vec<RegisteredSource>,
    a: &str,
    now: u64,
) -> (r: bool)
    ensures
        r == blocked(entries_view(states@), source_views(sources@), registered_views(registry@), a@, now),
{
    let paused = match find_source(sources, a) {
        Some(j) => pause_of(&sources[j], registry).is_some(),
        None => false,
    };
    let unsettled = match find_state(states, a) {
        Some(k) => !states[k].1.settled(now) || !is_ready(&states[k].1.observed),
        None => true,
    };
    paused || unsettled
}

fn any_blocked(
    states: &Vec<(String, WatchState)>,
    sources: &Vec<LocalWatchSource>,
    registry: &Vec<RegisteredSource>,
    affected: &Vec<String>,
    now: u64,
) -> (r: bool)
    ensures
        r == exists|a: Seq<char>|
            #![trigger id_set(affected@).contains(a)]
            id_set(affected@).contains(a) && blocked(
                entries_view(states@),
                source_views(sources@),
                registered_views(registry@),
                a,
                now,
            ),
{
    let ghost s0 = entries_view(states@);
    let ghost srcs = source_views(sources@);
    let ghost reg = registered_views(registry@);
    let ghost w = affected@.map_values(|x: String| x@);
    let mut i: usize = 0;
    while i < affected.len()
        invariant
            i <= affected@.len(),
            s0 == entries_view(states@),
            srcs == source_views(sources@),
            reg == registered_views(registry@),
            w == affected@.map_values(|x: String| x@),
            forall|j: int| 0 <= j < i ==> !blocked(s0, srcs, reg, #[trigger] w[j], now),
        decreases affected@.len() - i,
    {
        if is_blocked(states, sources, registry, affected[i].as_str(), now) {
            proof {
                assert(w[i as int] == affected@[i as int]@);
                assert(id_set(affected@).contains(w[i as int]));
            }
            return true;
        }
        proof {
            assert(w[i as int] == affected@[i as int]@);
        }
        i = i + 1;
    }
    proof {
        assert forall|a: Seq<char>| id_set(affected@).contains(a) implies !blocked(s0, srcs, reg, a, now) by {
            let j = choose|j: int| 0 <= j < w.len() && w[j] == a;
            assert(!blocked(s0, srcs, reg, w[j], now));
        }
    }
    false
}

proof fn lemma_best_reload_bound(
    states: Seq<(Seq<char>, StateView)>,
    srcs: Seq<SourceView>,
    reg: Seq<RegisteredView>,
    ms: Seq<ManifestView>,
    now: u64,
    k: nat,
)
    ensures
        match best_reload(states, srcs, reg, ms, now, k) {
            Some(i) => 0 <= i < k && may_reload(states, srcs, reg, ms, i, now),
            None => true,
        },
    decreases k,
{
    if k > 0 {
        lemma_best_reload_bound(states, srcs, reg, ms, now, (k - 1) as nat);
    }
}

fn best_reload_index(
    states: &Vec<(String, WatchState)>,
    sources: &Vec<LocalWatchSource>,
    registry: &Vec<RegisteredSource>,
    plugins: &Vec<LoadedPlugin>,
    now: u64,
) -> (r: Option<(usize, Vec<String>)>)
    ensures
        match r {
            None => best_reload(
                entries_view(states@),
                source_views(sources@),
                registered_views(registry@),
                manifests(plugins@),
                now,
                states@.len() as nat,
            ) is None,
            Some((k, aff)) => best_reload(
                entries_view(states@),
                source_views(sources@),
                registered_views(registry@),
                manifests(plugins@),
                now,
                states@.len() as nat,
            ) == Some(k as int) && k < states@.len() && id_set(aff@) == dependent_set(manifests(plugins@), states@[k as int].0@),
        },
{
    let ghost s0 = entries_view(states@);
    let ghost srcs = source_views(sources@);
    let ghost reg = registered_views(registry@);
    let ghost ms = manifests(plugins@);
    let mut best: Option<(usize, Vec<String>)> = None;
    let mut i: usize = 0;
    while i < states.len()
        invariant
            i <= states@.len(),
            s0 == entries_view(states@),
            srcs == source_views(sources@),
            reg == registered_views(registry@),
            ms == manifests(plugins@),
            match best {
                None => best_reload(s0, srcs, reg, ms, now, i as nat) is None,
                Some((k, aff)) => best_reload(s0, srcs, reg, ms, now, i as nat) == Some(k as int) && k < i && id_set(aff@)
                    == dependent_set(ms, s0[k as int].0) && aff@.len() == dependent_set(ms, s0[k as int].0).len(),
            },
        decreases states@.len() - i,
    {
        proof {
            assert(s0[i as int] == (states@[i as int].0@, states@[i as int].1@));
        }
        if is_candidate(&states[i].1, now) {
            let affected = closure_of(plugins, states[i].0.as_str());
            if !any_blocked(states, sources, registry, &affected, now) {
                let signature = signature_of(states, registry, &affected);
                let repeated = match &states[i].1.last_attempted {
                    Some(previous) => same_signature(previous, &signature),
                    None => false,
                };
                if !repeated {
                    let larger = match &best {
                        None => true,
                        Some((_, current)) => affected.len() > current.len(),
                    };
                    if larger {
                        best = Some((i, affected));
                    }
                }
            }
        }
        i = i + 1;
    }
    best
}

fn mark_attempts(
    states: &Vec<(String, WatchState)>,
    registry: &Vec<RegisteredSource>,
    plugins: &Vec<LoadedPlugin>,
    affected: &Vec<String>,
) -> (r: Vec<(String, WatchState)>)
    ensures
        entries_view(r@) == marked(entries_view(states@), registered_views(registry@), manifests(plugins@), id_set(affected@)),
{
    let ghost s0 = entries_view(states@);
    let ghost reg = registered_views(registry@);
    let ghost ms = manifests(plugins@);
    let ghost target = marked(s0, reg, ms, id_set(affected@));
    let mut out: Vec<(String, WatchState)> = Vec::new();
    let mut i: usize = 0;
    while i < states.len()
        invariant
            i <= states@.len(),
            s0 == entries_view(states@),
            reg == registered_views(registry@),
            ms == manifests(plugins@),
            target == marked(s0, reg, ms, id_set(affected@)),
            entries_view(out@) == target.take(i as int),
        decreases states@.len() - i,
    {
        let id = copy_string(&states[i].0);
        let mut state = copy_state(&states[i].1);
        if contains_str(affected, id.as_str()) {
            let group = closure_of(plugins, id.as_str());
            state.last_attempted = Some(signature_of(states, registry, &group));
        }
        let ghost before = out@;
        out.push((id, state));
        i = i + 1;
        proof {
            assert(entries_view(out@) =~= entries_view(before).push(target[i - 1]));
            assert(entries_view(out@) =~= target.take(i as int));
        }
    }
    proof {
        assert(target.take(states@.len() as int) =~= target);
    }
    out
}

// ---------------------------------------------------------------------------
// The watcher

/// A registry read as the watcher sees it.
pub open spec fn registry_view(r: Result<Vec<RegisteredSource>, String>) -> Result<Seq<RegisteredView>, Seq<char>> {
    match r {
        Ok(v) => Ok(registered_views(v@)),
        Err(e) => Err(e@),
    }
}

/// A poll samples when some source is watched and the poll interval has passed.
pub open spec fn due(w: WatcherView, states: Seq<(Seq<char>, StateView)>, now: u64) -> bool {
    states.len() > 0 && !(w.next_poll matches Some(t) && now < t)
}

/// When the next sample may be taken.
pub open spec fn next_poll_after(now: u64) -> Option<u64> {
    if now + POLL_INTERVAL_MS <= u64::MAX {
        Some((now + POLL_INTERVAL_MS) as u64)
    } else {
        None
    }
}

/// The IDs a poll at `now` samples, in sampling order: none when the poll is
/// not due, else up to four watched sources in name order, continuing from
/// where the previous poll stopped and wrapping around.
pub open spec fn planned_ids(w: WatcherView, now: u64, srcs: Seq<SourceView>) -> Seq<Seq<char>> {
    let states = synced_states(w.states, srcs, now);
    if !due(w, states, now) {
        Seq::empty()
    } else {
        let n = states.len() as int;
        Seq::new(sample_count(n) as nat, |k: int| states[(w.cursor % n + k) % n].0)
    }
}

/// The watcher after a poll at `now`, and the plugin it asks to reload. The
/// loaded sources are taken in; when the poll is due the registry read is
/// looked at: a failure is recorded (and announced once it persists), while a
/// good read samples the planned sources with the fingerprints `fps` read for
/// them, announces settled pauses, and chooses at most one reload, recording
/// the attempt for every plugin it affects.
pub open spec fn poll_outcome(
    w: WatcherView,
    now: u64,
    srcs: Seq<SourceView>,
    registry: Result<Seq<RegisteredView>, Seq<char>>,
    fps: Seq<Seq<char>>,
) -> (WatcherView, Option<Seq<char>>) {
    let states = synced_states(w.states, srcs, now);
    if !due(w, states, now) {
        (WatcherView { states, ..w }, None)
    } else {
        let w2 = WatcherView { states, next_poll: next_poll_after(now), ..w };
        match registry {
            Err(message) => (registry_problem_observed(w2, message, now), None),
            Ok(reg) => {
                let n = states.len() as int;
                let start = w.cursor % n;
                let count = sample_count(n);
                let sampled = sampled_states(states, srcs, reg, fps, start, count as nat, now);
                let ann = announced(sampled, w.diagnostics, now);
                let w3 = WatcherView {
                    states: ann.0,
                    cursor: (start + count) % n,
                    problem: None,
                    diagnostics: ann.1,
                    ..w2
                };
                let ms = watched_manifests(ann.0, srcs);
                match best_reload(ann.0, srcs, reg, ms, now, n as nat) {
                    None => (w3, None),
                    Some(k) => (
                        WatcherView { states: marked(ann.0, reg, ms, dependent_set(ms, ann.0[k].0)), ..w3 },
                        Some(ann.0[k].0),
                    ),
                }
            },
        }
    }
}

impl PluginWatcher {
    /// A watcher of the sources registered in the registry at `registry_path`.
    pub fn new(registry_path: String) -> (w: Self)
        ensures
            w@ == (WatcherView {
                registry_path: registry_path@,
                states: Seq::empty(),
                next_poll: None,
                cursor: 0,
                problem: None,
                diagnostics: Seq::empty(),
            }),
    {
        let w = PluginWatcher {
            registry_path,
            states: Vec::new(),
            next_poll: None,
            cursor: 0,
            registry_problem: None,
            diagnostics: Vec::new(),
        };
        proof {
            assert(entries_view(w.states@) =~= Seq::<(Seq<char>, StateView)>::empty());
            assert(w.diagnostics@.map_values(|d: WatchDiagnostic| d@) =~= Seq::<DiagnosticView>::empty());
        }
        w
    }

    /// The registry this watcher reads.
    pub fn registry_path(&self) -> (r: &str)
        ensures
            r@ == self@.registry_path,
    {
        self.registry_path.as_str()
    }

    /// The diagnostics recorded since they were last taken, oldest first; the
    /// watcher keeps none afterwards.
    pub fn take_diagnostics(&mut self) -> (r: Vec<WatchDiagnostic>)
        ensures
            r@.map_values(|d: WatchDiagnostic| d@) == old(self)@.diagnostics,
            final(self)@ == (WatcherView { diagnostics: Seq::empty(), ..old(self)@ }),
    {
        let mut r: Vec<WatchDiagnostic> = Vec::new();
        std::mem::swap(&mut r, &mut self.diagnostics);
        proof {
            assert(self.diagnostics@.map_values(|d: WatchDiagnostic| d@) =~= Seq::<DiagnosticView>::empty());
        }
        r
    }

    /// The IDs whose source fingerprints the next `poll` at `now` needs, in
    /// the order it needs them.
    pub fn sample_plan(&self, now: u64, sources: &Vec<LocalWatchSource>) -> (ids: Vec<String>)
        ensures
            ids@.map_values(|s: String| s@) == planned_ids(self@, now, source_views(sources@)),
    {
        let states = synchronize_states(&self.states, sources, now);
        let n = states.len();
        let due = n > 0 && match self.next_poll {
            Some(t) => now >= t,
            None => true,
        };
        let ghost target = planned_ids(self@, now, source_views(sources@));
        let mut ids: Vec<String> = Vec::new();
        if !due {
            proof {
                assert(ids@.map_values(|s: String| s@) =~= target);
            }
            return ids;
        }
        let start = self.cursor % n;
        let count = if n < MAX_SOURCES_PER_POLL {
            n
        } else {
            MAX_SOURCES_PER_POLL
        };
        let mut step: usize = 0;
        while step < count
            invariant
                0 < n == states@.len(),
                start == self.cursor % n,
                count <= n,
                count == sample_count(n as int),
                step <= count,
                target.len() == count,
                forall|k: int| 0 <= k < count ==> #[trigger] target[k] == entries_view(states@)[((self.cursor as int) % (n as int) + k) % (n as int)].0,
                ids@.map_values(|s: String| s@) == target.take(step as int),
            decreases count - step,
        {
            let idx = if step < n - start {
                start + step
            } else {
                step - (n - start)
            };
            proof {
                let x = start + step;
                if step < n - start {
                    assert(x % (n as int) == x) by (nonlinear_arith)
                        requires
                            0 <= x < n,
                    ;
                } else {
                    assert(x % (n as int) == x - n) by (nonlinear_arith)
                        requires
                            n <= x < 2 * n,
                    ;
                }
                assert(target[step as int] == entries_view(states@)[idx as int].0);
            }
            let ghost before = ids@;
            ids.push(copy_string(&states[idx].0));
            step = step + 1;
            proof {
                assert(ids@.map_values(|s: String| s@) =~= before.map_values(|s: String| s@).push(target[step - 1]));
                assert(ids@.map_values(|s: String| s@) =~= target.take(step as int));
            }
        }
        proof {
            assert(target.take(count as int) =~= target);
        }
        ids
    }

    /// One turn of the owner loop, taken only when it is otherwise idle.
    /// `registry` is the registry read, and `fingerprints[k]` the fingerprint
    /// of the source directory of the `k`th ID of `sample_plan`; neither is
    /// looked at when the plan is empty. At most four sources are sampled, at
    /// most one reload is returned, and the attempt is recorded before it is.
    pub fn poll(
        &mut self,
        now: u64,
        sources: &Vec<LocalWatchSource>,
        registry: Result<Vec<RegisteredSource>, String>,
        fingerprints: &Vec<String>,
    ) -> (r: Option<PluginControlRequest>)
        requires
            fingerprints@.len() >= planned_ids(old(self)@, now, source_views(sources@)).len(),
        ensures
            final(self)@ == poll_outcome(
                old(self)@,
                now,
                source_views(sources@),
                registry_view(registry),
                fingerprints@.map_values(|f: String| f@),
            ).0,
            match r {
                Some(q) => poll_outcome(
                    old(self)@,
                    now,
                    source_views(sources@),
                    registry_view(registry),
                    fingerprints@.map_values(|f: String| f@),
                ).1 == Some(q.plugin_id@) && q.action == PluginControlAction::Reload && q.permission is None && !q.cascade
                    && q.local_import is None && q.remove_source is None,
                None => poll_outcome(
                    old(self)@,
                    now,
                    source_views(sources@),
                    registry_view(registry),
                    fingerprints@.map_values(|f: String| f@),
                ).1 is None,
            },
    {
        let ghost w0 = self@;
        let ghost srcs = source_views(sources@);
        let ghost fps = fingerprints@.map_values(|f: String| f@);
        let states = synchronize_states(&self.states, sources, now);
        self.states = states;
        let n = self.states.len();
        let due = n > 0 && match self.next_poll {
            Some(t) => now >= t,
            None => true,
        };
        if !due {
            return None;
        }
        self.next_poll = now.checked_add(POLL_INTERVAL_MS);
        let registry = match registry {
            Ok(registry) => registry,
            Err(message) => {
                self.observe_registry_problem(message, now);
                return None;
            },
        };
        self.registry_problem = None;
        let start = self.cursor % n;
        let count = if n < MAX_SOURCES_PER_POLL {
            n
        } else {
            MAX_SOURCES_PER_POLL
        };
        proof {
            assert(planned_ids(w0, now, srcs).len() == count);
        }
        sample_sources(&mut self.states, sources, &registry, fingerprints, start, count, now);
        proof {
            lemma_sampled_len(
                synced_states(w0.states, srcs, now),
                srcs,
                registered_views(registry@),
                fps,
                start as int,
                count as nat,
                now,
            );
        }
        self.cursor = if count < n - start {
            start + count
        } else {
            count - (n - start)
        };
        proof {
            let x = start + count;
            if count < n - start {
                assert(x % (n as int) == x) by (nonlinear_arith)
                    requires
                        0 <= x < n,
                ;
            } else {
                assert(x % (n as int) == x - n) by (nonlinear_arith)
                    requires
                        n <= x < 2 * n,
                ;
            }
        }
        self.announce(now);
        proof {
            lemma_announced_len(
                sampled_states(synced_states(w0.states, srcs, now), srcs, registered_views(registry@), fps, start as int, count as nat, now),
                w0.diagnostics,
                now,
            );
        }
        let plugins = watched_plugins(&self.states, sources);
        match best_reload_index(&self.states, sources, &registry, &plugins, now) {
            None => None,
            Some((k, affected)) => {
                let id = copy_string(&self.states[k].0);
                let states = mark_attempts(&self.states, &registry, &plugins, &affected);
                self.states = states;
                Some(
                    PluginControlRequest {
                        action: PluginControlAction::Reload,
                        plugin_id: id,
                        permission: None,
                        cascade: false,
                        local_import: None,
                        remove_source: None,
                    },
                )
            },
        }
    }
}

// ---------------------------------------------------------------------------
// Laws

/// Two state lists with the same keys, directories and observations.
pub open spec fn same_observations(a: Seq<(Seq<char>, StateView)>, b: Seq<(Seq<char>, StateView)>) -> bool {
    &&& a.len() == b.len()
    &&& forall|i: int|
        0 <= i < a.len() ==> (#[trigger] a[i]).0 == b[i].0 && a[i].1.path == b[i].1.path && a[i].1.observed == b[i].1.observed
            && a[i].1.installed == b[i].1.installed && a[i].1.observed_since == b[i].1.observed_since
            && a[i].1.stable_samples == b[i].1.stable_samples
}

proof fn lemma_lookup_parallel(a: Seq<(Seq<char>, StateView)>, b: Seq<(Seq<char>, StateView)>, id: Seq<char>)
    requires
        same_observations(a, b),
    ensures
        lookup(a, id) is Some <==> lookup(b, id) is Some,
        lookup(a, id) is Some ==> {
            let x = lookup(a, id)->0;
            let y = lookup(b, id)->0;
            x.path == y.path && x.observed == y.observed && x.installed == y.installed && x.observed_since
                == y.observed_since && x.stable_samples == y.stable_samples
        },
    decreases a.len(),
{
    if a.len() > 0 {
        assert(a[0].0 == b[0].0);
        if a[0].0 != id {
            assert(same_observations(a.drop_first(), b.drop_first())) by {
                assert forall|i: int| 0 <= i < a.drop_first().len() implies (#[trigger] a.drop_first()[i]).0
                    == b.drop_first()[i].0 && a.drop_first()[i].1.path == b.drop_first()[i].1.path
                    && a.drop_first()[i].1.observed == b.drop_first()[i].1.observed
                    && a.drop_first()[i].1.installed == b.drop_first()[i].1.installed
                    && a.drop_first()[i].1.observed_since == b.drop_first()[i].1.observed_since
                    && a.drop_first()[i].1.stable_samples == b.drop_first()[i].1.stable_samples by {
                    assert(a.drop_first()[i] == a[i + 1]);
                    assert(b.drop_first()[i] == b[i + 1]);
                }
            }
            lemma_lookup_parallel(a.drop_first(), b.drop_first(), id);
        }
    }
}

proof fn lemma_dependent_set_exists(ms: Seq<ManifestView>, root: Seq<char>)
    ensures
        is_dependent_closure(ms, root, dependent_set(ms, root)),
{
    let meet = Set::new(
        |x: Seq<char>| forall|t: Set<Seq<char>>| #[trigger] closed_under_dependents(ms, t) && t.contains(root) ==> t.contains(x),
    );
    assert forall|i: int| 0 <= i < ms.len() && #[trigger] depends_on(ms, meet, ms[i]) implies meet.contains(ms[i].id) by {
        assert forall|t: Set<Seq<char>>| #[trigger] closed_under_dependents(ms, t) && t.contains(root) implies t.contains(ms[i].id) by {
            assert(meet.subset_of(t));
            crate::plugin_lifecycle::lemma_depends_monotone(ms, meet, t, ms[i]);
        }
    }
    assert(is_dependent_closure(ms, root, meet));
}

proof fn lemma_watched_parallel(a: Seq<(Seq<char>, StateView)>, b: Seq<(Seq<char>, StateView)>, srcs: Seq<SourceView>)
    requires
        same_observations(a, b),
    ensures
        watched_manifests(a, srcs) == watched_manifests(b, srcs),
    decreases a.len(),
{
    if a.len() > 0 {
        assert(same_observations(a.drop_last(), b.drop_last())) by {
            assert forall|i: int| 0 <= i < a.drop_last().len() implies (#[trigger] a.drop_last()[i]).0
                == b.drop_last()[i].0 && a.drop_last()[i].1.path == b.drop_last()[i].1.path
                && a.drop_last()[i].1.observed == b.drop_last()[i].1.observed
                && a.drop_last()[i].1.installed == b.drop_last()[i].1.installed
                && a.drop_last()[i].1.observed_since == b.drop_last()[i].1.observed_since
                && a.drop_last()[i].1.stable_samples == b.drop_last()[i].1.stable_samples by {
                assert(a.drop_last()[i] == a[i]);
                assert(b.drop_last()[i] == b[i]);
            }
        }
        lemma_watched_parallel(a.drop_last(), b.drop_last(), srcs);
        assert(a.last().0 == b.last().0);
    }
}

proof fn lemma_signature_parallel(
    a: Seq<(Seq<char>, StateView)>,
    b: Seq<(Seq<char>, StateView)>,
    reg: Seq<RegisteredView>,
    ids: Set<Seq<char>>,
)
    requires
        same_observations(a, b),
    ensures
        attempt_signature(a, reg, ids) == attempt_signature(b, reg, ids),
{
    assert forall|e: SignatureView| #[trigger] attempt_signature(a, reg, ids).contains(e) == attempt_signature(b, reg, ids).contains(e) by {
        lemma_lookup_parallel(a, b, e.id);
        assert(signature_entry(a, reg, e.id) == signature_entry(b, reg, e.id));
    }
    assert(attempt_signature(a, reg, ids) =~= attempt_signature(b, reg, ids));
}

proof fn lemma_marked_parallel(
    states: Seq<(Seq<char>, StateView)>,
    reg: Seq<RegisteredView>,
    ms: Seq<ManifestView>,
    affected: Set<Seq<char>>,
)
    ensures
        same_observations(states, marked(states, reg, ms, affected)),
{
}

/// The best reload among the first `k` states is one that may be reloaded,
/// and no other that may be reloaded affects a larger group or an equal group
/// coming earlier in name order.
pub proof fn law_largest_group_is_reloaded_first(
    states: Seq<(Seq<char>, StateView)>,
    srcs: Seq<SourceView>,
    reg: Seq<RegisteredView>,
    ms: Seq<ManifestView>,
    now: u64,
    k: nat,
)
    ensures
        match best_reload(states, srcs, reg, ms, now, k) {
            Some(b) => 0 <= b < k && may_reload(states, srcs, reg, ms, b, now) && forall|j: int|
                0 <= j < k && #[trigger] may_reload(states, srcs, reg, ms, j, now) ==> dependent_set(ms, states[j].0).len()
                    < dependent_set(ms, states[b].0).len() || (dependent_set(ms, states[j].0).len() == dependent_set(
                    ms,
                    states[b].0,
                ).len() && b <= j),
            None => forall|j: int| 0 <= j < k ==> !#[trigger] may_reload(states, srcs, reg, ms, j, now),
        },
    decreases k,
{
    if k > 0 {
        law_largest_group_is_reloaded_first(states, srcs, reg, ms, now, (k - 1) as nat);
    }
}

/// A poll samples at most four sources, and only watched ones.
pub proof fn law_poll_sampling_is_bounded(w: WatcherView, now: u64, srcs: Seq<SourceView>)
    ensures
        planned_ids(w, now, srcs).len() <= MAX_SOURCES_PER_POLL,
        forall|k: int| 0 <= k < planned_ids(w, now, srcs).len() ==> #[trigger] source_for(srcs, planned_ids(w, now, srcs)[k]) is Some,
{
    let states = synced_states(w.states, srcs, now);
    lemma_synced_keys(w.states, srcs, now);
    if due(w, states, now) {
        let n = states.len() as int;
        assert forall|k: int| 0 <= k < planned_ids(w, now, srcs).len() implies #[trigger] source_for(srcs, planned_ids(w, now, srcs)[k]) is Some by {
            let i = (w.cursor % n + k) % n;
            assert(0 <= i < n) by (nonlinear_arith)
                requires
                    n > 0,
                    i == (w.cursor % n + k) % n,
            ;
            assert(planned_ids(w, now, srcs)[k] == states[i].0);
        }
    }
}

proof fn lemma_upsert_keys(s: Seq<(Seq<char>, StateView)>, id: Seq<char>, v: StateView, key: Seq<char>)
    ensures
        (exists|i: int| 0 <= i < upsert(s, id, v).len() && #[trigger] upsert(s, id, v)[i].0 == key) ==> (key == id || exists|
            j: int,
        | 0 <= j < s.len() && #[trigger] s[j].0 == key),
    decreases s.len(),
{
    if s.len() > 0 && name_before(s[0].0, id) {
        lemma_upsert_keys(s.drop_first(), id, v, key);
        let u = upsert(s, id, v);
        if exists|i: int| 0 <= i < u.len() && #[trigger] u[i].0 == key {
            let i = choose|i: int| 0 <= i < u.len() && #[trigger] u[i].0 == key;
            if i == 0 {
                assert(s[0].0 == key);
            } else {
                assert(upsert(s.drop_first(), id, v)[i - 1].0 == key);
                if key != id {
                    let j = choose|j: int| 0 <= j < s.drop_first().len() && #[trigger] s.drop_first()[j].0 == key;
                    assert(s[j + 1].0 == key);
                }
            }
        }
    } else if s.len() > 0 && s[0].0 == id {
        let u = upsert(s, id, v);
        if exists|i: int| 0 <= i < u.len() && #[trigger] u[i].0 == key {
            let i = choose|i: int| 0 <= i < u.len() && #[trigger] u[i].0 == key;
            if i != 0 {
                assert(s[i].0 == key);
            }
        }
    } else {
        let u = upsert(s, id, v);
        if exists|i: int| 0 <= i < u.len() && #[trigger] u[i].0 == key {
            let i = choose|i: int| 0 <= i < u.len() && #[trigger] u[i].0 == key;
            if i != 0 {
                assert(s[i - 1].0 == key);
            }
        }
    }
}

proof fn lemma_synced_keys(old: Seq<(Seq<char>, StateView)>, srcs: Seq<SourceView>, now: u64)
    ensures
        forall|i: int|
            0 <= i < synced_states(old, srcs, now).len() ==> #[trigger] source_for(srcs, synced_states(old, srcs, now)[i].0) is Some,
    decreases srcs.len(),
{
    if srcs.len() > 0 {
        lemma_synced_keys(old, srcs.drop_last(), now);
        let acc = synced_states(old, srcs.drop_last(), now);
        let s = srcs.last();
        let st = synced_states(old, srcs, now);
        assert forall|i: int| 0 <= i < st.len() implies #[trigger] source_for(srcs, st[i].0) is Some by {
            let key = st[i].0;
            if watchable(s) {
                let v = match lookup(old, s.manifest.id) {
                    Some(x) => synchronized(x, s, now),
                    None => fresh_state(s, now),
                };
                lemma_upsert_keys(acc, s.manifest.id, v, key);
                assert(st[i].0 == key);
                if key != s.manifest.id {
                    let j = choose|j: int| 0 <= j < acc.len() && #[trigger] acc[j].0 == key;
                    assert(source_for(srcs.drop_last(), acc[j].0) is Some);
                }
            } else {
                assert(source_for(srcs.drop_last(), acc[i].0) is Some);
            }
        }
    }
}

/// Some state is kept under `key`.
pub open spec fn tracks(states: Seq<(Seq<char>, StateView)>, key: Seq<char>) -> bool {
    exists|i: int| 0 <= i < states.len() && #[trigger] states[i].0 == key
}

proof fn lemma_upsert_tracks(s: Seq<(Seq<char>, StateView)>, id: Seq<char>, v: StateView, key: Seq<char>)
    requires
        key == id || tracks(s, key),
    ensures
        tracks(upsert(s, id, v), key),
    decreases s.len(),
{
    let u = upsert(s, id, v);
    if s.len() == 0 {
        assert(u[0].0 == id);
    } else if name_before(s[0].0, id) {
        if key == s[0].0 {
            assert(u[0].0 == key);
        } else {
            if key != id {
                let j = choose|j: int| 0 <= j < s.len() && #[trigger] s[j].0 == key;
                assert(s.drop_first()[j - 1].0 == key);
            }
            lemma_upsert_tracks(s.drop_first(), id, v, key);
            let i = choose|i: int| 0 <= i < upsert(s.drop_first(), id, v).len() && #[trigger] upsert(s.drop_first(), id, v)[i].0 == key;
            assert(u[i + 1].0 == key);
        }
    } else if s[0].0 == id {
        if key == id {
            assert(u[0].0 == key);
        } else {
            let j = choose|j: int| 0 <= j < s.len() && #[trigger] s[j].0 == key;
            assert(u[j].0 == key);
        }
    } else {
        if key == id {
            assert(u[0].0 == key);
        } else {
            let j = choose|j: int| 0 <= j < s.len() && #[trigger] s[j].0 == key;
            assert(u[j + 1].0 == key);
        }
    }
}

proof fn lemma_synced_covers(old: Seq<(Seq<char>, StateView)>, srcs: Seq<SourceView>, now: u64)
    ensures
        forall|j: int|
            0 <= j < srcs.len() && watchable(#[trigger] srcs[j]) ==> tracks(synced_states(old, srcs, now), srcs[j].manifest.id),
    decreases srcs.len(),
{
    if srcs.len() > 0 {
        let front = srcs.drop_last();
        lemma_synced_covers(old, front, now);
        let acc = synced_states(old, front, now);
        let s = srcs.last();
        assert forall|j: int| 0 <= j < srcs.len() && watchable(#[trigger] srcs[j]) implies tracks(
            synced_states(old, srcs, now),
            srcs[j].manifest.id,
        ) by {
            let key = srcs[j].manifest.id;
            if j < srcs.len() - 1 {
                assert(front[j] == srcs[j]);
                assert(tracks(acc, key));
            }
            if watchable(s) {
                let v = match lookup(old, s.manifest.id) {
                    Some(x) => synchronized(x, s, now),
                    None => fresh_state(s, now),
                };
                lemma_upsert_tracks(acc, s.manifest.id, v, key);
            }
        }
    }
}

/// What a poll does with the loaded sources it is given. A poll that is not
/// due reads nothing: it asks for no reload and leaves the schedule, the
/// registry problem and the diagnostics as they were. Any poll afterwards
/// tracks exactly the watched sources given (one listed only in the registry is
/// never adopted), and a reload it asks for is of one of them.
pub proof fn law_poll_follows_the_given_sources(
    w: WatcherView,
    now: u64,
    srcs: Seq<SourceView>,
    registry: Result<Seq<RegisteredView>, Seq<char>>,
    fps: Seq<Seq<char>>,
)
    ensures
        ({
            let out = poll_outcome(w, now, srcs, registry, fps);
            &&& !due(w, synced_states(w.states, srcs, now), now) ==> out.1 is None && out.0.next_poll == w.next_poll
                && out.0.problem == w.problem && out.0.diagnostics == w.diagnostics && out.0.cursor == w.cursor
            &&& forall|i: int| 0 <= i < out.0.states.len() ==> #[trigger] source_for(srcs, out.0.states[i].0) is Some
            &&& forall|j: int| 0 <= j < srcs.len() && watchable(#[trigger] srcs[j]) ==> tracks(out.0.states, srcs[j].manifest.id)
            &&& out.1 matches Some(id) ==> source_for(srcs, id) is Some
        }),
{
    let states = synced_states(w.states, srcs, now);
    let out = poll_outcome(w, now, srcs, registry, fps);
    lemma_synced_keys(w.states, srcs, now);
    lemma_synced_covers(w.states, srcs, now);
    if due(w, states, now) {
        match registry {
            Err(message) => {},
            Ok(reg) => {
                let n = states.len() as int;
                let start = w.cursor % n;
                let count = sample_count(n);
                let sampled = sampled_states(states, srcs, reg, fps, start, count as nat, now);
                lemma_sampled_len(states, srcs, reg, fps, start, count as nat, now);
                let ann = announced(sampled, w.diagnostics, now);
                lemma_announced_len(sampled, w.diagnostics, now);
                let ms = watched_manifests(ann.0, srcs);
                lemma_best_reload_bound(ann.0, srcs, reg, ms, now, n as nat);
                let fin = out.0.states;
                assert(fin.len() == n);
                assert forall|i: int| 0 <= i < n implies #[trigger] fin[i].0 == states[i].0 by {
                    assert(ann.0[i].0 == sampled[i].0);
                    assert(sampled[i].0 == states[i].0);
                    match best_reload(ann.0, srcs, reg, ms, now, n as nat) {
                        None => {},
                        Some(k) => {
                            lemma_marked_parallel(ann.0, reg, ms, dependent_set(ms, ann.0[k].0));
                        },
                    }
                }
                assert forall|i: int| 0 <= i < fin.len() implies #[trigger] source_for(srcs, fin[i].0) is Some by {
                    assert(fin[i].0 == states[i].0);
                }
                assert forall|j: int| 0 <= j < srcs.len() && watchable(#[trigger] srcs[j]) implies tracks(
                    fin,
                    srcs[j].manifest.id,
                ) by {
                    let key = srcs[j].manifest.id;
                    assert(tracks(states, key));
                    let i = choose|i: int| 0 <= i < states.len() && #[trigger] states[i].0 == key;
                    assert(fin[i].0 == states[i].0);
                }
                match best_reload(ann.0, srcs, reg, ms, now, n as nat) {
                    None => {},
                    Some(k) => {
                        assert(ann.0[k as int].0 == states[k as int].0);
                    },
                }
            },
        }
    }
}

proof fn lemma_pushed_bounded(ds: Seq<DiagnosticView>, d: DiagnosticView)
    requires
        ds.len() <= MAX_DIAGNOSTICS,
    ensures
        pushed_diagnostic(ds, d).len() <= MAX_DIAGNOSTICS,
{
}

proof fn lemma_announced_bounded(states: Seq<(Seq<char>, StateView)>, ds: Seq<DiagnosticView>, now: u64)
    requires
        ds.len() <= MAX_DIAGNOSTICS,
    ensures
        announced(states, ds, now).1.len() <= MAX_DIAGNOSTICS,
    decreases states.len(),
{
    if states.len() > 0 {
        lemma_announced_bounded(states.drop_last(), ds, now);
        let front = announced(states.drop_last(), ds, now);
        match states.last().1.observed {
            Some(ObservationView::Paused { code, message }) => {
                lemma_pushed_bounded(front.1, DiagnosticView { plugin_id: states.last().0, code, message });
            },
            _ => {},
        }
    }
}

/// Polling never lets more than the most diagnostics accumulate.
pub proof fn law_diagnostics_stay_bounded(
    w: WatcherView,
    now: u64,
    srcs: Seq<SourceView>,
    registry: Result<Seq<RegisteredView>, Seq<char>>,
    fps: Seq<Seq<char>>,
)
    requires
        w.diagnostics.len() <= MAX_DIAGNOSTICS,
    ensures
        poll_outcome(w, now, srcs, registry, fps).0.diagnostics.len() <= MAX_DIAGNOSTICS,
{
    let states = synced_states(w.states, srcs, now);
    if due(w, states, now) {
        match registry {
            Err(message) => {
                let w2 = WatcherView { states, next_poll: next_poll_after(now), ..w };
                let p = match w2.problem {
                    Some(q) => if q.message == message {
                        ProblemView { samples: sat_inc(q.samples), ..q }
                    } else {
                        ProblemView { message, since: now, samples: 1, announced: false }
                    },
                    None => ProblemView { message, since: now, samples: 1, announced: false },
                };
                lemma_pushed_bounded(
                    w2.diagnostics,
                    DiagnosticView {
                        plugin_id: Seq::empty(),
                        code: "watch_registry_unavailable"@,
                        message: "File watching is paused until the plugin registry can be read: "@ + p.message,
                    },
                );
            },
            Ok(reg) => {
                let n = states.len() as int;
                let sampled = sampled_states(states, srcs, reg, fps, w.cursor % n, sample_count(n) as nat, now);
                lemma_announced_bounded(sampled, w.diagnostics, now);
            },
        }
    }
}

/// No two pending diagnostics are for the same plugin and code.
pub open spec fn one_per_plugin_and_code(ds: Seq<DiagnosticView>) -> bool {
    forall|i: int, j: int|
        0 <= i < j < ds.len() ==> !(#[trigger] ds[i].plugin_id == #[trigger] ds[j].plugin_id && ds[i].code == ds[j].code)
}

proof fn lemma_pushed_distinct(ds: Seq<DiagnosticView>, d: DiagnosticView)
    requires
        one_per_plugin_and_code(ds),
    ensures
        one_per_plugin_and_code(pushed_diagnostic(ds, d)),
{
    let r = pushed_diagnostic(ds, d);
    if exists|i: int| 0 <= i < ds.len() && ds[i].plugin_id == d.plugin_id && ds[i].code == d.code {
        let k = choose|i: int|
            0 <= i < ds.len() && ds[i].plugin_id == d.plugin_id && ds[i].code == d.code && forall|j: int|
                0 <= j < i ==> !(ds[j].plugin_id == d.plugin_id && ds[j].code == d.code);
        if !(0 <= k < ds.len() && ds[k].plugin_id == d.plugin_id && ds[k].code == d.code) {
            let i0 = choose|i: int| 0 <= i < ds.len() && ds[i].plugin_id == d.plugin_id && ds[i].code == d.code;
            lemma_first_match(ds, d, i0);
        }
        assert forall|i: int, j: int| 0 <= i < j < r.len() implies !(#[trigger] r[i].plugin_id == #[trigger] r[j].plugin_id
            && r[i].code == r[j].code) by {
            if i == k {
                assert(r[j] == ds[j]);
            } else if j == k {
                assert(r[i] == ds[i]);
            } else {
                assert(r[i] == ds[i] && r[j] == ds[j]);
            }
        }
    } else if ds.len() >= MAX_DIAGNOSTICS {
        let t = ds.drop_first();
        assert forall|i: int, j: int| 0 <= i < j < r.len() implies !(#[trigger] r[i].plugin_id == #[trigger] r[j].plugin_id
            && r[i].code == r[j].code) by {
            if j == r.len() - 1 {
                assert(r[i] == ds[i + 1]);
            } else {
                assert(r[i] == ds[i + 1] && r[j] == ds[j + 1]);
            }
        }
    } else {
        assert forall|i: int, j: int| 0 <= i < j < r.len() implies !(#[trigger] r[i].plugin_id == #[trigger] r[j].plugin_id
            && r[i].code == r[j].code) by {
            if j == r.len() - 1 {
                assert(r[i] == ds[i]);
            } else {
                assert(r[i] == ds[i] && r[j] == ds[j]);
            }
        }
    }
}

proof fn lemma_first_match(ds: Seq<DiagnosticView>, d: DiagnosticView, i0: int)
    requires
        0 <= i0 < ds.len(),
        ds[i0].plugin_id == d.plugin_id && ds[i0].code == d.code,
    ensures
        exists|i: int|
            0 <= i < ds.len() && ds[i].plugin_id == d.plugin_id && ds[i].code == d.code && forall|j: int|
                0 <= j < i ==> !(ds[j].plugin_id == d.plugin_id && ds[j].code == d.code),
    decreases i0,
{
    if exists|j: int| 0 <= j < i0 && ds[j].plugin_id == d.plugin_id && ds[j].code == d.code {
        let j = choose|j: int| 0 <= j < i0 && ds[j].plugin_id == d.plugin_id && ds[j].code == d.code;
        lemma_first_match(ds, d, j);
    }
}

proof fn lemma_announced_distinct(states: Seq<(Seq<char>, StateView)>, ds: Seq<DiagnosticView>, now: u64)
    requires
        one_per_plugin_and_code(ds),
    ensures
        one_per_plugin_and_code(announced(states, ds, now).1),
    decreases states.len(),
{
    if states.len() > 0 {
        lemma_announced_distinct(states.drop_last(), ds, now);
        let front = announced(states.drop_last(), ds, now);
        match states.last().1.observed {
            Some(ObservationView::Paused { code, message }) => {
                lemma_pushed_distinct(front.1, DiagnosticView { plugin_id: states.last().0, code, message });
            },
            _ => {},
        }
    }
}

/// Polling keeps at most one pending diagnostic for each plugin and code: a
/// repeated diagnostic replaces the pending one instead of adding another.
pub proof fn law_one_pending_diagnostic_per_plugin_and_code(
    w: WatcherView,
    now: u64,
    srcs: Seq<SourceView>,
    registry: Result<Seq<RegisteredView>, Seq<char>>,
    fps: Seq<Seq<char>>,
)
    requires
        one_per_plugin_and_code(w.diagnostics),
    ensures
        one_per_plugin_and_code(poll_outcome(w, now, srcs, registry, fps).0.diagnostics),
{
    let states = synced_states(w.states, srcs, now);
    if due(w, states, now) {
        match registry {
            Err(message) => {
                let w2 = WatcherView { states, next_poll: next_poll_after(now), ..w };
                let p = match w2.problem {
                    Some(q) => if q.message == message {
                        ProblemView { samples: sat_inc(q.samples), ..q }
                    } else {
                        ProblemView { message, since: now, samples: 1, announced: false }
                    },
                    None => ProblemView { message, since: now, samples: 1, announced: false },
                };
                lemma_pushed_distinct(
                    w2.diagnostics,
                    DiagnosticView {
                        plugin_id: Seq::empty(),
                        code: "watch_registry_unavailable"@,
                        message: "File watching is paused until the plugin registry can be read: "@ + p.message,
                    },
                );
            },
            Ok(reg) => {
                let n = states.len() as int;
                let sampled = sampled_states(states, srcs, reg, fps, w.cursor % n, sample_count(n) as nat, now);
                lemma_announced_distinct(sampled, w.diagnostics, now);
            },
        }
    }
}

/// A reload is asked only for a watched source that settled on readable
/// content other than what the runtime loaded, whose affected plugins are all
/// settled and unpaused; the attempt is recorded with it, so the same content
/// is not asked for again.
pub proof fn law_reload_is_a_settled_change_recorded_once(
    w: WatcherView,
    now: u64,
    srcs: Seq<SourceView>,
    registry: Result<Seq<RegisteredView>, Seq<char>>,
    fps: Seq<Seq<char>>,
    id: Seq<char>,
)
    requires
        poll_outcome(w, now, srcs, registry, fps).1 == Some(id),
    ensures
        registry is Ok,
        ({
            let after = poll_outcome(w, now, srcs, registry, fps).0.states;
            let reg = registry->Ok_0;
            let c = dependent_set(watched_manifests(after, srcs), id);
            exists|k: int|
                0 <= k < after.len() && #[trigger] after[k].0 == id && reload_candidate(after[k].1, now)
                    && after[k].1.last_attempted == Some(attempt_signature(after, reg, c)) && !(exists|a: Seq<char>|
                    #![trigger c.contains(a)]
                    c.contains(a) && blocked(after, srcs, reg, a, now))
        }),
{
    let states = synced_states(w.states, srcs, now);
    let reg = registry->Ok_0;
    let n = states.len() as int;
    let start = w.cursor % n;
    let count = sample_count(n);
    let sampled = sampled_states(states, srcs, reg, fps, start, count as nat, now);
    let ann = announced(sampled, w.diagnostics, now);
    let ms = watched_manifests(ann.0, srcs);
    lemma_sampled_len(states, srcs, reg, fps, start, count as nat, now);
    lemma_announced_len(sampled, w.diagnostics, now);
    lemma_best_reload_bound(ann.0, srcs, reg, ms, now, n as nat);
    let k = best_reload(ann.0, srcs, reg, ms, now, n as nat)->0;
    let c = dependent_set(ms, id);
    let after = marked(ann.0, reg, ms, c);
    assert(after == poll_outcome(w, now, srcs, registry, fps).0.states);
    lemma_marked_parallel(ann.0, reg, ms, c);
    lemma_watched_parallel(ann.0, after, srcs);
    lemma_signature_parallel(ann.0, after, reg, c);
    assert(ann.0[k].0 == id);
    assert(c.contains(id)) by {
        lemma_dependent_set_exists(ms, id);
    }
    assert forall|a: Seq<char>| #![trigger c.contains(a)] c.contains(a) implies !blocked(after, srcs, reg, a, now) by {
        lemma_lookup_parallel(ann.0, after, a);
        assert(!blocked(ann.0, srcs, reg, a, now));
    }
    assert(after[k].0 == id);
}

} // verus!
