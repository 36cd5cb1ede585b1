//! Planning rules for renderer plugin lifecycle operations: which plugins a
//! change affects, and the generation each new activation gets.
use vstd::prelude::*;

use crate::plugin_services::storage::{insert_key, sorted_keys, string_views};
use crate::plugins::{CapabilityView, LoadedPlugin, ManifestView};
use crate::text::{concat3, join_strings, joined};

verus! {

/// Largest renderer generation (2^53 - 1).
pub const MAX_GENERATION: u64 = 9007199254740991;

/// The manifests of loaded plugins.
pub open spec fn manifests(plugins: Seq<LoadedPlugin>) -> Seq<ManifestView> {
    plugins.map_values(|p: LoadedPlugin| p.manifest@)
}

/// The set of names a list of strings holds.
pub open spec fn id_set(v: Seq<String>) -> Set<Seq<char>> {
    v.map_values(|s: String| s@).to_set()
}

/// Some plugin whose ID is in `s` provides the capability.
pub open spec fn provided_in(ms: Seq<ManifestView>, s: Set<Seq<char>>, c: CapabilityView) -> bool {
    exists|q: int| 0 <= q < ms.len() && s.contains(ms[q].id) && #[trigger] ms[q].provides.contains(c)
}

/// The manifest requires a capability some plugin in `s` provides.
pub open spec fn depends_on(ms: Seq<ManifestView>, s: Set<Seq<char>>, m: ManifestView) -> bool {
    exists|k: int| 0 <= k < m.requires.len() && provided_in(ms, s, #[trigger] m.requires[k])
}

/// Every plugin that depends on the set is in it.
pub open spec fn closed_under_dependents(ms: Seq<ManifestView>, s: Set<Seq<char>>) -> bool {
    forall|i: int| 0 <= i < ms.len() && #[trigger] depends_on(ms, s, ms[i]) ==> s.contains(ms[i].id)
}

/// How many plugins' IDs are outside the set.
pub open spec fn missing(ms: Seq<ManifestView>, s: Set<Seq<char>>) -> nat
    decreases ms.len(),
{
    if ms.len() == 0 {
        0
    } else {
        missing(ms.drop_last(), s) + (if s.contains(ms.last().id) { 0nat } else { 1nat })
    }
}

proof fn lemma_missing_shrinks(ms: Seq<ManifestView>, s: Set<Seq<char>>, t: Set<Seq<char>>, i: int)
    requires
        s.subset_of(t),
        0 <= i < ms.len(),
        t.contains(ms[i].id),
        !s.contains(ms[i].id),
    ensures
        missing(ms, t) < missing(ms, s),
    decreases ms.len(),
{
    lemma_missing_monotone(ms.drop_last(), s, t);
    if i < ms.len() - 1 {
        assert(ms.drop_last()[i] == ms[i]);
        lemma_missing_shrinks(ms.drop_last(), s, t, i);
    }
}

proof fn lemma_missing_monotone(ms: Seq<ManifestView>, s: Set<Seq<char>>, t: Set<Seq<char>>)
    requires
        s.subset_of(t),
    ensures
        missing(ms, t) <= missing(ms, s),
    decreases ms.len(),
{
    if ms.len() > 0 {
        lemma_missing_monotone(ms.drop_last(), s, t);
    }
}

pub(crate) proof fn lemma_depends_monotone(ms: Seq<ManifestView>, s: Set<Seq<char>>, t: Set<Seq<char>>, m: ManifestView)
    requires
        s.subset_of(t),
        depends_on(ms, s, m),
    ensures
        depends_on(ms, t, m),
{
    let k = choose|k: int| 0 <= k < m.requires.len() && provided_in(ms, s, #[trigger] m.requires[k]);
    let q = choose|q: int| 0 <= q < ms.len() && s.contains(ms[q].id) && #[trigger] ms[q].provides.contains(m.requires[k]);
    assert(provided_in(ms, t, m.requires[k]));
}

proof fn lemma_id_set_push(v: Seq<String>, x: String)
    ensures
        id_set(v.push(x)) == id_set(v).insert(x@),
{
    let a = v.push(x).map_values(|s: String| s@);
    let b = v.map_values(|s: String| s@);
    assert(a =~= b.push(x@));
    assert forall|y: Seq<char>| #[trigger] a.to_set().contains(y) <==> b.to_set().insert(x@).contains(y) by {
        if a.contains(y) {
            let j = choose|j: int| 0 <= j < a.len() && a[j] == y;
            if j < b.len() {
                assert(b[j] == y);
            }
        }
        if b.contains(y) {
            let j = choose|j: int| 0 <= j < b.len() && b[j] == y;
            assert(a[j] == y);
        }
        if y == x@ {
            assert(a[b.len() as int] == y);
        }
    }
    assert(a.to_set() =~= b.to_set().insert(x@));
}

pub(crate) fn contains_str(v: &Vec<String>, s: &str) -> (b: bool)
    ensures
        b == id_set(v@).contains(s@),
{
    let mut i: usize = 0;
    while i < v.len()
        invariant
            i <= v@.len(),
            forall|j: int| 0 <= j < i ==> v@[j]@ != s@,
        decreases v@.len() - i,
    {
        if crate::text::str_equal(v[i].as_str(), s) {
            proof {
                assert(v@.map_values(|x: String| x@)[i as int] == s@);
            }
            return true;
        }
        i = i + 1;
    }
    proof {
        let w = v@.map_values(|x: String| x@);
        if id_set(v@).contains(s@) {
            assert(w.contains(s@));
            let j = choose|j: int| 0 <= j < w.len() && #[trigger] w[j] == s@;
            assert(v@[j]@ == s@);
        }
    }
    false
}

fn provides_capability(plugins: &Vec<LoadedPlugin>, affected: &Vec<String>, c: &crate::plugins::CapabilityDescriptor) -> (b: bool)
    ensures
        b == provided_in(manifests(plugins@), id_set(affected@), c@),
{
    let ghost ms = manifests(plugins@);
    let mut q: usize = 0;
    while q < plugins.len()
        invariant
            q <= plugins@.len(),
            ms == manifests(plugins@),
            forall|j: int| 0 <= j < q ==> !(id_set(affected@).contains(ms[j].id) && #[trigger] ms[j].provides.contains(c@)),
        decreases plugins@.len() - q,
    {
        let m = &plugins[q].manifest;
        proof {
            assert(ms[q as int] == m@);
        }
        if contains_str(affected, m.id.as_str()) {
            let mut k: usize = 0;
            while k < m.provides.len()
                invariant
                    k <= m.provides@.len(),
                    q < plugins@.len(),
                    ms == manifests(plugins@),
                    ms[q as int] == m@,
                    id_set(affected@).contains(m@.id),
                    forall|j: int| 0 <= j < k ==> m@.provides[j] != c@,
                decreases m.provides@.len() - k,
            {
                if m.provides[k].same(c) {
                    proof {
                        assert(m@.provides[k as int] == c@);
                        assert(ms[q as int].provides.contains(c@));
                    }
                    return true;
                }
                k = k + 1;
            }
            proof {
                assert(!m@.provides.contains(c@));
            }
        }
        q = q + 1;
    }
    false
}

fn depends(plugins: &Vec<LoadedPlugin>, affected: &Vec<String>, p: &LoadedPlugin) -> (b: bool)
    ensures
        b == depends_on(manifests(plugins@), id_set(affected@), p.manifest@),
{
    let mut k: usize = 0;
    while k < p.manifest.requires.len()
        invariant
            k <= p.manifest.requires@.len(),
            forall|j: int| 0 <= j < k ==> !provided_in(manifests(plugins@), id_set(affected@), #[trigger] p.manifest@.requires[j]),
        decreases p.manifest.requires@.len() - k,
    {
        proof {
            assert(p.manifest@.requires[k as int] == p.manifest.requires@[k as int]@);
        }
        if provides_capability(plugins, affected, &p.manifest.requires[k]) {
            return true;
        }
        k = k + 1;
    }
    false
}

/// The root and every plugin that, directly or through others, requires a
/// capability the root provides: the least set that contains the root and
/// every plugin depending on it. Each ID occurs once.
pub fn dependent_closure(plugins: &Vec<LoadedPlugin>, root: &str) -> (r: Vec<String>)
    ensures
        r@.map_values(|s: String| s@).no_duplicates(),
        id_set(r@).contains(root@),
        closed_under_dependents(manifests(plugins@), id_set(r@)),
        forall|s: Set<Seq<char>>| #[trigger] closed_under_dependents(manifests(plugins@), s) && s.contains(root@)
            ==> id_set(r@).subset_of(s),
{
    let ghost ms = manifests(plugins@);
    let mut affected: Vec<String> = Vec::new();
    affected.push(root.to_string());
    proof {
        lemma_id_set_push(Seq::<String>::empty(), affected@[0]);
        assert(Seq::<String>::empty().push(affected@[0]) =~= affected@);
        assert(id_set(Seq::<String>::empty()) =~= Set::<Seq<char>>::empty());
    }
    loop
        invariant
            ms == manifests(plugins@),
            affected@.map_values(|s: String| s@).no_duplicates(),
            id_set(affected@).contains(root@),
            forall|s: Set<Seq<char>>| #[trigger] closed_under_dependents(ms, s) && s.contains(root@) ==> id_set(affected@).subset_of(s),
        decreases missing(ms, id_set(affected@)),
    {
        let ghost start = affected@;
        let mut added = false;
        let mut i: usize = 0;
        while i < plugins.len()
            invariant
                i <= plugins@.len(),
                ms == manifests(plugins@),
                affected@.map_values(|s: String| s@).no_duplicates(),
                id_set(affected@).contains(root@),
                forall|s: Set<Seq<char>>| #[trigger] closed_under_dependents(ms, s) && s.contains(root@) ==> id_set(affected@).subset_of(s),
                id_set(start).subset_of(id_set(affected@)),
                !added ==> affected@ == start,
                !added ==> forall|j: int| 0 <= j < i && #[trigger] depends_on(ms, id_set(start), ms[j]) ==> id_set(start).contains(ms[j].id),
                added ==> exists|j: int| 0 <= j < ms.len() && id_set(affected@).contains(#[trigger] ms[j].id) && !id_set(start).contains(ms[j].id),
            decreases plugins@.len() - i,
        {
            let p = &plugins[i];
            proof {
                assert(ms[i as int] == p.manifest@);
            }
            if !contains_str(&affected, p.manifest.id.as_str()) && depends(plugins, &affected, p) {
                let ghost before = affected@;
                let id = p.manifest.id.clone();
                proof {
                    assert(id@ == p.manifest.id@);
                }
                affected.push(id);
                proof {
                    lemma_id_set_push(before, id);
                    assert(affected@.map_values(|s: String| s@) =~= before.map_values(|s: String| s@).push(id@));
                    assert forall|s: Set<Seq<char>>| #[trigger] closed_under_dependents(ms, s) && s.contains(root@)
                        implies id_set(affected@).subset_of(s) by {
                        assert(id_set(before).subset_of(s));
                        lemma_depends_monotone(ms, id_set(before), s, ms[i as int]);
                        assert(depends_on(ms, s, ms[i as int]));
                    }
                    assert(id_set(affected@).contains(ms[i as int].id));
                    if !added {
                        assert(!id_set(start).contains(ms[i as int].id));
                    }
                }
                added = true;
            }
            i = i + 1;
        }
        if !added {
            proof {
                assert forall|j: int| 0 <= j < ms.len() && #[trigger] depends_on(ms, id_set(affected@), ms[j])
                    implies id_set(affected@).contains(ms[j].id) by {}
            }
            return affected;
        }
        proof {
            let j = choose|j: int| 0 <= j < ms.len() && id_set(affected@).contains(#[trigger] ms[j].id) && !id_set(start).contains(ms[j].id);
            lemma_missing_shrinks(ms, id_set(start), id_set(affected@), j);
        }
    }
}

} // verus!

verus! {

/// Why a lifecycle operation was refused.
#[derive(Debug, Clone, PartialEq, Eq, Structural)]
pub enum LifecycleProblem {
    UnknownPlugin,
    InvalidPlugin,
    Registry,
    Dependents,
    Dependency,
    NotEnabled,
    GenerationExhausted,
    RegistrationChanged,
    RollbackTrust,
}

/// A refused lifecycle operation on one plugin.
#[derive(Debug, Clone)]
pub struct LifecycleError {
    pub problem: LifecycleProblem,
    pub plugin_id: String,
    pub message: String,
}

impl LifecycleProblem {
    pub open spec fn spec_code(self) -> Seq<char> {
        match self {
            LifecycleProblem::UnknownPlugin => "plugin_not_found"@,
            LifecycleProblem::InvalidPlugin => "local_plugin_invalid"@,
            LifecycleProblem::Registry => "registry_error"@,
            LifecycleProblem::Dependents | LifecycleProblem::Dependency => "dependency_conflict"@,
            LifecycleProblem::NotEnabled => "plugin_not_enabled"@,
            LifecycleProblem::GenerationExhausted => "generation_exhausted"@,
            LifecycleProblem::RegistrationChanged => "registration_changed"@,
            LifecycleProblem::RollbackTrust => "rollback_trust_changed"@,
        }
    }
}

impl LifecycleError {
    /// The stable code of the error.
    pub fn code(&self) -> (s: &'static str)
        ensures
            s@ == self.problem.spec_code(),
    {
        match self.problem {
            LifecycleProblem::UnknownPlugin => "plugin_not_found",
            LifecycleProblem::InvalidPlugin => "local_plugin_invalid",
            LifecycleProblem::Registry => "registry_error",
            LifecycleProblem::Dependents | LifecycleProblem::Dependency => "dependency_conflict",
            LifecycleProblem::NotEnabled => "plugin_not_enabled",
            LifecycleProblem::GenerationExhausted => "generation_exhausted",
            LifecycleProblem::RegistrationChanged => "registration_changed",
            LifecycleProblem::RollbackTrust => "rollback_trust_changed",
        }
    }
}

/// No plugin occurs twice in a generation table.
pub open spec fn unique_plugins(gs: Seq<(String, u64)>) -> bool {
    forall|i: int, j: int| 0 <= i < gs.len() && 0 <= j < gs.len() && i != j ==> gs[i].0@ != gs[j].0@
}

/// The generation last handed to a plugin, 0 when none was.
pub open spec fn current_generation(gs: Seq<(String, u64)>, id: Seq<char>) -> u64 {
    if exists|i: int| 0 <= i < gs.len() && gs[i].0@ == id {
        gs[choose|i: int| 0 <= i < gs.len() && gs[i].0@ == id].1
    } else {
        0
    }
}

proof fn lemma_current_is(gs: Seq<(String, u64)>, i: int)
    requires
        unique_plugins(gs),
        0 <= i < gs.len(),
    ensures
        current_generation(gs, gs[i].0@) == gs[i].1,
{
    let id = gs[i].0@;
    assert(exists|j: int| 0 <= j < gs.len() && gs[j].0@ == id);
    let j = choose|j: int| 0 <= j < gs.len() && gs[j].0@ == id;
    assert(j == i);
}

fn find_plugin(gs: &Vec<(String, u64)>, id: &str) -> (r: Option<usize>)
    ensures
        match r {
            Some(k) => k < gs@.len() && gs@[k as int].0@ == id@,
            None => forall|j: int| 0 <= j < gs@.len() ==> gs@[j].0@ != id@,
        },
{
    let mut i: usize = 0;
    while i < gs.len()
        invariant
            i <= gs@.len(),
            forall|j: int| 0 <= j < i ==> gs@[j].0@ != id@,
        decreases gs@.len() - i,
    {
        if crate::text::str_equal(gs[i].0.as_str(), id) {
            return Some(i);
        }
        i = i + 1;
    }
    None
}

/// Hands a plugin its next renderer generation: one past its last, at most
/// 2^53 - 1. Other plugins' generations stay as they were.
pub fn next_generation(generations: &mut Vec<(String, u64)>, plugin_id: &str) -> (r: Result<u64, LifecycleError>)
    requires
        unique_plugins(old(generations)@),
    ensures
        unique_plugins(final(generations)@),
        current_generation(old(generations)@, plugin_id@) < MAX_GENERATION ==> {
            &&& r == Ok::<u64, LifecycleError>((current_generation(old(generations)@, plugin_id@) + 1) as u64)
            &&& current_generation(final(generations)@, plugin_id@) == current_generation(old(generations)@, plugin_id@) + 1
        },
        current_generation(old(generations)@, plugin_id@) >= MAX_GENERATION ==> (r matches Err(e)
            && e.problem == LifecycleProblem::GenerationExhausted && final(generations)@ == old(generations)@),
        forall|other: Seq<char>| other != plugin_id@ ==> current_generation(final(generations)@, other) == current_generation(
            old(generations)@,
            other,
        ),
{
    let ghost before = generations@;
    let found = find_plugin(generations, plugin_id);
    let current: u64 = match found {
        Some(k) => {
            proof {
                lemma_current_is(before, k as int);
            }
            generations[k].1
        },
        None => 0,
    };
    if current >= MAX_GENERATION {
        return Err(LifecycleError {
            problem: LifecycleProblem::GenerationExhausted,
            plugin_id: plugin_id.to_string(),
            message: "plugin exhausted its renderer generation range".to_string(),
        });
    }
    let next = current + 1;
    match found {
        Some(k) => {
            let name = plugin_id.to_string();
            generations.set(k, (name, next));
            proof {
                let after = generations@;
                assert forall|a: int, b: int| 0 <= a < after.len() && 0 <= b < after.len() && a != b implies after[a].0@ != after[b].0@ by {
                    if a != k && b != k {
                        assert(after[a] == before[a] && after[b] == before[b]);
                    } else if a == k {
                        assert(after[b] == before[b]);
                    } else {
                        assert(after[a] == before[a]);
                    }
                }
                lemma_current_is(after, k as int);
                assert forall|other: Seq<char>| other != plugin_id@ implies current_generation(after, other) == current_generation(before, other) by {
                    if exists|j: int| 0 <= j < before.len() && before[j].0@ == other {
                        let j = choose|j: int| 0 <= j < before.len() && before[j].0@ == other;
                        assert(after[j] == before[j]);
                        lemma_current_is(before, j);
                        lemma_current_is(after, j);
                    } else {
                        assert forall|j: int| 0 <= j < after.len() implies after[j].0@ != other by {
                            if j != k {
                                assert(after[j] == before[j]);
                            }
                        }
                    }
                }
            }
        },
        None => {
            let name = plugin_id.to_string();
            generations.push((name, next));
            proof {
                let after = generations@;
                let k = before.len() as int;
                assert forall|a: int, b: int| 0 <= a < after.len() && 0 <= b < after.len() && a != b implies after[a].0@ != after[b].0@ by {
                    if a < k && b < k {
                        assert(after[a] == before[a] && after[b] == before[b]);
                    } else if a == k {
                        assert(after[b] == before[b]);
                    } else {
                        assert(after[a] == before[a]);
                    }
                }
                lemma_current_is(after, k);
                assert forall|other: Seq<char>| other != plugin_id@ implies current_generation(after, other) == current_generation(before, other) by {
                    if exists|j: int| 0 <= j < before.len() && before[j].0@ == other {
                        let j = choose|j: int| 0 <= j < before.len() && before[j].0@ == other;
                        assert(after[j] == before[j]);
                        lemma_current_is(before, j);
                        lemma_current_is(after, j);
                    } else {
                        assert forall|j: int| 0 <= j < after.len() implies after[j].0@ != other by {
                            if j < k {
                                assert(after[j] == before[j]);
                            }
                        }
                    }
                }
            }
        },
    }
    Ok(next)
}

/// The IDs of plugins.
pub open spec fn plugin_ids(v: Seq<LoadedPlugin>) -> Set<Seq<char>> {
    v.map_values(|p: LoadedPlugin| p.manifest.id@).to_set()
}

/// The plugins a disable checks for dependents: the running records, and
/// the enabled catalog snapshots of plugins not running; running records
/// win over disk preferences.
pub open spec fn disable_candidates(catalog: Seq<LoadedPlugin>, running: Seq<LoadedPlugin>) -> Seq<LoadedPlugin> {
    running + catalog.filter(|p: LoadedPlugin| !plugin_ids(running).contains(p.manifest.id@))
}

/// The least set that holds the root and every plugin depending on it.
pub open spec fn least_dependent_set(ms: Seq<ManifestView>, root: Seq<char>, s: Set<Seq<char>>) -> bool {
    &&& s.contains(root)
    &&& closed_under_dependents(ms, s)
    &&& forall|t: Set<Seq<char>>| #[trigger] closed_under_dependents(ms, t) && t.contains(root) ==> s.subset_of(t)
}

/// Whether a plugin may be disabled: it must be known, and no enabled or
/// running plugin may depend on it, directly or through others. `known`
/// says whether the catalog or the registry has the plugin;
/// `catalog_enabled` holds the valid catalog snapshots of the plugin and of
/// enabled plugins. A refusal names the dependents in ascending order.
pub fn validate_disable(known: bool, catalog_enabled: &Vec<LoadedPlugin>, running: &Vec<LoadedPlugin>, plugin_id: &str) -> (r: Result<
    (),
    LifecycleError,
>)
    ensures
        !known ==> (r matches Err(e) && e.problem == LifecycleProblem::UnknownPlugin && e.plugin_id@ == plugin_id@),
        known ==> (r is Ok <==> closed_under_dependents(
            manifests(disable_candidates(catalog_enabled@, running@)),
            set![plugin_id@],
        )),
        known ==> (r matches Err(e) ==> {
            &&& e.problem == LifecycleProblem::Dependents
            &&& e.plugin_id@ == plugin_id@
            &&& exists|ds: Seq<Seq<char>>|
                {
                    &&& sorted_keys(ds)
                    &&& least_dependent_set(
                        manifests(disable_candidates(catalog_enabled@, running@)),
                        plugin_id@,
                        #[trigger] ds.to_set().insert(plugin_id@),
                    )
                    &&& !ds.contains(plugin_id@)
                    &&& e.message@ == "plugin still has enabled or running dependents: "@ + joined(ds, ", "@)
                }
        }),
{
    if !known {
        return Err(LifecycleError {
            problem: LifecycleProblem::UnknownPlugin,
            plugin_id: plugin_id.to_string(),
            message: "unknown plugin".to_string(),
        });
    }
    let candidates = merge_candidates(catalog_enabled, running);
    let ghost ms = manifests(candidates@);
    let closure = dependent_closure(&candidates, plugin_id);
    let mut dependents: Vec<String> = Vec::new();
    let mut i: usize = 0;
    proof {
        assert(string_views(dependents@) =~= Seq::<Seq<char>>::empty());
        assert(string_views(dependents@).to_set() =~= Set::<Seq<char>>::empty());
    }
    while i < closure.len()
        invariant
            i <= closure@.len(),
            sorted_keys(string_views(dependents@)),
            string_views(dependents@).to_set() == id_set(closure@.take(i as int)).remove(plugin_id@),
        decreases closure@.len() - i,
    {
        let ghost before = dependents@;
        proof {
            lemma_id_set_push(closure@.take(i as int), closure@[i as int]);
            assert(closure@.take(i + 1) =~= closure@.take(i as int).push(closure@[i as int]));
        }
        if !crate::text::str_equal(closure[i].as_str(), plugin_id) {
            insert_key(&mut dependents, closure[i].clone());
            proof {
                assert(string_views(dependents@).to_set() =~= id_set(closure@.take(i + 1)).remove(plugin_id@));
            }
        } else {
            proof {
                assert(id_set(closure@.take(i + 1)).remove(plugin_id@) =~= id_set(closure@.take(i as int)).remove(plugin_id@));
            }
        }
        i = i + 1;
    }
    proof {
        assert(closure@.take(closure@.len() as int) =~= closure@);
    }
    let ghost ds = string_views(dependents@);
    if dependents.len() == 0 {
        proof {
            assert(id_set(closure@) =~= set![plugin_id@]) by {
                assert forall|x: Seq<char>| id_set(closure@).contains(x) implies x == plugin_id@ by {
                    if x != plugin_id@ {
                        assert(id_set(closure@).remove(plugin_id@).contains(x));
                        assert(ds.to_set().contains(x));
                        let j = choose|j: int| 0 <= j < ds.len() && ds[j] == x;
                    }
                }
            }
        }
        return Ok(());
    }
    proof {
        assert(ds.len() > 0);
        assert(ds.to_set().contains(ds[0]));
        assert(ds[0] != plugin_id@);
        assert(id_set(closure@).contains(ds[0]));
        if closed_under_dependents(ms, set![plugin_id@]) {
            assert(id_set(closure@).subset_of(set![plugin_id@]));
            assert(false);
        }
        assert(ds.to_set().insert(plugin_id@) =~= id_set(closure@));
        if ds.contains(plugin_id@) {
            let j = choose|j: int| 0 <= j < ds.len() && ds[j] == plugin_id@;
            assert(ds.to_set().contains(plugin_id@));
        }
    }
    let list = join_strings(&dependents, ", ");
    proof {
        assert(dependents.deep_view() =~= ds);
    }
    let message = concat3("plugin still has enabled or running dependents: ", list.as_str(), "");
    proof {
        reveal_strlit("");
        assert(message@ =~= "plugin still has enabled or running dependents: "@ + joined(ds, ", "@));
        assert(least_dependent_set(ms, plugin_id@, ds.to_set().insert(plugin_id@)));
    }
    Err(LifecycleError { problem: LifecycleProblem::Dependents, plugin_id: plugin_id.to_string(), message })
}

fn copy_plugin(p: &LoadedPlugin) -> (r: LoadedPlugin)
    ensures
        r.manifest@ == p.manifest@,
        r.generation == p.generation,
{
    LoadedPlugin { manifest: crate::managed_plugins::copy_manifest(&p.manifest), generation: p.generation }
}

/// The running plugins followed by the catalog snapshots of plugins not
/// running.
fn merge_candidates(catalog: &Vec<LoadedPlugin>, running: &Vec<LoadedPlugin>) -> (r: Vec<LoadedPlugin>)
    ensures
        manifests(r@) == manifests(disable_candidates(catalog@, running@)),
{
    let mut ids: Vec<String> = Vec::new();
    let mut out: Vec<LoadedPlugin> = Vec::new();
    let mut i: usize = 0;
    while i < running.len()
        invariant
            i <= running@.len(),
            manifests(out@) == manifests(running@.take(i as int)),
            id_set(ids@) == plugin_ids(running@.take(i as int)),
        decreases running@.len() - i,
    {
        let ghost before_ids = ids@;
        let ghost before_out = out@;
        ids.push(running[i].manifest.id.clone());
        out.push(copy_plugin(&running[i]));
        proof {
            assert(manifests(out@) =~= manifests(running@.take(i + 1))) by {
                assert(manifests(before_out) == manifests(running@.take(i as int)));
                assert(manifests(before_out).len() == before_out.len());
                assert(manifests(running@.take(i as int)).len() == i);
                assert(before_out.len() == i);
                assert(manifests(out@).len() == manifests(running@.take(i + 1)).len());
                assert forall|j: int| 0 <= j < out@.len() implies #[trigger] manifests(out@)[j] == manifests(running@.take(i + 1))[j] by {
                    assert(manifests(out@)[j] == out@[j].manifest@);
                    assert(manifests(running@.take(i + 1))[j] == running@.take(i + 1)[j].manifest@);
                    if j < i {
                        assert(out@[j] == before_out[j]);
                        assert(manifests(before_out)[j] == before_out[j].manifest@);
                        assert(manifests(running@.take(i as int))[j] == running@.take(i as int)[j].manifest@);
                    }
                }
            }
            lemma_id_set_push(before_ids, running@[i as int].manifest.id);
            assert(running@.take(i + 1) =~= running@.take(i as int).push(running@[i as int]));
            assert(running@.take(i + 1).map_values(|p: LoadedPlugin| p.manifest.id@) =~= running@.take(i as int).map_values(
                |p: LoadedPlugin| p.manifest.id@,
            ).push(running@[i as int].manifest.id@));
            assert(plugin_ids(running@.take(i + 1)) =~= plugin_ids(running@.take(i as int)).insert(running@[i as int].manifest.id@)) by {
                let a = running@.take(i + 1).map_values(|p: LoadedPlugin| p.manifest.id@);
                let b = running@.take(i as int).map_values(|p: LoadedPlugin| p.manifest.id@);
                assert forall|y: Seq<char>| a.to_set().contains(y) <==> b.to_set().insert(running@[i as int].manifest.id@).contains(y) by {
                    if a.contains(y) {
                        let j = choose|j: int| 0 <= j < a.len() && a[j] == y;
                        if j < b.len() {
                            assert(b[j] == y);
                        }
                    }
                    if b.contains(y) {
                        let j = choose|j: int| 0 <= j < b.len() && b[j] == y;
                        assert(a[j] == y);
                    }
                    if y == running@[i as int].manifest.id@ {
                        assert(a[b.len() as int] == y);
                    }
                }
            }
        }
        i = i + 1;
    }
    proof {
        assert(running@.take(running@.len() as int) =~= running@);
    }
    let ghost pred = |p: LoadedPlugin| !plugin_ids(running@).contains(p.manifest.id@);
    let mut k: usize = 0;
    proof {
        reveal_with_fuel(Seq::<LoadedPlugin>::filter, 1);
        assert(catalog@.take(0).filter(pred) =~= Seq::<LoadedPlugin>::empty());
        assert(running@ + catalog@.take(0).filter(pred) =~= running@);
    }
    while k < catalog.len()
        invariant
            k <= catalog@.len(),
            pred == (|p: LoadedPlugin| !plugin_ids(running@).contains(p.manifest.id@)),
            id_set(ids@) == plugin_ids(running@),
            manifests(out@) == manifests(running@ + catalog@.take(k as int).filter(pred)),
        decreases catalog@.len() - k,
    {
        proof {
            reveal_with_fuel(Seq::<LoadedPlugin>::filter, 1);
            assert(catalog@.take(k + 1).drop_last() =~= catalog@.take(k as int));
            assert(catalog@.take(k + 1).last() == catalog@[k as int]);
        }
        let ghost before_out = out@;
        if !contains_str(&ids, catalog[k].manifest.id.as_str()) {
            out.push(copy_plugin(&catalog[k]));
            proof {
                let t = running@ + catalog@.take(k + 1).filter(pred);
                assert(t =~= (running@ + catalog@.take(k as int).filter(pred)).push(catalog@[k as int]));
                let t0 = running@ + catalog@.take(k as int).filter(pred);
                assert(manifests(out@) =~= manifests(t)) by {
                    assert(manifests(before_out).len() == before_out.len());
                    assert(manifests(t0).len() == t0.len());
                    assert(before_out.len() == t0.len());
                    assert(manifests(out@).len() == manifests(t).len());
                    assert forall|j: int| 0 <= j < out@.len() implies #[trigger] manifests(out@)[j] == manifests(t)[j] by {
                        assert(manifests(out@)[j] == out@[j].manifest@);
                        assert(manifests(t)[j] == t[j].manifest@);
                        if j < before_out.len() {
                            assert(out@[j] == before_out[j]);
                            assert(manifests(before_out)[j] == before_out[j].manifest@);
                            assert(manifests(t0)[j] == t0[j].manifest@);
                            assert(t[j] == t0[j]);
                        }
                    }
                }
            }
        } else {
            proof {
                assert(running@ + catalog@.take(k + 1).filter(pred) =~= running@ + catalog@.take(k as int).filter(pred));
            }
        }
        k = k + 1;
    }
    proof {
        assert(catalog@.take(catalog@.len() as int) =~= catalog@);
    }
    out
}

} // verus!

