use std::collections::BTreeMap;
use std::collections::BTreeSet;

use codlet::plugin_control::{PluginControlAction, PluginControlRequest};
use codlet::plugin_watch::{LocalWatchSource, PluginWatcher, RegisteredSource, MAX_SOURCES_PER_POLL};
use codlet::plugins::{CapabilityDescriptor, CapabilityScope, LoadedPlugin, Permission, PluginManifest};

/// A source directory as the owner loop would see it on disk.
struct Directory {
    /// The validated manifest content; layout-only edits do not change it.
    manifest: String,
    entry: String,
    files: BTreeMap<String, String>,
}

impl Directory {
    fn fingerprint(&self) -> String {
        let content = self.files.get(&self.entry).map(String::as_str).unwrap_or("<missing>");
        format!("{}|{}|{}", self.manifest, self.entry, content)
    }
}

struct Watched {
    id: String,
    path: String,
    grants: Vec<Permission>,
    provides: Vec<CapabilityDescriptor>,
    requires: Vec<CapabilityDescriptor>,
    generation: u64,
    loaded: String,
}

struct Fixture {
    plugins: Vec<Watched>,
    disk: BTreeMap<String, Directory>,
    registry: Option<Vec<RegisteredSource>>,
}

fn api() -> CapabilityDescriptor {
    CapabilityDescriptor::new("dev.api", 1, CapabilityScope::Target)
}

impl Fixture {
    fn new(ids: &[&str]) -> Self {
        let mut plugins = Vec::new();
        let mut disk = BTreeMap::new();
        let mut registry = Vec::new();
        for id in ids {
            let path = format!("/plugins/{id}");
            let mut files = BTreeMap::new();
            files.insert(
                "renderer.js".to_string(),
                "module.exports = { activate() {}, deactivate() {} };".to_string(),
            );
            let directory = Directory { manifest: format!("{id}@1"), entry: "renderer.js".into(), files };
            let provides = if *id == "dev.provider" || (*id == "dev.a" && ids.contains(&"dev.z")) {
                vec![api()]
            } else {
                vec![]
            };
            let requires = if *id == "dev.consumer" || *id == "dev.z" { vec![api()] } else { vec![] };
            plugins.push(Watched {
                id: id.to_string(),
                path: path.clone(),
                grants: vec![],
                provides,
                requires,
                generation: 1,
                loaded: directory.fingerprint(),
            });
            disk.insert(path.clone(), directory);
            registry.push(RegisteredSource { plugin_id: id.to_string(), path, grants: vec![] });
        }
        Fixture { plugins, disk, registry: Some(registry) }
    }

    fn sources(&self) -> Vec<LocalWatchSource> {
        self.plugins
            .iter()
            .map(|p| LocalWatchSource {
                path: p.path.clone(),
                grants: p.grants.clone(),
                plugin: LoadedPlugin {
                    manifest: PluginManifest {
                        id: p.id.clone(),
                        version: "1".into(),
                        permissions: vec![],
                        provides: p.provides.clone(),
                        requires: p.requires.clone(),
                        renderer_entry: Some("renderer.js".into()),
                        host_entry: None,
                    },
                    generation: p.generation,
                },
                loaded_fingerprint: Some(p.loaded.clone()),
            })
            .collect()
    }

    fn poll_at(&self, watcher: &mut PluginWatcher, now: u64, sources: &Vec<LocalWatchSource>) -> Option<PluginControlRequest> {
        let plan = watcher.sample_plan(now, sources);
        let registry = match &self.registry {
            Some(entries) => Ok(entries.clone()),
            None => Err("invalid registry".to_string()),
        };
        let fingerprints: Vec<String> = plan
            .iter()
            .map(|id| {
                let source = sources.iter().rev().find(|s| &s.plugin.manifest.id == id).unwrap();
                self.disk[&source.path].fingerprint()
            })
            .collect();
        watcher.poll(now, sources, registry, &fingerprints)
    }

    fn poll(&self, watcher: &mut PluginWatcher, tick: u64) -> Option<PluginControlRequest> {
        self.poll_at(watcher, 250 * tick, &self.sources())
    }

    fn source(&mut self, index: usize, text: &str) {
        let path = self.plugins[index].path.clone();
        let directory = self.disk.get_mut(&path).unwrap();
        let entry = directory.entry.clone();
        directory.files.insert(entry, text.to_string());
    }

    fn load_generation(&mut self, index: usize, generation: u64) {
        let fingerprint = self.disk[&self.plugins[index].path].fingerprint();
        self.plugins[index].loaded = fingerprint;
        self.plugins[index].generation = generation;
    }

    fn register(&mut self, id: &str, path: &str, grants: Vec<Permission>) {
        let registry = self.registry.as_mut().unwrap();
        registry.retain(|r| r.plugin_id != id);
        registry.push(RegisteredSource { plugin_id: id.into(), path: path.into(), grants });
    }

    fn unregister(&mut self, id: &str) {
        self.registry.as_mut().unwrap().retain(|r| r.plugin_id != id);
    }
}

fn reload_of(request: Option<PluginControlRequest>) -> String {
    let request = request.expect("a reload request");
    assert_eq!(request.action, PluginControlAction::Reload);
    request.plugin_id
}

#[test]
fn watch_coalesces_writes_atomic_replacement_deletion_and_distinct_invalid_json() {
    let mut fixture = Fixture::new(&["dev.plugin"]);
    let mut watcher = PluginWatcher::new("/config.json".into());
    assert!(fixture.poll(&mut watcher, 0).is_none());
    fixture.source(0, "// edit one\nmodule.exports = {};");
    assert!(fixture.poll(&mut watcher, 1).is_none());
    fixture.source(0, "// edit two\nmodule.exports = {};");
    assert!(fixture.poll(&mut watcher, 2).is_none());
    assert!(fixture.poll_at(&mut watcher, 600, &fixture.sources()).is_none());
    assert_eq!(reload_of(fixture.poll(&mut watcher, 3)), "dev.plugin");
    assert!(fixture.poll(&mut watcher, 4).is_none());
    assert!(fixture.poll(&mut watcher, 5).is_none());

    fixture.source(0, "// atomic replacement\nmodule.exports = {};");
    assert!(fixture.poll(&mut watcher, 6).is_none());
    assert!(fixture.poll(&mut watcher, 7).is_some());
    let path = fixture.plugins[0].path.clone();
    fixture.disk.get_mut(&path).unwrap().files.remove("renderer.js");
    assert!(fixture.poll(&mut watcher, 8).is_none());
    assert!(fixture.poll(&mut watcher, 9).is_some());
    assert!(fixture.poll(&mut watcher, 10).is_none());
    fixture.source(0, "module.exports = { activate() {}, deactivate() {} };");
    assert!(fixture.poll(&mut watcher, 11).is_none());
    assert!(fixture.poll(&mut watcher, 12).is_none());

    fixture.disk.get_mut(&path).unwrap().manifest = "invalid:{\"unexpected\":1}".into();
    assert!(fixture.poll(&mut watcher, 13).is_none());
    assert!(fixture.poll(&mut watcher, 14).is_some());
    fixture.disk.get_mut(&path).unwrap().manifest = "invalid:{\"unexpected\":2}".into();
    assert!(fixture.poll(&mut watcher, 15).is_none());
    assert!(fixture.poll(&mut watcher, 16).is_some());
    assert!(fixture.poll(&mut watcher, 17).is_none());
    assert!(watcher.take_diagnostics().is_empty());
}

#[test]
fn watch_keeps_failed_attempts_across_rollback_and_observes_grants_and_manual_baselines() {
    let mut fixture = Fixture::new(&["dev.plugin"]);
    let mut watcher = PluginWatcher::new("/config.json".into());
    assert!(fixture.poll(&mut watcher, 0).is_none());
    fixture.source(0, "// failed candidate\nmodule.exports = {};");
    assert!(fixture.poll(&mut watcher, 1).is_none());
    assert!(fixture.poll(&mut watcher, 2).is_some());
    fixture.plugins[0].generation = 3; // Old source restored after candidate 2.
    for tick in 3..=5 {
        assert!(fixture.poll(&mut watcher, tick).is_none());
    }

    let path = fixture.plugins[0].path.clone();
    fixture.disk.get_mut(&path).unwrap().manifest = "dev.plugin@1 permissions=ui.dom".into();
    assert!(fixture.poll(&mut watcher, 6).is_none());
    assert!(fixture.poll(&mut watcher, 7).is_some());
    assert!(fixture.poll(&mut watcher, 8).is_none());
    fixture.register("dev.plugin", &path, vec![Permission::UiDom]);
    assert!(fixture.poll(&mut watcher, 9).is_none());
    assert!(fixture.poll(&mut watcher, 10).is_some());

    fixture.plugins[0].grants = vec![Permission::UiDom];
    fixture.load_generation(0, 4);
    assert!(fixture.poll(&mut watcher, 11).is_none());
    assert!(fixture.poll(&mut watcher, 12).is_none());
    fixture.source(0, "// source captured by a manual reload\nmodule.exports = {};");
    assert!(fixture.poll(&mut watcher, 13).is_none());
    fixture.load_generation(0, 5);
    fixture.source(0, "// saved again while that manual activation was running\nmodule.exports = {};");
    assert!(fixture.poll(&mut watcher, 14).is_none());
    assert!(fixture.poll(&mut watcher, 15).is_some());
    assert!(fixture.poll_at(&mut watcher, 4000, &Vec::new()).is_none());
    fixture.load_generation(0, 6);
    assert!(fixture.poll(&mut watcher, 17).is_none());
    assert!(fixture.poll(&mut watcher, 18).is_none());
}

#[test]
fn watch_prefers_provider_groups_and_retries_a_failed_group_only_after_another_stable_edit() {
    let mut fixture = Fixture::new(&["dev.provider", "dev.consumer"]);
    let mut watcher = PluginWatcher::new("/config.json".into());
    assert!(fixture.poll(&mut watcher, 0).is_none());
    fixture.source(0, "// revised provider\nmodule.exports = {};");
    fixture.source(1, "// revised consumer\nmodule.exports = {};");
    assert!(fixture.poll(&mut watcher, 1).is_none());
    assert_eq!(reload_of(fixture.poll(&mut watcher, 2)), "dev.provider");
    for plugin in &mut fixture.plugins {
        plugin.generation = 3;
    }
    for tick in 3..=5 {
        assert!(fixture.poll(&mut watcher, tick).is_none());
    }
    fixture.source(1, "// consumer corrected after the group failed\nmodule.exports = {};");
    assert!(fixture.poll(&mut watcher, 6).is_none());
    assert_eq!(reload_of(fixture.poll(&mut watcher, 7)), "dev.provider");
    assert!(fixture.poll(&mut watcher, 8).is_none());
}

#[test]
fn watch_pins_loaded_paths_including_dependents_and_does_not_adopt_new_registrations() {
    let mut fixture = Fixture::new(&["dev.provider", "dev.consumer"]);
    let mut watcher = PluginWatcher::new("/config.json".into());
    assert!(fixture.poll(&mut watcher, 0).is_none());
    fixture.source(0, "// provider pending while consumer trust changes\nmodule.exports = {};");
    assert!(fixture.poll(&mut watcher, 1).is_none());
    fixture.unregister("dev.consumer");
    assert!(fixture.poll(&mut watcher, 2).is_none());
    assert!(fixture.poll(&mut watcher, 3).is_none());
    let diagnostics = watcher.take_diagnostics();
    assert_eq!(diagnostics[0].code, "watch_registration_removed");
    assert_eq!(diagnostics[0].plugin_id, "dev.consumer");
    assert!(fixture.poll(&mut watcher, 4).is_none());
    assert!(watcher.take_diagnostics().is_empty());

    let replacement = "/plugins/replacement-consumer".to_string();
    let mut files = BTreeMap::new();
    files.insert("renderer.js".to_string(), "// manually selected replacement\nmodule.exports = {};".to_string());
    fixture.disk.insert(
        replacement.clone(),
        Directory { manifest: "dev.consumer@1".into(), entry: "renderer.js".into(), files },
    );
    fixture.register("dev.consumer", &replacement, vec![]);
    fixture.register("dev.unloaded", "/plugins/unloaded", vec![]);
    assert!(fixture.poll(&mut watcher, 5).is_none());
    assert!(fixture.poll(&mut watcher, 6).is_none());
    assert_eq!(watcher.take_diagnostics()[0].code, "watch_registration_path_changed");
    assert!(!watcher.sample_plan(1750, &fixture.sources()).iter().any(|id| id == "dev.unloaded"));
    fixture.plugins[1].path = replacement;
    fixture.load_generation(1, 2);
    assert!(fixture.poll(&mut watcher, 7).is_none());
    assert_eq!(reload_of(fixture.poll(&mut watcher, 8)), "dev.provider");

    let saved = fixture.registry.take();
    assert!(fixture.poll(&mut watcher, 9).is_none());
    assert!(fixture.poll(&mut watcher, 10).is_none());
    let diagnostics = watcher.take_diagnostics();
    assert_eq!(diagnostics[0].code, "watch_registry_unavailable");
    assert_eq!(diagnostics[0].plugin_id, "");
    assert_eq!(
        diagnostics[0].message,
        "File watching is paused until the plugin registry can be read: invalid registry"
    );
    assert!(fixture.poll(&mut watcher, 11).is_none());
    assert!(watcher.take_diagnostics().is_empty());
    fixture.registry = saved;
    assert!(fixture.poll(&mut watcher, 12).is_none());
}

#[test]
fn watch_scan_work_is_bounded_and_round_robin_does_not_starve_later_sources() {
    let mut fixture = Fixture::new(&[
        "dev.a", "dev.b", "dev.c", "dev.d", "dev.e", "dev.f", "dev.g", "dev.h", "dev.i",
    ]);
    let mut watcher = PluginWatcher::new("/config.json".into());
    for index in 0..fixture.plugins.len() {
        fixture.source(index, "// edited\nmodule.exports = {};");
    }
    let plan = watcher.sample_plan(0, &fixture.sources());
    assert_eq!(plan, vec!["dev.a", "dev.b", "dev.c", "dev.d"]);
    assert_eq!(plan.len(), MAX_SOURCES_PER_POLL);
    assert!(fixture.poll(&mut watcher, 0).is_none());
    assert_eq!(watcher.sample_plan(250, &fixture.sources()), vec!["dev.e", "dev.f", "dev.g", "dev.h"]);
    let mut requested = BTreeSet::new();
    for tick in 1..=15 {
        if let Some(request) = fixture.poll(&mut watcher, tick) {
            assert!(requested.insert(request.plugin_id));
        }
    }
    assert_eq!(requested.len(), fixture.plugins.len());
}

#[test]
fn watch_waits_for_consumers_outside_the_providers_first_scan_batch() {
    let mut fixture = Fixture::new(&["dev.a", "dev.b", "dev.c", "dev.d", "dev.z"]);
    let mut watcher = PluginWatcher::new("/config.json".into());
    fixture.source(0, "// provider changed\nmodule.exports = {};");
    fixture.source(4, "// consumer changed\nmodule.exports = {};");
    assert!(fixture.poll(&mut watcher, 0).is_none());
    // A has two samples here, but Z has only just been sampled once.
    assert!(fixture.poll(&mut watcher, 1).is_none());
    assert_eq!(reload_of(fixture.poll(&mut watcher, 2)), "dev.a");
    let registration = fixture.registry.as_ref().unwrap().iter().find(|r| r.plugin_id == "dev.z").unwrap().clone();
    fixture.unregister("dev.z");
    fixture.source(0, "// another provider edit while its consumer is paused\nmodule.exports = {};");
    assert!(fixture.poll(&mut watcher, 3).is_none());
    assert!(fixture.poll(&mut watcher, 4).is_none());
    fixture.register("dev.z", &registration.path, registration.grants);
    // Z is not sampled in this batch. Its old settled Paused observation must
    // not count as stable source bytes merely because trust returned.
    assert!(fixture.poll(&mut watcher, 5).is_none());
    assert!(fixture.poll(&mut watcher, 6).is_none());
    assert_eq!(reload_of(fixture.poll(&mut watcher, 7)), "dev.a");
}

#[test]
fn watch_ignores_manifest_layout_but_follows_a_validated_entry_change() {
    let mut fixture = Fixture::new(&["dev.plugin"]);
    let mut watcher = PluginWatcher::new("/config.json".into());
    assert!(fixture.poll(&mut watcher, 0).is_none());
    // Reformatting the manifest leaves its validated content unchanged.
    assert!(fixture.poll(&mut watcher, 1).is_none());
    assert!(fixture.poll(&mut watcher, 2).is_none());
    let path = fixture.plugins[0].path.clone();
    {
        let directory = fixture.disk.get_mut(&path).unwrap();
        directory.entry = "replacement.js".into();
        directory.files.insert("replacement.js".into(), "// new entry\nmodule.exports = {};".into());
    }
    assert!(fixture.poll(&mut watcher, 3).is_none());
    assert!(fixture.poll(&mut watcher, 4).is_some());
    fixture.load_generation(0, 2);
    fixture
        .disk
        .get_mut(&path)
        .unwrap()
        .files
        .insert("renderer.js".into(), "// old entry edits no longer matter".into());
    assert!(fixture.poll(&mut watcher, 5).is_none());
    assert!(fixture.poll(&mut watcher, 6).is_none());
}

#[test]
fn watch_is_idle_until_a_source_is_watched_and_the_interval_passes() {
    let fixture = Fixture::new(&["dev.plugin"]);
    let mut watcher = PluginWatcher::new("/config.json".into());
    assert_eq!(watcher.registry_path(), "/config.json");
    assert!(watcher.sample_plan(0, &Vec::new()).is_empty());
    assert_eq!(watcher.sample_plan(0, &fixture.sources()), vec!["dev.plugin"]);
    assert!(fixture.poll(&mut watcher, 0).is_none());
    assert!(watcher.sample_plan(249, &fixture.sources()).is_empty());
    assert_eq!(watcher.sample_plan(250, &fixture.sources()), vec!["dev.plugin"]);
    let mut unloaded = fixture.sources();
    unloaded[0].loaded_fingerprint = None;
    assert!(watcher.sample_plan(250, &unloaded).is_empty());
}


#[test]
fn a_removed_registration_stays_one_pending_diagnostic_across_polls() {
    let mut fixture = Fixture::new(&["dev.provider", "dev.consumer"]);
    let mut watcher = PluginWatcher::new("/config.json".into());
    assert!(fixture.poll(&mut watcher, 0).is_none());
    fixture.unregister("dev.consumer");
    for tick in 1..8 {
        assert!(fixture.poll(&mut watcher, tick).is_none());
    }
    let diagnostics = watcher.take_diagnostics();
    let removed = diagnostics
        .iter()
        .filter(|d| d.plugin_id == "dev.consumer" && d.code == "watch_registration_removed")
        .count();
    assert_eq!(removed, 1);
    assert!(watcher.take_diagnostics().is_empty());
}
