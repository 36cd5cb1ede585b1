use codlet::plugin_lifecycle::{dependent_closure, next_generation, validate_disable, LifecycleProblem, MAX_GENERATION};
use codlet::plugins::{CapabilityDescriptor, CapabilityScope, LoadedPlugin, PluginManifest};

fn plugin(id: &str, provides: &[&str], requires: &[&str]) -> LoadedPlugin {
    let d = |name: &&str| CapabilityDescriptor::new(name, 1, CapabilityScope::Target);
    LoadedPlugin {
        manifest: PluginManifest {
            id: id.into(),
            version: "1.0.0".into(),
            permissions: vec![],
            provides: provides.iter().map(d).collect(),
            requires: requires.iter().map(d).collect(),
            renderer_entry: Some("renderer.js".into()),
            host_entry: None,
        },
        generation: 1,
    }
}

fn sorted(mut v: Vec<String>) -> Vec<String> {
    v.sort();
    v
}

#[test]
fn dependent_closure_follows_requirements_transitively_and_includes_the_root() {
    let plugins = vec![
        plugin("core.adapter", &["ui.adapter"], &[]),
        plugin("dev.panel", &["panel.api"], &["ui.adapter"]),
        plugin("dev.addon", &[], &["panel.api"]),
        plugin("dev.other", &[], &["other.api"]),
    ];
    assert_eq!(
        sorted(dependent_closure(&plugins, "core.adapter")),
        vec!["core.adapter", "dev.addon", "dev.panel"]
    );
    assert_eq!(sorted(dependent_closure(&plugins, "dev.addon")), vec!["dev.addon"]);
    assert_eq!(sorted(dependent_closure(&plugins, "missing")), vec!["missing"]);
}

#[test]
fn dependency_cycles_terminate() {
    let plugins = vec![plugin("a", &["a.api"], &["b.api"]), plugin("b", &["b.api"], &["a.api"])];
    assert_eq!(sorted(dependent_closure(&plugins, "a")), vec!["a", "b"]);
}

#[test]
fn generations_increase_per_plugin_until_exhausted() {
    let mut generations: Vec<(String, u64)> = vec![];
    assert_eq!(next_generation(&mut generations, "a").unwrap(), 1);
    assert_eq!(next_generation(&mut generations, "a").unwrap(), 2);
    assert_eq!(next_generation(&mut generations, "b").unwrap(), 1);
    generations[0].1 = MAX_GENERATION;
    let error = next_generation(&mut generations, "a").unwrap_err();
    assert_eq!(error.problem, LifecycleProblem::GenerationExhausted);
    assert_eq!(error.code(), "generation_exhausted");
    assert_eq!(generations[0].1, MAX_GENERATION);
    assert_eq!(next_generation(&mut generations, "b").unwrap(), 2);
}

#[test]
fn a_plugin_with_enabled_or_running_dependents_is_not_disabled() {
    let catalog = vec![
        plugin("core.adapter", &["ui.adapter"], &[]),
        plugin("dev.panel", &["panel.api"], &["ui.adapter"]),
        plugin("dev.addon", &[], &["panel.api"]),
    ];
    let e = validate_disable(true, &catalog, &vec![], "core.adapter").unwrap_err();
    assert_eq!(e.problem, LifecycleProblem::Dependents);
    assert_eq!(e.code(), "dependency_conflict");
    assert_eq!(e.message, "plugin still has enabled or running dependents: dev.addon, dev.panel");
    assert!(validate_disable(true, &catalog, &vec![], "dev.addon").is_ok());
    // A running record wins over the catalog snapshot of the same plugin.
    let running = vec![plugin("dev.panel", &["panel.api"], &[])];
    let e = validate_disable(true, &catalog, &running, "core.adapter");
    assert!(e.is_ok());
    let e = validate_disable(false, &catalog, &running, "missing").unwrap_err();
    assert_eq!(e.problem, LifecycleProblem::UnknownPlugin);
    assert_eq!(e.code(), "plugin_not_found");
}
