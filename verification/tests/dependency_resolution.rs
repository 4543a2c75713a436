use draox_plugins::marketplace::{MarketplacePlugin, PluginCategory, PluginDependency, PluginVersion, PublisherInfo};
use draox_plugins::marketplace_registry::MarketplaceRegistry;
use draox_plugins::version::VersionResolver;

const NOW: i64 = 1_700_000_000_000;

fn make_plugin_entry(id: &str) -> MarketplacePlugin {
    MarketplacePlugin {
        id: id.to_string(),
        name: id.to_string(),
        description: String::new(),
        version: "1.0.0".to_string(),
        author: PublisherInfo {
            id: "pub".to_string(),
            name: "Publisher".to_string(),
            email: None,
            verified: true,
            joined_at: NOW,
        },
        category: PluginCategory::Utility,
        tags: vec![],
        downloads: 0,
        active_installs: 0,
        rating_tenths: 0,
        rating_count: 0,
        created_at: NOW,
        updated_at: NOW,
        is_paid: false,
        price_cents: None,
        featured: false,
        compatibility: ">=1.0.0".to_string(),
    }
}

fn add_plugin_with_deps(registry: &mut MarketplaceRegistry, id: &str, deps: Vec<(&str, &str)>) {
    registry.publish(make_plugin_entry(id)).unwrap();
    registry.add_version(
        id,
        PluginVersion {
            version: "1.0.0".to_string(),
            release_notes: String::new(),
            min_server_version: "1.0.0".to_string(),
            published_at: NOW,
            download_url: String::new(),
            checksum: String::new(),
            size_bytes: 0,
            dependencies: deps
                .into_iter()
                .map(|(pid, req)| PluginDependency { plugin_id: pid.to_string(), version_requirement: req.to_string() })
                .collect(),
        },
    );
}

#[test]
fn test_resolve_no_deps() {
    let mut registry = MarketplaceRegistry::new();
    add_plugin_with_deps(&mut registry, "io.draox.a", vec![]);
    let result = VersionResolver::resolve_dependencies("io.draox.a", &registry).unwrap();
    assert!(result.is_empty());
}

#[test]
fn test_resolve_simple_chain() {
    let mut registry = MarketplaceRegistry::new();
    // C has no deps; B depends on C; A depends on B
    add_plugin_with_deps(&mut registry, "io.draox.c", vec![]);
    add_plugin_with_deps(&mut registry, "io.draox.b", vec![("io.draox.c", ">=1.0.0")]);
    add_plugin_with_deps(&mut registry, "io.draox.a", vec![("io.draox.b", ">=1.0.0")]);

    let order = VersionResolver::resolve_dependencies("io.draox.a", &registry).unwrap();
    assert_eq!(order, vec!["io.draox.c", "io.draox.b"]);
}

#[test]
fn test_resolve_missing_dependency_fails() {
    let mut registry = MarketplaceRegistry::new();
    add_plugin_with_deps(&mut registry, "io.draox.a", vec![("io.draox.missing", ">=1.0.0")]);
    let result = VersionResolver::resolve_dependencies("io.draox.a", &registry);
    assert!(result.is_err());
}

#[test]
fn resolution_errors_and_diamond() {
    let mut registry = MarketplaceRegistry::new();
    add_plugin_with_deps(&mut registry, "d", vec![]);
    add_plugin_with_deps(&mut registry, "b", vec![("d", "^1.0.0")]);
    add_plugin_with_deps(&mut registry, "c", vec![("d", "*")]);
    add_plugin_with_deps(&mut registry, "a", vec![("b", ">=1.0.0"), ("c", ">=1.0.0")]);
    assert_eq!(VersionResolver::resolve_dependencies("a", &registry).unwrap(), vec!["d", "b", "c"]);
    assert_eq!(
        VersionResolver::resolve_dependencies("zzz", &registry).unwrap_err(),
        "no version found for plugin 'zzz'"
    );
    add_plugin_with_deps(&mut registry, "e", vec![("d", ">=2.0.0")]);
    assert_eq!(
        VersionResolver::resolve_dependencies("e", &registry).unwrap_err(),
        "no version of 'd' satisfies requirement '>=2.0.0'"
    );
    add_plugin_with_deps(&mut registry, "f", vec![("gone", "*")]);
    assert_eq!(
        VersionResolver::resolve_dependencies("f", &registry).unwrap_err(),
        "dependency 'gone' of 'f' not found in registry"
    );
    add_plugin_with_deps(&mut registry, "x", vec![("y", "*")]);
    add_plugin_with_deps(&mut registry, "y", vec![("x", "*")]);
    assert_eq!(
        VersionResolver::resolve_dependencies("x", &registry).unwrap_err(),
        "circular dependency detected involving 'x'"
    );
}
