use draox_plugins::marketplace_client::RegistryClient;
use draox_plugins::marketplace_registry::MarketplaceRegistry;
use std::sync::Arc;
use draox_plugins::marketplace::{MarketplacePlugin, PluginCategory, PublisherInfo};

fn listed_plugin(id: &str) -> MarketplacePlugin {
    MarketplacePlugin {
        id: id.to_string(),
        name: id.to_string(),
        description: String::new(),
        version: "1.0.0".to_string(),
        author: PublisherInfo { id: "p".to_string(), name: "P".to_string(), email: None, verified: false, joined_at: 0 },
        category: PluginCategory::Utility,
        tags: vec![],
        downloads: 0,
        active_installs: 0,
        rating_tenths: 0,
        rating_count: 0,
        created_at: 0,
        updated_at: 0,
        is_paid: false,
        price_cents: None,
        featured: false,
        compatibility: ">=1.0.0".to_string(),
    }
}
use draox_plugins::marketplace::PluginVersion;
use draox_plugins::update_checker::UpdateChecker;

fn release(ver: &str) -> PluginVersion {
    PluginVersion {
        version: ver.to_string(),
        release_notes: format!("Release {ver}"),
        min_server_version: "1.0.0".to_string(),
        published_at: 0,
        download_url: format!("https://example.com/p-{ver}.dxp"),
        checksum: "abc".to_string(),
        size_bytes: 1024,
        dependencies: vec![],
    }
}

fn releases(vs: &[&str]) -> Vec<PluginVersion> {
    vs.iter().map(|v| release(v)).collect()
}

/// What a check does for each tracked plugin, with the releases the
/// registry lists for it.
fn check(checker: &mut UpdateChecker, listed: &dyn Fn(&str) -> Vec<PluginVersion>) -> Vec<(String, String, String)> {
    let mut updates = Vec::new();
    for (id, installed) in checker.installed_plugins() {
        if let Some(best) = checker.apply_versions(&id, &installed, &listed(&id)) {
            updates.push((id, installed, best));
        }
    }
    updates
}

#[test]
fn test_register_and_unregister() {
    let mut checker = UpdateChecker::new(60);
    checker.register_installed("io.draox.a", "1.0.0");
    assert!(checker.installed_version("io.draox.a").is_some());
    checker.unregister("io.draox.a");
    assert!(checker.installed_version("io.draox.a").is_none());
    assert_eq!(checker.check_interval_secs, 60);
}

#[test]
fn test_check_updates_finds_newer_version() {
    let mut checker = UpdateChecker::new(60);
    checker.register_installed("io.draox.a", "1.0.0");
    let updates = check(&mut checker, &|_| releases(&["1.0.0", "1.1.0", "2.0.0"]));
    assert_eq!(updates.len(), 1);
    let (id, current, latest) = &updates[0];
    assert_eq!(id, "io.draox.a");
    assert_eq!(current, "1.0.0");
    assert_eq!(latest, "2.0.0");
    assert!(checker.has_update("io.draox.a"));
}

#[test]
fn test_check_updates_no_update_when_up_to_date() {
    let mut checker = UpdateChecker::new(60);
    checker.register_installed("io.draox.b", "1.0.0");
    let updates = check(&mut checker, &|_| releases(&["1.0.0"]));
    assert!(updates.is_empty());
    assert!(!checker.has_update("io.draox.b"));
}

#[test]
fn test_get_available_updates_after_check() {
    let mut checker = UpdateChecker::new(60);
    checker.register_installed("io.draox.c", "1.0.0");
    check(&mut checker, &|_| releases(&["1.0.0", "1.5.0"]));
    let available = checker.get_available_updates();
    assert_eq!(available.len(), 1);
    assert_eq!(available[0].0, "io.draox.c");
    assert_eq!(available[0].1.version, "1.5.0");
}

#[test]
fn update_cleared_by_reinstall_and_short_versions_count() {
    let mut checker = UpdateChecker::new(30);
    checker.register_installed("p", "1.0.0");
    assert_eq!(checker.apply_versions("p", "1.0.0", &releases(&["1.2.0", "1.10.0"])), Some("1.10.0".to_string()));
    checker.register_installed("p", "1.10.0");
    assert!(!checker.has_update("p"));
    assert!(checker.apply_versions("p", "1.10.0", &Vec::new()).is_none());
    assert!(!checker.has_update("p"));
    // "2.0" is newer: it is offered although it is not written "2.0.0"
    assert_eq!(checker.apply_versions("p", "1.10.0", &releases(&["2.0"])), Some("2.0.0".to_string()));
    assert!(checker.has_update("p"));
}

#[test]
fn check_updates_walks_installed_plugins() {
    let mut reg = MarketplaceRegistry::new();
    reg.publish(listed_plugin("io.draox.a")).unwrap();
    reg.publish(listed_plugin("io.draox.b")).unwrap();
    reg.add_version("io.draox.a", release("1.0.0"));
    reg.add_version("io.draox.a", release("1.5.0"));
    reg.add_version("io.draox.a", release("2.0"));
    reg.add_version("io.draox.b", release("0.9.0"));
    let client = RegistryClient::with_local_registry(Arc::new(reg));
    let mut checker = UpdateChecker::new(3600);
    checker.register_installed("io.draox.a", "1.0.0");
    checker.register_installed("io.draox.b", "1.0.0");
    checker.register_installed("io.draox.c", "1.0.0");
    let found = checker.check_updates(&client);
    assert_eq!(found, vec![("io.draox.a".to_string(), "1.0.0".to_string(), "2.0.0".to_string())]);
    assert!(checker.has_update("io.draox.a"));
    assert!(!checker.has_update("io.draox.b"));
    assert!(!checker.has_update("io.draox.c"));

    let remote = RegistryClient::new("https://marketplace.example");
    let mut other = UpdateChecker::new(3600);
    other.register_installed("io.draox.a", "1.0.0");
    assert!(other.check_updates(&remote).is_empty());
}

#[test]
fn recorded_release_is_the_one_written_as_the_newest_version() {
    let mut checker = UpdateChecker::new(30);
    checker.register_installed("p", "1.0.0");
    assert_eq!(checker.apply_versions("p", "1.0.0", &releases(&["2.0", "2.0.0"])), Some("2.0.0".to_string()));
    let ups = checker.get_available_updates();
    assert_eq!(ups.len(), 1);
    assert_eq!(ups[0].1.version, "2.0.0");
    checker.register_installed("q", "1.0.0");
    assert_eq!(checker.apply_versions("q", "1.0.0", &releases(&["2.0"])), Some("2.0.0".to_string()));
    let ups = checker.get_available_updates();
    assert_eq!(ups.iter().find(|u| u.0 == "q").unwrap().1.version, "2.0");
}
