use draox_plugins::marketplace::{MarketplacePlugin, PluginCategory, PluginVersion, PublisherInfo, SearchQuery};
use draox_plugins::marketplace_client::RegistryClient;
use draox_plugins::marketplace_registry::MarketplaceRegistry;
use std::sync::Arc;

const NOW: i64 = 1_700_000_000_000;

fn plugin(id: &str, name: &str, category: PluginCategory, tag: &str, downloads: u64, featured: bool) -> MarketplacePlugin {
    MarketplacePlugin {
        id: id.to_string(),
        name: name.to_string(),
        description: format!("{name} plugin"),
        version: "1.0.0".to_string(),
        author: PublisherInfo { id: "pub-1".to_string(), name: "Test Publisher".to_string(), email: None, verified: true, joined_at: NOW },
        category,
        tags: vec![tag.to_string()],
        downloads,
        active_installs: 1_000,
        rating_tenths: 42,
        rating_count: 10,
        created_at: NOW,
        updated_at: NOW,
        is_paid: false,
        price_cents: None,
        featured,
        compatibility: ">=1.0.0".to_string(),
    }
}

fn make_registry_with_plugins() -> Arc<MarketplaceRegistry> {
    let mut reg = MarketplaceRegistry::new();
    reg.publish(plugin("io.draox.alpha", "Alpha", PluginCategory::Utility, "utility", 5_000, false)).unwrap();
    reg.publish(plugin("io.draox.beta", "Beta", PluginCategory::Security, "security", 12_000, true)).unwrap();
    reg.add_version(
        "io.draox.alpha",
        PluginVersion {
            version: "1.0.0".to_string(),
            release_notes: "First release".to_string(),
            min_server_version: "1.0.0".to_string(),
            published_at: NOW,
            download_url: "https://example.com/alpha-1.0.0.dxp".to_string(),
            checksum: "abc123".to_string(),
            size_bytes: 2048,
            dependencies: vec![],
        },
    );
    reg.set_featured(vec!["io.draox.beta".to_string()]);
    Arc::new(reg)
}

#[test]
fn test_client_search() {
    let client = RegistryClient::with_local_registry(make_registry_with_plugins());
    let query = SearchQuery { query: Some("alpha".to_string()), ..Default::default() };
    let result = client.search(&query).unwrap();
    assert_eq!(result.total, 1);
    assert_eq!(result.plugins[0].id, "io.draox.alpha");
}

#[test]
fn test_client_get_plugin() {
    let client = RegistryClient::with_local_registry(make_registry_with_plugins());
    let plugin = client.get_plugin("io.draox.beta").unwrap();
    assert!(plugin.is_some());
    assert_eq!(plugin.unwrap().name, "Beta");
    let missing = client.get_plugin("io.draox.nonexistent").unwrap();
    assert!(missing.is_none());
}

#[test]
fn test_client_get_versions() {
    let client = RegistryClient::with_local_registry(make_registry_with_plugins());
    let versions = client.get_versions("io.draox.alpha").unwrap();
    assert_eq!(versions.len(), 1);
    assert_eq!(versions[0].version, "1.0.0");
}

#[test]
fn test_client_get_featured() {
    let client = RegistryClient::with_local_registry(make_registry_with_plugins());
    let featured = client.get_featured().unwrap();
    assert_eq!(featured.len(), 1);
    assert_eq!(featured[0].id, "io.draox.beta");
}

#[test]
fn test_client_get_popular() {
    let client = RegistryClient::with_local_registry(make_registry_with_plugins());
    let popular = client.get_popular(1).unwrap();
    assert_eq!(popular.len(), 1);
    // beta has more downloads (12,000 vs 5,000)
    assert_eq!(popular[0].id, "io.draox.beta");
}

#[test]
fn test_client_remote_not_implemented() {
    let client = RegistryClient::new("https://marketplace.draox-server.io");
    let result = client.get_plugin("io.draox.test");
    assert!(result.is_err());
    assert_eq!(client.registry_url, "https://marketplace.draox-server.io");
    assert!(client.get_reviews("x").is_err());
}
