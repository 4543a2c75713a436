use draox_plugins::catalogue::MarketplaceRegistry;
use draox_plugins::marketplace::{
    MarketplaceEntry, MarketplacePlugin, PluginAnalytics, PluginCategory, PluginReview, PluginVersion, PublisherInfo,
    SearchQuery, SortBy,
};
use std::collections::HashMap;

const NOW: i64 = 1_700_000_000_000;

fn sample_entry(id: &str) -> MarketplaceEntry {
    MarketplaceEntry {
        plugin_id: id.to_string(),
        name: format!("Plugin {id}"),
        version: "1.0.0".to_string(),
        description: Some("A test plugin.".to_string()),
        download_url: format!("https://marketplace.draox-server.io/plugins/{id}/1.0.0.dxp"),
        checksum_sha256: "abc123".to_string(),
    }
}

fn publisher(id: &str) -> PublisherInfo {
    PublisherInfo { id: id.to_string(), name: format!("Publisher {id}"), email: None, verified: false, joined_at: NOW }
}

fn plugin(id: &str, name: &str, downloads: u64, featured: bool) -> MarketplacePlugin {
    MarketplacePlugin {
        id: id.to_string(),
        name: name.to_string(),
        description: format!("Description for {id}"),
        version: "1.0.0".to_string(),
        author: publisher("pub-1"),
        category: PluginCategory::Utility,
        tags: vec!["test".to_string()],
        downloads,
        active_installs: 0,
        rating_tenths: 0,
        rating_count: 0,
        created_at: NOW,
        updated_at: NOW,
        is_paid: false,
        price_cents: None,
        featured,
        compatibility: ">=1.0.0".to_string(),
    }
}

fn version(ver: &str) -> PluginVersion {
    PluginVersion {
        version: ver.to_string(),
        release_notes: "notes".to_string(),
        min_server_version: "1.0.0".to_string(),
        published_at: NOW,
        download_url: format!("https://example.com/plugin-{ver}.dxp"),
        checksum: "abc123".to_string(),
        size_bytes: 1024,
        dependencies: vec![],
    }
}

#[test]
fn test_upsert_and_get() {
    let mut reg = MarketplaceRegistry::new();
    reg.upsert(sample_entry("io.draox.clans"));

    let entry = reg.get_entry("io.draox.clans").expect("entry should exist");
    assert_eq!(entry.plugin_id, "io.draox.clans");
    assert_eq!(entry.version, "1.0.0");
}

#[test]
fn test_upsert_overwrites() {
    let mut reg = MarketplaceRegistry::new();
    reg.upsert(sample_entry("io.draox.clans"));

    let mut updated = sample_entry("io.draox.clans");
    updated.version = "2.0.0".to_string();
    reg.upsert(updated);

    assert_eq!(reg.get_entry("io.draox.clans").unwrap().version, "2.0.0");
}

#[test]
fn test_remove() {
    let mut reg = MarketplaceRegistry::new();
    reg.upsert(sample_entry("io.draox.messaging"));

    assert!(reg.remove("io.draox.messaging"));
    assert!(!reg.remove("io.draox.messaging"));
    assert!(reg.get_entry("io.draox.messaging").is_none());
}

#[test]
fn test_all_and_len() {
    let mut reg = MarketplaceRegistry::new();
    assert!(reg.is_empty());

    reg.upsert(sample_entry("io.draox.a"));
    reg.upsert(sample_entry("io.draox.b"));
    reg.upsert(sample_entry("io.draox.c"));

    assert_eq!(reg.len(), 3);
    assert_eq!(reg.all().len(), 3);
    assert!(!reg.is_empty());
}

#[test]
fn catalogue_default_is_empty() {
    let reg = MarketplaceRegistry::default();
    assert!(reg.is_empty());
    assert!(reg.get("io.draox.a").is_none());
}

#[test]
fn catalogue_publish_refuses_duplicate() {
    let mut reg = MarketplaceRegistry::new();
    assert!(reg.publish(plugin("io.draox.a", "Alpha", 1, false)).is_ok());
    let err = reg.publish(plugin("io.draox.a", "Alpha", 1, false)).unwrap_err();
    assert_eq!(err, "plugin 'io.draox.a' already published");
    assert_eq!(reg.get("io.draox.a").unwrap().name, "Alpha");
}

#[test]
fn catalogue_upsert_plugin_replaces() {
    let mut reg = MarketplaceRegistry::new();
    reg.upsert_plugin(plugin("io.draox.a", "Alpha", 1, false));
    reg.upsert_plugin(plugin("io.draox.a", "Alpha Two", 1, false));
    assert_eq!(reg.get("io.draox.a").unwrap().name, "Alpha Two");
}

#[test]
fn catalogue_search_orders_by_name_and_pages() {
    let mut reg = MarketplaceRegistry::new();
    reg.upsert_plugin(plugin("io.draox.c", "Gamma", 5, false));
    reg.upsert_plugin(plugin("io.draox.a", "Alpha", 9, false));
    reg.upsert_plugin(plugin("io.draox.b", "Beta", 7, false));
    let q = SearchQuery { page_size: 2, ..Default::default() };
    let r = reg.search(&q);
    assert_eq!(r.total, 3);
    assert_eq!(r.page, 1);
    assert_eq!(r.page_size, 2);
    let names: Vec<&str> = r.plugins.iter().map(|p| p.name.as_str()).collect();
    assert_eq!(names, vec!["Alpha", "Beta"]);

    let q2 = SearchQuery { page: 2, page_size: 2, ..Default::default() };
    let r2 = reg.search(&q2);
    assert_eq!(r2.plugins.len(), 1);
    assert_eq!(r2.plugins[0].name, "Gamma");
}

#[test]
fn catalogue_search_text_and_clamps() {
    let mut reg = MarketplaceRegistry::new();
    reg.upsert_plugin(plugin("io.draox.a", "Alpha Chat", 1, false));
    reg.upsert_plugin(plugin("io.draox.b", "Beta", 2, false));
    let q = SearchQuery { query: Some("CHAT".to_string()), page: 0, page_size: 500, ..Default::default() };
    let r = reg.search(&q);
    assert_eq!(r.page, 1);
    assert_eq!(r.page_size, 100);
    assert_eq!(r.total, 1);
    assert_eq!(r.plugins[0].id, "io.draox.a");
}

#[test]
fn catalogue_search_by_downloads() {
    let mut reg = MarketplaceRegistry::new();
    reg.upsert_plugin(plugin("io.draox.a", "Alpha", 1, false));
    reg.upsert_plugin(plugin("io.draox.b", "Beta", 30, false));
    reg.upsert_plugin(plugin("io.draox.c", "Gamma", 20, false));
    let q = SearchQuery { sort_by: SortBy::Downloads, ..Default::default() };
    let ids: Vec<String> = reg.search(&q).plugins.into_iter().map(|p| p.id).collect();
    assert_eq!(ids, vec!["io.draox.b", "io.draox.c", "io.draox.a"]);
}

#[test]
fn catalogue_featured_and_popular() {
    let mut reg = MarketplaceRegistry::new();
    reg.upsert_plugin(plugin("io.draox.a", "Alpha", 10, true));
    reg.upsert_plugin(plugin("io.draox.b", "Beta", 30, false));
    reg.upsert_plugin(plugin("io.draox.c", "Gamma", 20, true));
    let featured: Vec<String> = reg.featured().into_iter().map(|p| p.id).collect();
    assert_eq!(featured, vec!["io.draox.a", "io.draox.c"]);
    let popular: Vec<String> = reg.popular(2).into_iter().map(|p| p.id).collect();
    assert_eq!(popular, vec!["io.draox.b", "io.draox.c"]);
    assert_eq!(reg.popular(10).len(), 3);
}

#[test]
fn catalogue_versions_reviews_publishers_analytics() {
    let mut reg = MarketplaceRegistry::new();
    assert!(reg.get_versions("io.draox.a").is_empty());
    reg.add_version("io.draox.a", version("1.0.0"));
    reg.add_version("io.draox.a", version("1.1.0"));
    let vs: Vec<String> = reg.get_versions("io.draox.a").into_iter().map(|v| v.version).collect();
    assert_eq!(vs, vec!["1.0.0", "1.1.0"]);
    assert!(reg.get_versions("io.draox.b").is_empty());

    reg.add_review(PluginReview {
        id: "r1".to_string(),
        plugin_id: "io.draox.a".to_string(),
        reviewer: "alice".to_string(),
        rating: 5,
        comment: "great".to_string(),
        created_at: NOW,
    });
    assert_eq!(reg.get_reviews("io.draox.a").len(), 1);
    assert!(reg.get_reviews("io.draox.b").is_empty());

    assert!(reg.get_publisher("pub-1").is_none());
    reg.upsert_publisher(publisher("pub-1"));
    assert_eq!(reg.get_publisher("pub-1").unwrap().name, "Publisher pub-1");

    assert!(reg.get_analytics("io.draox.a").is_none());
    reg.upsert_analytics(PluginAnalytics {
        plugin_id: "io.draox.a".to_string(),
        total_downloads: 12,
        active_installs: 3,
        daily_downloads: vec![("2025-01-15".to_string(), 4)],
        version_distribution: HashMap::new(),
    });
    let a = reg.get_analytics("io.draox.a").unwrap();
    assert_eq!(a.total_downloads, 12);
    assert_eq!(a.active_installs, 3);
}
