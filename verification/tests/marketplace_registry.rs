use draox_plugins::marketplace::{
    MarketplacePlugin, PluginCategory, PluginReview, PluginVersion, PublisherInfo, SearchQuery, SortBy,
};
use draox_plugins::marketplace_registry::MarketplaceRegistry;

const NOW: i64 = 1_700_000_000_000;

fn make_publisher(id: &str) -> PublisherInfo {
    PublisherInfo { id: id.to_string(), name: format!("Publisher {id}"), email: None, verified: false, joined_at: NOW }
}

fn make_plugin(id: &str, category: PluginCategory, downloads: u64) -> MarketplacePlugin {
    MarketplacePlugin {
        id: id.to_string(),
        name: format!("Plugin {id}"),
        description: format!("Description for {id}"),
        version: "1.0.0".to_string(),
        author: make_publisher("pub-1"),
        category,
        tags: vec!["test".to_string()],
        downloads,
        active_installs: 0,
        rating_tenths: 0,
        rating_count: 0,
        created_at: NOW,
        updated_at: NOW,
        is_paid: false,
        price_cents: None,
        featured: false,
        compatibility: ">=1.0.0".to_string(),
    }
}

fn make_version(ver: &str) -> PluginVersion {
    PluginVersion {
        version: ver.to_string(),
        release_notes: "Initial release".to_string(),
        min_server_version: "1.0.0".to_string(),
        published_at: NOW,
        download_url: format!("https://example.com/plugin-{ver}.dxp"),
        checksum: "abc123".to_string(),
        size_bytes: 1024,
        dependencies: vec![],
    }
}

fn review(id: &str, plugin: &str, rating: u8) -> PluginReview {
    PluginReview {
        id: id.to_string(),
        plugin_id: plugin.to_string(),
        reviewer: "alice".to_string(),
        rating,
        comment: "ok".to_string(),
        created_at: NOW,
    }
}

#[test]
fn test_publish_and_get_plugin() {
    let mut registry = MarketplaceRegistry::new();
    registry.publish(make_plugin("io.draox.a", PluginCategory::Utility, 0)).unwrap();
    let got = registry.get_plugin("io.draox.a").unwrap();
    assert_eq!(got.id, "io.draox.a");
}

#[test]
fn test_publish_duplicate_fails() {
    let mut registry = MarketplaceRegistry::new();
    registry.publish(make_plugin("io.draox.a", PluginCategory::Utility, 0)).unwrap();
    let err = registry.publish(make_plugin("io.draox.a", PluginCategory::Utility, 0)).unwrap_err();
    assert_eq!(err, "plugin 'io.draox.a' already published");
}

#[test]
fn marketplace_registry_test_remove_plugin() {
    let mut registry = MarketplaceRegistry::new();
    registry.publish(make_plugin("io.draox.a", PluginCategory::Utility, 0)).unwrap();
    assert!(registry.remove_plugin("io.draox.a"));
    assert!(registry.get_plugin("io.draox.a").is_none());
    assert!(!registry.remove_plugin("io.draox.a"));
}

#[test]
fn test_update_plugin() {
    let mut registry = MarketplaceRegistry::new();
    registry.publish(make_plugin("io.draox.a", PluginCategory::Utility, 0)).unwrap();
    let mut updated = make_plugin("io.draox.a", PluginCategory::Security, 9_000);
    updated.name = "Updated Name".to_string();
    assert!(registry.update_plugin(updated));
    let got = registry.get_plugin("io.draox.a").unwrap();
    assert_eq!(got.name, "Updated Name");
    assert_eq!(got.downloads, 9_000);
    assert!(!registry.update_plugin(make_plugin("io.draox.zz", PluginCategory::Other, 1)));
}

#[test]
fn test_search_by_text() {
    let mut registry = MarketplaceRegistry::new();
    registry.publish(make_plugin("io.draox.alpha", PluginCategory::Utility, 10)).unwrap();
    registry.publish(make_plugin("io.draox.beta", PluginCategory::Security, 5)).unwrap();

    let q = SearchQuery { query: Some("alpha".to_string()), ..Default::default() };
    let result = registry.search(&q);
    assert_eq!(result.total, 1);
    assert_eq!(result.plugins[0].id, "io.draox.alpha");
}

#[test]
fn test_search_by_category() {
    let mut registry = MarketplaceRegistry::new();
    registry.publish(make_plugin("io.draox.a", PluginCategory::Analytics, 0)).unwrap();
    registry.publish(make_plugin("io.draox.b", PluginCategory::Utility, 0)).unwrap();

    let q = SearchQuery { category: Some(PluginCategory::Analytics), ..Default::default() };
    let result = registry.search(&q);
    assert_eq!(result.total, 1);
    assert_eq!(result.plugins[0].id, "io.draox.a");
}

#[test]
fn test_list_popular() {
    let mut registry = MarketplaceRegistry::new();
    registry.publish(make_plugin("io.draox.low", PluginCategory::Utility, 100)).unwrap();
    registry.publish(make_plugin("io.draox.high", PluginCategory::Utility, 9_000)).unwrap();
    registry.publish(make_plugin("io.draox.mid", PluginCategory::Utility, 500)).unwrap();

    let popular = registry.list_popular(2);
    assert_eq!(popular.len(), 2);
    assert_eq!(popular[0].id, "io.draox.high");
    assert_eq!(popular[1].id, "io.draox.mid");
}

#[test]
fn test_add_and_get_versions() {
    let mut registry = MarketplaceRegistry::new();
    registry.publish(make_plugin("io.draox.a", PluginCategory::Utility, 0)).unwrap();
    assert!(registry.add_version("io.draox.a", make_version("1.0.0")));
    assert!(registry.add_version("io.draox.a", make_version("1.1.0")));
    let versions = registry.get_versions("io.draox.a");
    assert_eq!(versions.len(), 2);
}

#[test]
fn test_get_latest_version() {
    let mut registry = MarketplaceRegistry::new();
    registry.publish(make_plugin("io.draox.a", PluginCategory::Utility, 0)).unwrap();
    registry.add_version("io.draox.a", make_version("1.0.0"));
    registry.add_version("io.draox.a", make_version("2.0.0"));
    let latest = registry.get_latest_version("io.draox.a").unwrap();
    assert_eq!(latest.version, "2.0.0");
}

#[test]
fn test_add_version_unknown_plugin_returns_false() {
    let mut registry = MarketplaceRegistry::new();
    assert!(!registry.add_version("io.draox.nonexistent", make_version("1.0.0")));
}

#[test]
fn test_add_review_and_update_rating() {
    let mut registry = MarketplaceRegistry::new();
    registry.publish(make_plugin("io.draox.a", PluginCategory::Utility, 0)).unwrap();
    registry.add_review(review("rev-1", "io.draox.a", 5)).unwrap();
    let got = registry.get_plugin("io.draox.a").unwrap();
    assert_eq!(got.rating_count, 1);
    assert!((got.rating_tenths as f64 / 10.0 - 5.0).abs() < 0.01);
}

#[test]
fn test_invalid_rating_rejected() {
    let mut registry = MarketplaceRegistry::new();
    registry.publish(make_plugin("io.draox.a", PluginCategory::Utility, 0)).unwrap();
    let err = registry.add_review(review("rev-bad", "io.draox.a", 6)).unwrap_err();
    assert_eq!(err, "invalid rating 6: must be 1–5");
    assert!(registry.add_review(review("rev-zero", "io.draox.a", 0)).is_err());
    assert!(registry.get_reviews("io.draox.a").is_empty());
}

#[test]
fn test_register_and_verify_publisher() {
    let mut registry = MarketplaceRegistry::new();
    registry.register_publisher(make_publisher("pub-x")).unwrap();
    let p = registry.get_publisher("pub-x").unwrap();
    assert!(!p.verified);
    assert!(registry.verify_publisher("pub-x"));
    let p2 = registry.get_publisher("pub-x").unwrap();
    assert!(p2.verified);
    assert_eq!(registry.register_publisher(make_publisher("pub-x")).unwrap_err(), "publisher 'pub-x' already registered");
    assert!(!registry.verify_publisher("pub-y"));
}

#[test]
fn test_analytics_download_and_install() {
    let mut registry = MarketplaceRegistry::new();
    registry.publish(make_plugin("io.draox.a", PluginCategory::Utility, 0)).unwrap();
    registry.record_download("io.draox.a");
    registry.record_download("io.draox.a");
    registry.record_install("io.draox.a");
    registry.record_uninstall("io.draox.a");

    let analytics = registry.get_analytics("io.draox.a").unwrap();
    assert_eq!(analytics.total_downloads, 2);
    assert_eq!(analytics.active_installs, 0);

    let plugin = registry.get_plugin("io.draox.a").unwrap();
    assert_eq!(plugin.downloads, 2);
    assert_eq!(plugin.active_installs, 0);
}

#[test]
fn test_set_and_list_featured() {
    let mut registry = MarketplaceRegistry::new();
    registry.publish(make_plugin("io.draox.a", PluginCategory::Utility, 0)).unwrap();
    registry.publish(make_plugin("io.draox.b", PluginCategory::Security, 0)).unwrap();
    registry.set_featured(vec!["io.draox.a".to_string(), "io.draox.b".to_string()]);
    let featured = registry.list_featured();
    assert_eq!(featured.len(), 2);
    assert_eq!(featured[0].id, "io.draox.a");
}

#[test]
fn test_remove_clears_from_featured() {
    let mut registry = MarketplaceRegistry::new();
    registry.publish(make_plugin("io.draox.a", PluginCategory::Utility, 0)).unwrap();
    registry.set_featured(vec!["io.draox.a".to_string()]);
    registry.remove_plugin("io.draox.a");
    assert!(registry.list_featured().is_empty());
}

#[test]
fn registry_rating_rounds_to_tenths() {
    let mut registry = MarketplaceRegistry::new();
    registry.publish(make_plugin("p", PluginCategory::Other, 0)).unwrap();
    registry.add_review(review("r1", "p", 5)).unwrap();
    registry.add_review(review("r2", "p", 4)).unwrap();
    registry.add_review(review("r3", "p", 4)).unwrap();
    let got = registry.get_plugin("p").unwrap();
    assert_eq!(got.rating_tenths, 43);
    assert_eq!(got.rating_count, 3);
    registry.add_review(review("r4", "p", 1)).unwrap();
    assert_eq!(registry.get_plugin("p").unwrap().rating_tenths, 35);
}

#[test]
fn registry_daily_downloads_group_by_day() {
    let mut registry = MarketplaceRegistry::new();
    registry.publish(make_plugin("p", PluginCategory::Other, 0)).unwrap();
    registry.record_download_on("p", "2025-01-15");
    registry.record_download_on("p", "2025-01-15");
    registry.record_download_on("p", "2025-01-16");
    let a = registry.get_analytics("p").unwrap();
    assert_eq!(a.daily_downloads, vec![("2025-01-15".to_string(), 2), ("2025-01-16".to_string(), 1)]);
    assert_eq!(a.total_downloads, 3);
    registry.record_uninstall("p");
    assert_eq!(registry.get_analytics("p").unwrap().active_installs, 0);
}

#[test]
fn registry_search_sorts_filters_and_pages() {
    let mut registry = MarketplaceRegistry::new();
    let mut a = make_plugin("io.a", PluginCategory::Utility, 5);
    a.tags = vec!["chat".to_string(), "fun".to_string()];
    a.created_at = 3;
    let mut b = make_plugin("io.b", PluginCategory::Utility, 50);
    b.tags = vec!["chat".to_string()];
    b.created_at = 1;
    let mut c = make_plugin("io.c", PluginCategory::Gameplay, 20);
    c.tags = vec!["fun".to_string()];
    c.created_at = 2;
    registry.publish(a).unwrap();
    registry.publish(b).unwrap();
    registry.publish(c).unwrap();

    let ids = |r: Vec<MarketplacePlugin>| r.into_iter().map(|p| p.id).collect::<Vec<_>>();
    let all = registry.search(&SearchQuery::default());
    assert_eq!(all.total, 3);
    assert_eq!(ids(all.plugins), vec!["io.b", "io.c", "io.a"]);

    let q = SearchQuery { tags: vec!["chat".to_string(), "fun".to_string()], ..Default::default() };
    assert_eq!(ids(registry.search(&q).plugins), vec!["io.a"]);

    // the text also matches across the joined tags
    let q = SearchQuery { query: Some("CHAT FUN".to_string()), ..Default::default() };
    assert_eq!(ids(registry.search(&q).plugins), vec!["io.a"]);

    let q = SearchQuery { sort_by: SortBy::Newest, page: 2, page_size: 2, ..Default::default() };
    let page = registry.search(&q);
    assert_eq!(page.total, 3);
    assert_eq!(page.page, 2);
    assert_eq!(ids(page.plugins), vec!["io.b"]);

    let q = SearchQuery { page: 0, page_size: 0, ..Default::default() };
    let page = registry.search(&q);
    assert_eq!((page.page, page.page_size), (1, 1));
    assert_eq!(page.plugins.len(), 1);

    assert_eq!(ids(registry.list_newest(2)), vec!["io.a", "io.c"]);
    assert_eq!(ids(registry.list_by_category(PluginCategory::Utility)), vec!["io.a", "io.b"]);
}
