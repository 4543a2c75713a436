use draox_plugins::marketplace::{MarketplaceClient, PluginCategory, SearchQuery, SortBy};

#[test]
fn test_plugin_category_display() {
    assert_eq!(PluginCategory::Gameplay.name(), "Gameplay");
    assert_eq!(PluginCategory::Communication.name(), "Communication");
    assert_eq!(PluginCategory::Security.name(), "Security");
    assert_eq!(PluginCategory::Other.name(), "Other");
}

#[test]
fn test_default_search_query() {
    let q = SearchQuery::default();
    assert!(q.query.is_none());
    assert!(q.category.is_none());
    assert!(q.tags.is_empty());
    assert_eq!(q.page, 1);
    assert_eq!(q.page_size, 20);
    assert_eq!(q.sort_by, SortBy::Relevance);
}

#[test]
fn all_categories_in_order() {
    let all = PluginCategory::all();
    assert_eq!(all.len(), 7);
    assert_eq!(all[0], PluginCategory::Gameplay);
    assert_eq!(all[6], PluginCategory::Other);
}

#[test]
fn marketplace_client_urls() {
    assert_eq!(MarketplaceClient::new("http://localhost:9000".to_string()).base_url, "http://localhost:9000");
    assert_eq!(MarketplaceClient::default().base_url, "https://marketplace.draox-server.io");
}
