use draox_plugins::marketplace::{PluginCategory, SearchQuery, SortBy};
use draox_plugins::search::{popular, search_catalog, Listing};

fn listing(id: &str, name: &str, category: PluginCategory, downloads: u64, tags: &[&str]) -> Listing {
    Listing {
        id: id.to_string(),
        name: name.to_string(),
        description: format!("The {} plugin", name),
        tags: tags.iter().map(|t| t.to_string()).collect(),
        category,
        downloads,
        rating_rank: downloads % 7,
        created_at: downloads as i64,
        updated_at: 0,
    }
}

fn catalogue() -> Vec<Listing> {
    vec![
        listing("io.draox.clans", "Clans", PluginCategory::Gameplay, 500, &["guilds", "social"]),
        listing("io.draox.chat", "Chat Bridge", PluginCategory::Communication, 900, &["chat"]),
        listing("io.draox.anticheat", "AntiCheat", PluginCategory::Security, 300, &["security"]),
        listing("io.draox.stats", "Stats", PluginCategory::Analytics, 900, &["metrics", "social"]),
    ]
}

#[test]
fn search_by_text_ignores_case() {
    let q = SearchQuery { query: Some("CHAT".to_string()), ..SearchQuery::default() };
    let r = search_catalog(&catalogue(), &q);
    assert_eq!(r.plugins, vec![1]);
    assert_eq!(r.total, 1);
}

#[test]
fn search_by_category() {
    let q = SearchQuery { category: Some(PluginCategory::Security), ..SearchQuery::default() };
    let r = search_catalog(&catalogue(), &q);
    assert_eq!(r.plugins, vec![2]);
}

#[test]
fn search_by_any_tag() {
    let q = SearchQuery { tags: vec!["social".to_string(), "nothing".to_string()], ..SearchQuery::default() };
    let r = search_catalog(&catalogue(), &q);
    // Relevance orders by name: "Clans" before "Stats".
    assert_eq!(r.plugins, vec![0, 3]);
}

#[test]
fn downloads_sort_is_stable() {
    let q = SearchQuery { sort_by: SortBy::Downloads, ..SearchQuery::default() };
    let r = search_catalog(&catalogue(), &q);
    assert_eq!(r.plugins, vec![1, 3, 0, 2]);
    assert_eq!(r.total, 4);
}

#[test]
fn pagination_clamps_page_and_size() {
    let q = SearchQuery { sort_by: SortBy::Downloads, page: 0, page_size: 0, ..SearchQuery::default() };
    let r = search_catalog(&catalogue(), &q);
    assert_eq!((r.page, r.page_size), (1, 1));
    assert_eq!(r.plugins, vec![1]);

    let q = SearchQuery { sort_by: SortBy::Downloads, page: 2, page_size: 3, ..SearchQuery::default() };
    let r = search_catalog(&catalogue(), &q);
    assert_eq!(r.plugins, vec![2]);

    let q = SearchQuery { page: 9, page_size: 500, ..SearchQuery::default() };
    let r = search_catalog(&catalogue(), &q);
    assert_eq!(r.page_size, 100);
    assert!(r.plugins.is_empty());
    assert_eq!(r.total, 4);
}

#[test]
fn list_popular() {
    assert_eq!(popular(&catalogue(), 2), vec![1, 3]);
    assert_eq!(popular(&catalogue(), 10), vec![1, 3, 0, 2]);
    assert!(popular(&catalogue(), 0).is_empty());
}
