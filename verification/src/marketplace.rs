//! Marketplace catalogue types: categories, search queries, reviews,
//! analytics and the lightweight catalogue entry.
use vstd::prelude::*;
use std::collections::HashMap;

verus! {

/// Top-level category of a marketplace plugin.
#[derive(Debug, Clone, Copy, PartialEq, Eq, Hash, Structural)]
pub enum PluginCategory {
    Gameplay,
    Communication,
    Security,
    Analytics,
    Integration,
    Utility,
    Other,
}

/// Display name of a category.
pub open spec fn category_name(c: PluginCategory) -> Seq<char> {
    match c {
        PluginCategory::Gameplay => "Gameplay"@,
        PluginCategory::Communication => "Communication"@,
        PluginCategory::Security => "Security"@,
        PluginCategory::Analytics => "Analytics"@,
        PluginCategory::Integration => "Integration"@,
        PluginCategory::Utility => "Utility"@,
        PluginCategory::Other => "Other"@,
    }
}

/// The categories in declaration order.
pub open spec fn all_categories() -> Seq<PluginCategory> {
    seq![
        PluginCategory::Gameplay,
        PluginCategory::Communication,
        PluginCategory::Security,
        PluginCategory::Analytics,
        PluginCategory::Integration,
        PluginCategory::Utility,
        PluginCategory::Other,
    ]
}

impl PluginCategory {
    /// Display name of the category (its variant name).
    pub fn name(&self) -> (s: &'static str)
        ensures
            s@ == category_name(*self),
    {
        match self {
            PluginCategory::Gameplay => "Gameplay",
            PluginCategory::Communication => "Communication",
            PluginCategory::Security => "Security",
            PluginCategory::Analytics => "Analytics",
            PluginCategory::Integration => "Integration",
            PluginCategory::Utility => "Utility",
            PluginCategory::Other => "Other",
        }
    }

    /// Every known category, each once, in declaration order.
    pub fn all() -> (v: Vec<PluginCategory>)
        ensures
            v@ == all_categories(),
    {
        let v = vec![
            PluginCategory::Gameplay,
            PluginCategory::Communication,
            PluginCategory::Security,
            PluginCategory::Analytics,
            PluginCategory::Integration,
            PluginCategory::Utility,
            PluginCategory::Other,
        ];
        assert(v@ =~= all_categories());
        v
    }
}

/// Every category is listed by [`PluginCategory::all`], and only once.
pub proof fn lemma_all_categories_complete(c: PluginCategory)
    ensures
        all_categories().contains(c),
        all_categories().no_duplicates(),
{
    match c {
        PluginCategory::Gameplay => assert(all_categories()[0] == c),
        PluginCategory::Communication => assert(all_categories()[1] == c),
        PluginCategory::Security => assert(all_categories()[2] == c),
        PluginCategory::Analytics => assert(all_categories()[3] == c),
        PluginCategory::Integration => assert(all_categories()[4] == c),
        PluginCategory::Utility => assert(all_categories()[5] == c),
        PluginCategory::Other => assert(all_categories()[6] == c),
    }
}

/// Request body for submitting a review.
#[derive(Debug, Clone)]
pub struct NewReview {
    pub author_name: String,
    /// Rating from 1 to 5.
    pub rating: u8,
    pub title: Option<String>,
    pub body: Option<String>,
}

/// Address of the remote marketplace registry API.
#[derive(Debug, Clone)]
pub struct MarketplaceClient {
    pub base_url: String,
}

/// Address of the public marketplace.
pub const DEFAULT_MARKETPLACE_URL: &'static str = "https://marketplace.draox-server.io";

impl MarketplaceClient {
    /// A client for the registry at `base_url`.
    pub fn new(base_url: String) -> (c: Self)
        ensures
            c.base_url@ == base_url@,
    {
        MarketplaceClient { base_url }
    }
}

impl Default for MarketplaceClient {
    fn default() -> (c: Self)
        ensures
            c.base_url@ == DEFAULT_MARKETPLACE_URL@,
    {
        MarketplaceClient::new(DEFAULT_MARKETPLACE_URL.to_string())
    }
}

/// A dependency on another marketplace plugin.
#[derive(Debug, Clone)]
pub struct PluginDependency {
    pub plugin_id: String,
    pub version_requirement: String,
}

/// Criteria used to order search results.
#[derive(Debug, Clone, Copy, PartialEq, Eq, Structural)]
pub enum SortBy {
    Relevance,
    Downloads,
    Rating,
    Newest,
    Updated,
}

/// A marketplace search query.
#[derive(Debug, Clone)]
pub struct SearchQuery {
    pub query: Option<String>,
    pub category: Option<PluginCategory>,
    pub tags: Vec<String>,
    pub sort_by: SortBy,
    pub page: u32,
    pub page_size: u32,
}

impl Default for SearchQuery {
    /// No text, category or tags, by relevance, first page of 20.
    fn default() -> (q: Self)
        ensures
            q.query is None,
            q.category is None,
            q.tags@.len() == 0,
            q.sort_by == SortBy::Relevance,
            q.page == 1,
            q.page_size == 20,
    {
        SearchQuery {
            query: None,
            category: None,
            tags: Vec::new(),
            sort_by: SortBy::Relevance,
            page: 1,
            page_size: 20,
        }
    }
}

/// Download and install analytics of one plugin.
#[derive(Debug, Clone)]
pub struct PluginAnalytics {
    pub plugin_id: String,
    pub total_downloads: u64,
    pub active_installs: u64,
    /// Daily download counts, keyed by ISO-8601 date (e.g. "2025-01-15").
    pub daily_downloads: Vec<(String, u64)>,
    /// Install count per version string.
    pub version_distribution: HashMap<String, u64>,
}

/// Lightweight catalogue entry, as the simple sync tasks keep it.
#[derive(Debug, Clone)]
pub struct MarketplaceEntry {
    /// Reverse-domain plugin id (e.g. "io.draox.clans").
    pub plugin_id: String,
    /// Human-readable name.
    pub name: String,
    /// Semver version (e.g. "1.2.3").
    pub version: String,
    /// Short description shown in listings.
    pub description: Option<String>,
    /// Download URL of the `.dxp` package.
    pub download_url: String,
    /// SHA-256 hex digest of the package.
    pub checksum_sha256: String,
}

/// A plugin publisher. `joined_at` is in milliseconds since the Unix epoch.
#[derive(Debug, Clone)]
pub struct PublisherInfo {
    pub id: String,
    pub name: String,
    pub email: Option<String>,
    pub verified: bool,
    pub joined_at: i64,
}

fn copy_opt(o: &Option<String>) -> (r: Option<String>)
    ensures
        r == *o,
{
    match o {
        Some(s) => Some(s.clone()),
        None => None,
    }
}

impl PublisherInfo {
    /// A copy of the publisher.
    pub fn duplicate(&self) -> (r: Self)
        ensures
            r == *self,
    {
        PublisherInfo {
            id: self.id.clone(),
            name: self.name.clone(),
            email: copy_opt(&self.email),
            verified: self.verified,
            joined_at: self.joined_at,
        }
    }
}

/// Full metadata of a marketplace plugin. The rating is kept in tenths (an
/// average of 4.3 is 43); times are milliseconds since the Unix epoch.
#[derive(Debug, Clone)]
pub struct MarketplacePlugin {
    pub id: String,
    pub name: String,
    pub description: String,
    pub version: String,
    pub author: PublisherInfo,
    pub category: PluginCategory,
    pub tags: Vec<String>,
    pub downloads: u64,
    pub active_installs: u64,
    pub rating_tenths: u32,
    pub rating_count: u32,
    pub created_at: i64,
    pub updated_at: i64,
    pub is_paid: bool,
    pub price_cents: Option<u64>,
    pub featured: bool,
    /// SemVer requirement for server compatibility, e.g. ">=1.0.0".
    pub compatibility: String,
}

/// `a` holds the same values as `b` (tags compared by their text).
pub open spec fn same_plugin(a: MarketplacePlugin, b: MarketplacePlugin) -> bool {
    a == (MarketplacePlugin { tags: a.tags, ..b }) && a.tags@ == b.tags@
}

impl MarketplacePlugin {
    /// A copy of the plugin.
    pub fn duplicate(&self) -> (r: Self)
        ensures
            same_plugin(r, *self),
    {
        MarketplacePlugin {
            id: self.id.clone(),
            name: self.name.clone(),
            description: self.description.clone(),
            version: self.version.clone(),
            author: self.author.duplicate(),
            category: self.category,
            tags: crate::messaging_types::copy_strings(&self.tags),
            downloads: self.downloads,
            active_installs: self.active_installs,
            rating_tenths: self.rating_tenths,
            rating_count: self.rating_count,
            created_at: self.created_at,
            updated_at: self.updated_at,
            is_paid: self.is_paid,
            price_cents: self.price_cents,
            featured: self.featured,
            compatibility: self.compatibility.clone(),
        }
    }
}

impl PluginDependency {
    /// A copy of the dependency.
    pub fn duplicate(&self) -> (r: Self)
        ensures
            r == *self,
    {
        PluginDependency { plugin_id: self.plugin_id.clone(), version_requirement: self.version_requirement.clone() }
    }
}

/// A release of a plugin. `published_at` is in milliseconds since the Unix
/// epoch.
#[derive(Debug, Clone)]
pub struct PluginVersion {
    pub version: String,
    pub release_notes: String,
    pub min_server_version: String,
    pub published_at: i64,
    pub download_url: String,
    pub checksum: String,
    pub size_bytes: u64,
    pub dependencies: Vec<PluginDependency>,
}

/// `a` holds the same values as `b`.
pub open spec fn same_version(a: PluginVersion, b: PluginVersion) -> bool {
    a == (PluginVersion { dependencies: a.dependencies, ..b }) && a.dependencies@ == b.dependencies@
}

impl PluginVersion {
    /// A copy of the release.
    pub fn duplicate(&self) -> (r: Self)
        ensures
            same_version(r, *self),
    {
        let mut deps: Vec<PluginDependency> = Vec::new();
        let mut i: usize = 0;
        while i < self.dependencies.len()
            invariant
                i <= self.dependencies@.len(),
                deps@ == self.dependencies@.take(i as int),
            decreases self.dependencies.len() - i,
        {
            deps.push(self.dependencies[i].duplicate());
            i = i + 1;
            assert(deps@ =~= self.dependencies@.take(i as int));
        }
        assert(self.dependencies@.take(self.dependencies@.len() as int) =~= self.dependencies@);
        PluginVersion {
            version: self.version.clone(),
            release_notes: self.release_notes.clone(),
            min_server_version: self.min_server_version.clone(),
            published_at: self.published_at,
            download_url: self.download_url.clone(),
            checksum: self.checksum.clone(),
            size_bytes: self.size_bytes,
            dependencies: deps,
        }
    }
}

/// A user review of a plugin. `created_at` is in milliseconds since the
/// Unix epoch.
#[derive(Debug, Clone)]
pub struct PluginReview {
    pub id: String,
    pub plugin_id: String,
    pub reviewer: String,
    /// Rating from 1 to 5.
    pub rating: u8,
    pub comment: String,
    pub created_at: i64,
}

impl PluginReview {
    /// A copy of the review.
    pub fn duplicate(&self) -> (r: Self)
        ensures
            r == *self,
    {
        PluginReview {
            id: self.id.clone(),
            plugin_id: self.plugin_id.clone(),
            reviewer: self.reviewer.clone(),
            rating: self.rating,
            comment: self.comment.clone(),
            created_at: self.created_at,
        }
    }
}

/// One page of marketplace search results.
#[derive(Debug, Clone)]
pub struct SearchResult {
    pub plugins: Vec<MarketplacePlugin>,
    pub total: u64,
    pub page: u32,
    pub page_size: u32,
}

impl PluginAnalytics {
    /// A copy of the analytics.
    pub fn duplicate(&self) -> (r: Self)
        ensures
            r.plugin_id == self.plugin_id,
            r.total_downloads == self.total_downloads,
            r.active_installs == self.active_installs,
            r.daily_downloads@ == self.daily_downloads@,
            r.version_distribution@ == self.version_distribution@,
    {
        let mut daily: Vec<(String, u64)> = Vec::new();
        let mut i: usize = 0;
        while i < self.daily_downloads.len()
            invariant
                i <= self.daily_downloads@.len(),
                daily@ == self.daily_downloads@.take(i as int),
            decreases self.daily_downloads.len() - i,
        {
            daily.push((self.daily_downloads[i].0.clone(), self.daily_downloads[i].1));
            i = i + 1;
            assert(daily@ =~= self.daily_downloads@.take(i as int));
        }
        assert(self.daily_downloads@.take(self.daily_downloads@.len() as int) =~= self.daily_downloads@);
        PluginAnalytics {
            plugin_id: self.plugin_id.clone(),
            total_downloads: self.total_downloads,
            active_installs: self.active_installs,
            daily_downloads: daily,
            version_distribution: self.version_distribution.clone(),
        }
    }
}

} // verus!
