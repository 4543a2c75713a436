//! Client of a marketplace registry. In local mode it answers from an
//! in-memory registry; a remote registry is not reachable yet and every
//! request to one is refused.
use vstd::prelude::*;
use crate::marketplace::{same_plugin, same_version, MarketplacePlugin, PluginReview, PluginVersion, SearchQuery, SearchResult};
use crate::marketplace_registry::{
    catalog_hits, keys_match, picked, plugin_copies, resolve_plugins, sort_key, MarketplaceRegistry,
};
use crate::search::{is_full_ranking, page_slice, Listing};
use crate::marketplace::SortBy;
use std::sync::Arc;

verus! {

/// The answer to every request when no local registry is set.
pub open spec fn remote_refusal() -> Seq<char> {
    "remote marketplace not yet implemented — use with_local_registry"@
}

/// Client of a marketplace registry.
pub struct RegistryClient {
    /// Remote registry URL (`local://` in local mode).
    pub registry_url: String,
    local_registry: Option<Arc<MarketplaceRegistry>>,
}

impl RegistryClient {
    /// The in-memory registry answering requests, if any.
    pub closed spec fn local_state(self) -> Option<MarketplaceRegistry> {
        match self.local_registry {
            Some(r) => Some(*r),
            None => None,
        }
    }

    /// The registry URL.
    pub closed spec fn url(self) -> Seq<char> {
        self.registry_url@
    }

    /// The local registry, when set, is well formed.
    pub open spec fn wf(self) -> bool {
        self.local_state() matches Some(r) ==> r.wf()
    }

    /// A client of the remote registry at `registry_url`.
    pub fn new(registry_url: &str) -> (c: Self)
        ensures
            c.wf(),
            c.url() == registry_url@,
            c.local_state() is None,
    {
        RegistryClient { registry_url: registry_url.to_string(), local_registry: None }
    }

    /// A client answering from `registry`.
    pub fn with_local_registry(registry: Arc<MarketplaceRegistry>) -> (c: Self)
        requires
            registry.wf(),
        ensures
            c.wf(),
            c.url() == "local://"@,
            c.local_state() == Some(*registry),
    {
        RegistryClient { registry_url: "local://".to_string(), local_registry: Some(registry) }
    }

    fn local(&self) -> (r: Result<&MarketplaceRegistry, String>)
        ensures
            match self.local_state() {
                Some(reg) => r matches Ok(x) && *x == reg,
                None => r matches Err(m) && m@ == remote_refusal(),
            },
    {
        match &self.local_registry {
            Some(r) => Ok(&**r),
            None => Err("remote marketplace not yet implemented — use with_local_registry".to_string()),
        }
    }

    /// Searches the marketplace.
    pub fn search(&self, query: &SearchQuery) -> (r: Result<SearchResult, String>)
        requires
            self.local_state() is Some ==> ((if query.page < 1 { 1 } else { query.page }) - 1) * (if query.page_size < 1 { 1 } else { query.page_size }) <= u32::MAX,
        ensures
            self.local_state() is None ==> (r matches Err(m) && m@ == remote_refusal()),
            self.local_state() matches Some(reg) ==> (r matches Ok(res) && res.page == (if query.page < 1 { 1 } else { query.page })
                && res.page_size == (if query.page_size < 1 { 1 } else { query.page_size })
                && res.total == catalog_hits(reg.catalog(), *query).len()
                && exists|ls: Seq<Listing>, all: Seq<usize>| #[trigger] keys_match(ls, catalog_hits(reg.catalog(), *query))
                    && #[trigger] is_full_ranking(sort_key(query.sort_by), ls, all) && plugin_copies(
                    res.plugins@,
                    picked(catalog_hits(reg.catalog(), *query), page_slice(all, (res.page - 1) * res.page_size, res.page_size as int)),
                )),
    {
        Ok(self.local()?.search(query))
    }

    /// The plugin with id `id`, if published.
    pub fn get_plugin(&self, id: &str) -> (r: Result<Option<MarketplacePlugin>, String>)
        requires
            self.wf(),
        ensures
            self.local_state() is None ==> (r matches Err(m) && m@ == remote_refusal()),
            self.local_state() matches Some(reg) ==> (r matches Ok(p) && (p is Some <==> reg.plugin(id@) is Some)
                && (p matches Some(q) ==> same_plugin(q, reg.plugin(id@)->Some_0))),
    {
        Ok(self.local()?.get_plugin(id))
    }

    /// The releases of plugin `id`, oldest first.
    pub fn get_versions(&self, id: &str) -> (r: Result<Vec<PluginVersion>, String>)
        requires
            self.wf(),
        ensures
            self.local_state() is None ==> (r matches Err(m) && m@ == remote_refusal()),
            self.local_state() matches Some(reg) ==> (r matches Ok(v) && v@.len() == reg.versions_of(id@).len()
                && forall|k: int| 0 <= k < v@.len() ==> same_version(#[trigger] v@[k], reg.versions_of(id@)[k])),
    {
        Ok(self.local()?.get_versions(id))
    }

    /// The reviews of plugin `id`, oldest first.
    pub fn get_reviews(&self, id: &str) -> (r: Result<Vec<PluginReview>, String>)
        requires
            self.wf(),
        ensures
            self.local_state() is None ==> (r matches Err(m) && m@ == remote_refusal()),
            self.local_state() matches Some(reg) ==> (r matches Ok(v) && v@ == reg.reviews_of(id@)),
    {
        Ok(self.local()?.get_reviews(id))
    }

    /// The featured plugins, in the featured order.
    pub fn get_featured(&self) -> (r: Result<Vec<MarketplacePlugin>, String>)
        requires
            self.wf(),
        ensures
            self.local_state() is None ==> (r matches Err(m) && m@ == remote_refusal()),
            self.local_state() matches Some(reg) ==> (r matches Ok(v) && plugin_copies(v@, resolve_plugins(reg.catalog(), reg.featured_ids()))),
    {
        Ok(self.local()?.list_featured())
    }

    /// The `limit` most downloaded plugins.
    pub fn get_popular(&self, limit: usize) -> (r: Result<Vec<MarketplacePlugin>, String>)
        ensures
            self.local_state() is None ==> (r matches Err(m) && m@ == remote_refusal()),
            self.local_state() matches Some(reg) ==> (r matches Ok(v) && exists|ls: Seq<Listing>, all: Seq<usize>|
                #[trigger] keys_match(ls, reg.catalog()) && #[trigger] is_full_ranking(SortBy::Downloads, ls, all)
                && plugin_copies(v@, picked(reg.catalog(), if limit < all.len() { all.subrange(0, limit as int) } else { all }))),
    {
        Ok(self.local()?.list_popular(limit))
    }
}

} // verus!
