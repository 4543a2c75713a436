//! The local catalogue registry: a read-through mirror of the remote
//! marketplace that keeps lightweight entries and full plugin records,
//! with their releases, reviews, publishers and analytics, and answers
//! searches and listings from them.
use vstd::prelude::*;
use crate::keyed::{
    distinct_idents, entry_for, find_in, find_key, lemma_entry_at, lemma_entry_none, lemma_position_at, lemma_remove_at,
    list_of, position_in, push_to_entry, set_entry, unique_keys, upsert, upsert_at, Identified,
};
use crate::marketplace::{
    same_plugin, same_version, MarketplaceEntry, MarketplacePlugin, PluginAnalytics, PluginReview, PluginVersion,
    PublisherInfo, SearchQuery, SearchResult, SortBy,
};
use crate::marketplace_registry::{keys_match, listing_for, listings_describe, listings_of, pick, picked, plugin_copies};
use crate::search::{effective_page, effective_page_size, is_full_ranking, is_ordered_matches, page_slice, popular as rank_popular, search_catalog, Listing};
use crate::text::{push_str, str_equal};

verus! {

impl Identified for MarketplaceEntry {
    open spec fn ident(&self) -> Seq<char> {
        self.plugin_id@
    }
}

impl MarketplaceEntry {
    /// A copy of the entry.
    pub fn duplicate(&self) -> (r: Self)
        ensures
            r == *self,
    {
        MarketplaceEntry {
            plugin_id: self.plugin_id.clone(),
            name: self.name.clone(),
            version: self.version.clone(),
            description: match &self.description {
                Some(d) => Some(d.clone()),
                None => None,
            },
            download_url: self.download_url.clone(),
            checksum_sha256: self.checksum_sha256.clone(),
        }
    }
}

/// The featured plugins of `ps`, in order.
pub open spec fn featured_of(ps: Seq<MarketplacePlugin>) -> Seq<MarketplacePlugin>
    decreases ps.len(),
{
    if ps.len() == 0 {
        ps
    } else {
        let r = featured_of(ps.drop_last());
        if ps.last().featured { r.push(ps.last()) } else { r }
    }
}

/// Local mirror of the marketplace catalogue.
pub struct MarketplaceRegistry {
    entries: Vec<MarketplaceEntry>,
    plugins: Vec<MarketplacePlugin>,
    versions: Vec<(String, Vec<PluginVersion>)>,
    reviews: Vec<(String, Vec<PluginReview>)>,
    publishers: Vec<PublisherInfo>,
    analytics: Vec<(String, PluginAnalytics)>,
}

impl MarketplaceRegistry {
    /// The lightweight entries, one per plugin id.
    pub closed spec fn entry_list(self) -> Seq<MarketplaceEntry> {
        self.entries@
    }

    /// The full plugin records, one per id.
    pub closed spec fn catalog(self) -> Seq<MarketplacePlugin> {
        self.plugins@
    }

    /// The releases of plugin `id`, oldest first.
    pub closed spec fn versions_of(self, id: Seq<char>) -> Seq<PluginVersion> {
        list_of(entry_for(self.versions@, id))
    }

    /// The reviews of plugin `id`, oldest first.
    pub closed spec fn reviews_of(self, id: Seq<char>) -> Seq<PluginReview> {
        list_of(entry_for(self.reviews@, id))
    }

    /// The publishers, one per id.
    pub closed spec fn publisher_list(self) -> Seq<PublisherInfo> {
        self.publishers@
    }

    /// The analytics of plugin `id`, if any.
    pub closed spec fn analytics_of(self, id: Seq<char>) -> Option<PluginAnalytics> {
        entry_for(self.analytics@, id)
    }

    /// One record per id in every index.
    pub closed spec fn wf(self) -> bool {
        &&& distinct_idents(self.entries@)
        &&& distinct_idents(self.plugins@)
        &&& distinct_idents(self.publishers@)
        &&& unique_keys(self.versions@)
        &&& unique_keys(self.reviews@)
        &&& unique_keys(self.analytics@)
    }

    /// Everything but the lightweight entries is as in `other`.
    pub open spec fn same_records(self, other: Self) -> bool {
        &&& self.catalog() == other.catalog()
        &&& self.publisher_list() == other.publisher_list()
        &&& forall|id: Seq<char>| #[trigger] self.versions_of(id) == other.versions_of(id)
        &&& forall|id: Seq<char>| #[trigger] self.reviews_of(id) == other.reviews_of(id)
        &&& forall|id: Seq<char>| #[trigger] self.analytics_of(id) == other.analytics_of(id)
    }

    /// An empty registry.
    pub fn new() -> (r: Self)
        ensures
            r.wf(),
            r.entry_list().len() == 0,
            r.catalog().len() == 0,
            r.publisher_list().len() == 0,
            forall|id: Seq<char>| #[trigger] r.versions_of(id).len() == 0,
            forall|id: Seq<char>| #[trigger] r.reviews_of(id).len() == 0,
            forall|id: Seq<char>| #[trigger] r.analytics_of(id) is None,
    {
        MarketplaceRegistry {
            entries: Vec::new(),
            plugins: Vec::new(),
            versions: Vec::new(),
            reviews: Vec::new(),
            publishers: Vec::new(),
            analytics: Vec::new(),
        }
    }

    fn entry_pos(&self, id: &str) -> (r: Option<usize>)
        requires
            self.wf(),
        ensures
            match r {
                Some(i) => i < self.entry_list().len() && position_in(self.entry_list(), id@) == Some(i as int),
                None => position_in(self.entry_list(), id@) is None,
            },
    {
        let mut i: usize = 0;
        while i < self.entries.len()
            invariant
                self.wf(),
                i <= self.entries@.len(),
                forall|k: int| 0 <= k < i ==> (#[trigger] self.entries@[k]).ident() != id@,
            decreases self.entries.len() - i,
        {
            if str_equal(self.entries[i].plugin_id.as_str(), id) {
                proof {
                    lemma_position_at(self.entries@, i as int);
                }
                return Some(i);
            }
            i = i + 1;
        }
        None
    }

    fn plugin_pos(&self, id: &str) -> (r: Option<usize>)
        requires
            self.wf(),
        ensures
            match r {
                Some(i) => i < self.catalog().len() && position_in(self.catalog(), id@) == Some(i as int),
                None => position_in(self.catalog(), id@) is None,
            },
    {
        let mut i: usize = 0;
        while i < self.plugins.len()
            invariant
                self.wf(),
                i <= self.plugins@.len(),
                forall|k: int| 0 <= k < i ==> (#[trigger] self.plugins@[k]).ident() != id@,
            decreases self.plugins.len() - i,
        {
            if str_equal(self.plugins[i].id.as_str(), id) {
                proof {
                    lemma_position_at(self.plugins@, i as int);
                }
                return Some(i);
            }
            i = i + 1;
        }
        None
    }

    fn publisher_pos(&self, id: &str) -> (r: Option<usize>)
        requires
            self.wf(),
        ensures
            match r {
                Some(i) => i < self.publisher_list().len() && position_in(self.publisher_list(), id@) == Some(i as int),
                None => position_in(self.publisher_list(), id@) is None,
            },
    {
        let mut i: usize = 0;
        while i < self.publishers.len()
            invariant
                self.wf(),
                i <= self.publishers@.len(),
                forall|k: int| 0 <= k < i ==> (#[trigger] self.publishers@[k]).ident() != id@,
            decreases self.publishers.len() - i,
        {
            if str_equal(self.publishers[i].id.as_str(), id) {
                proof {
                    lemma_position_at(self.publishers@, i as int);
                }
                return Some(i);
            }
            i = i + 1;
        }
        None
    }

    /// Inserts or replaces a lightweight entry.
    pub fn upsert(&mut self, entry: MarketplaceEntry)
        requires
            old(self).wf(),
        ensures
            final(self).wf(),
            final(self).entry_list() == upsert(old(self).entry_list(), entry),
            final(self).same_records(*old(self)),
    {
        let pos = self.entry_pos(entry.plugin_id.as_str());
        upsert_at(&mut self.entries, pos, entry);
    }

    /// Removes the lightweight entry of `plugin_id`; whether there was one.
    pub fn remove(&mut self, plugin_id: &str) -> (b: bool)
        requires
            old(self).wf(),
        ensures
            final(self).wf(),
            b == find_in(old(self).entry_list(), plugin_id@) is Some,
            find_in(final(self).entry_list(), plugin_id@) is None,
            forall|u: Seq<char>| u != plugin_id@ ==> #[trigger] find_in(final(self).entry_list(), u) == find_in(old(self).entry_list(), u),
            final(self).same_records(*old(self)),
    {
        match self.entry_pos(plugin_id) {
            Some(i) => {
                proof {
                    lemma_remove_at(self.entries@, i as int);
                }
                self.entries.remove(i);
                true
            },
            None => false,
        }
    }

    /// Copies of the lightweight entries.
    pub fn all(&self) -> (v: Vec<MarketplaceEntry>)
        ensures
            v@ == self.entry_list(),
    {
        let mut v: Vec<MarketplaceEntry> = Vec::new();
        let mut i: usize = 0;
        while i < self.entries.len()
            invariant
                i <= self.entries@.len(),
                v@ == self.entries@.take(i as int),
            decreases self.entries.len() - i,
        {
            v.push(self.entries[i].duplicate());
            i = i + 1;
            proof {
                assert(v@ =~= self.entries@.take(i as int));
            }
        }
        assert(self.entries@.take(self.entries@.len() as int) =~= self.entries@);
        v
    }

    /// Number of lightweight entries.
    pub fn len(&self) -> (n: usize)
        ensures
            n == self.entry_list().len(),
    {
        self.entries.len()
    }

    /// Whether there is no lightweight entry.
    pub fn is_empty(&self) -> (b: bool)
        ensures
            b == (self.entry_list().len() == 0),
    {
        self.entries.len() == 0
    }

    /// A copy of the lightweight entry of `plugin_id`, if any.
    pub fn get_entry(&self, plugin_id: &str) -> (r: Option<MarketplaceEntry>)
        requires
            self.wf(),
        ensures
            r == find_in(self.entry_list(), plugin_id@),
    {
        match self.entry_pos(plugin_id) {
            Some(i) => Some(self.entries[i].duplicate()),
            None => None,
        }
    }

    /// Inserts or replaces a full plugin record.
    pub fn upsert_plugin(&mut self, plugin: MarketplacePlugin)
        requires
            old(self).wf(),
        ensures
            final(self).wf(),
            final(self).catalog() == upsert(old(self).catalog(), plugin),
            final(self).entry_list() == old(self).entry_list(),
            final(self).publisher_list() == old(self).publisher_list(),
    {
        let pos = self.plugin_pos(plugin.id.as_str());
        upsert_at(&mut self.plugins, pos, plugin);
    }

    /// A copy of the record of `plugin_id`, if any.
    pub fn get(&self, plugin_id: &str) -> (r: Option<MarketplacePlugin>)
        requires
            self.wf(),
        ensures
            r is Some <==> find_in(self.catalog(), plugin_id@) is Some,
            r matches Some(p) ==> same_plugin(p, find_in(self.catalog(), plugin_id@)->Some_0),
    {
        match self.plugin_pos(plugin_id) {
            Some(i) => Some(self.plugins[i].duplicate()),
            None => None,
        }
    }

    /// Publishes a plugin; refused when its id is already published.
    pub fn publish(&mut self, plugin: MarketplacePlugin) -> (r: Result<(), String>)
        requires
            old(self).wf(),
        ensures
            final(self).wf(),
            r is Err <==> find_in(old(self).catalog(), plugin.id@) is Some,
            r matches Err(m) ==> m@ == "plugin '"@ + plugin.id@ + "' already published"@ && *final(self) == *old(self),
            r is Ok ==> final(self).catalog() == old(self).catalog().push(plugin),
            final(self).entry_list() == old(self).entry_list(),
            final(self).publisher_list() == old(self).publisher_list(),
    {
        match self.plugin_pos(plugin.id.as_str()) {
            Some(_) => {
                let mut m = String::new();
                push_str(&mut m, "plugin '");
                push_str(&mut m, plugin.id.as_str());
                push_str(&mut m, "' already published");
                Err(m)
            },
            None => {
                upsert_at(&mut self.plugins, None, plugin);
                Ok(())
            },
        }
    }

    /// Searches the records: those passing the query's category, text (in
    /// name, description or a tag, ignoring case) and tag filters (any one
    /// tag), ordered by its criterion (relevance by name; ties in record
    /// order), and the requested page (page at least 1, size clamped to
    /// 1..=100).
    pub fn search(&self, query: &SearchQuery) -> (r: SearchResult)
        requires
            (effective_page(*query) - 1) * effective_page_size(*query) <= u32::MAX,
        ensures
            r.page == effective_page(*query),
            r.page_size == effective_page_size(*query),
            exists|ls: Seq<Listing>, all: Seq<usize>| #[trigger] listings_describe(ls, self.catalog())
                && #[trigger] is_ordered_matches(ls, *query, all) && r.total == all.len()
                && plugin_copies(r.plugins@, picked(self.catalog(), page_slice(all, (r.page - 1) * r.page_size, r.page_size as int))),
    {
        let ls = listings_of(&self.plugins);
        let found = search_catalog(&ls, query);
        let ghost all = choose|all: Seq<usize>| #[trigger] is_ordered_matches(ls@, *query, all) && found.total == all.len()
            && found.plugins@ == page_slice(all, (found.page - 1) * found.page_size, found.page_size as int);
        proof {
            assert forall|k: int| 0 <= k < found.plugins@.len() implies (#[trigger] found.plugins@[k]) < self.plugins@.len() by {
                let off = (found.page - 1) * found.page_size;
                assert(found.plugins@[k] == all[off + k]);
                assert(all[off + k] < ls@.len());
            }
        }
        let plugins = pick(&self.plugins, &found.plugins);
        proof {
            assert(listings_describe(ls@, self.catalog()) && is_ordered_matches(ls@, *query, all));
        }
        SearchResult { plugins, total: found.total, page: found.page, page_size: found.page_size }
    }

    /// Copies of the featured records, in record order.
    pub fn featured(&self) -> (r: Vec<MarketplacePlugin>)
        ensures
            plugin_copies(r@, featured_of(self.catalog())),
    {
        let mut r: Vec<MarketplacePlugin> = Vec::new();
        let mut i: usize = 0;
        while i < self.plugins.len()
            invariant
                i <= self.plugins@.len(),
                plugin_copies(r@, featured_of(self.plugins@.take(i as int))),
            decreases self.plugins.len() - i,
        {
            proof {
                assert(self.plugins@.take(i + 1).drop_last() =~= self.plugins@.take(i as int));
                assert(self.plugins@.take(i + 1).last() == self.plugins@[i as int]);
            }
            let ghost before = r@;
            if self.plugins[i].featured {
                r.push(self.plugins[i].duplicate());
                proof {
                    let f = featured_of(self.plugins@.take(i + 1));
                    assert forall|k: int| 0 <= k < r@.len() implies same_plugin(#[trigger] r@[k], f[k]) by {
                        if k < before.len() {
                            assert(r@[k] == before[k]);
                        }
                    }
                }
            }
            i = i + 1;
        }
        proof {
            assert(self.plugins@.take(self.plugins@.len() as int) =~= self.plugins@);
        }
        r
    }

    /// Copies of the `limit` most downloaded records (ties in record order).
    pub fn popular(&self, limit: usize) -> (r: Vec<MarketplacePlugin>)
        ensures
            exists|ls: Seq<Listing>, all: Seq<usize>| #[trigger] keys_match(ls, self.catalog()) && #[trigger] is_full_ranking(SortBy::Downloads, ls, all)
                && plugin_copies(r@, picked(self.catalog(), if limit < all.len() { all.subrange(0, limit as int) } else { all })),
    {
        let ls = listings_of(&self.plugins);
        let top = rank_popular(&ls, limit);
        let ghost all = choose|all: Seq<usize>| #[trigger] is_full_ranking(SortBy::Downloads, ls@, all)
            && top@ == (if limit < all.len() { all.subrange(0, limit as int) } else { all });
        proof {
            crate::search::lemma_full_ranking_len(SortBy::Downloads, ls@, all);
            assert forall|k: int| 0 <= k < top@.len() implies (#[trigger] top@[k]) < self.plugins@.len() by {
                assert(top@[k] == all[k]);
            }
        }
        let r = pick(&self.plugins, &top);
        proof {
            assert(keys_match(ls@, self.catalog()) && is_full_ranking(SortBy::Downloads, ls@, all));
        }
        r
    }

    /// Copies of the releases of `plugin_id`, oldest first.
    pub fn get_versions(&self, plugin_id: &str) -> (r: Vec<PluginVersion>)
        requires
            self.wf(),
        ensures
            r@.len() == self.versions_of(plugin_id@).len(),
            forall|k: int| 0 <= k < r@.len() ==> same_version(#[trigger] r@[k], self.versions_of(plugin_id@)[k]),
    {
        match find_key(&self.versions, plugin_id) {
            Some(e) => {
                proof {
                    lemma_entry_at(self.versions@, plugin_id@, e as int);
                }
                let vs = &self.versions[e].1;
                let mut out: Vec<PluginVersion> = Vec::new();
                let mut i: usize = 0;
                while i < vs.len()
                    invariant
                        i <= vs@.len(),
                        out@.len() == i,
                        forall|k: int| 0 <= k < i ==> same_version(#[trigger] out@[k], vs@[k]),
                    decreases vs.len() - i,
                {
                    out.push(vs[i].duplicate());
                    i = i + 1;
                }
                out
            },
            None => {
                proof {
                    lemma_entry_none(self.versions@, plugin_id@);
                }
                Vec::new()
            },
        }
    }

    /// Adds a release of `plugin_id`.
    pub fn add_version(&mut self, plugin_id: &str, version: PluginVersion)
        requires
            old(self).wf(),
        ensures
            final(self).wf(),
            final(self).versions_of(plugin_id@) == old(self).versions_of(plugin_id@).push(version),
            forall|u: Seq<char>| u != plugin_id@ ==> #[trigger] final(self).versions_of(u) == old(self).versions_of(u),
            final(self).catalog() == old(self).catalog(),
            final(self).entry_list() == old(self).entry_list(),
    {
        push_to_entry(&mut self.versions, plugin_id, version);
    }

    /// Copies of the reviews of `plugin_id`, oldest first.
    pub fn get_reviews(&self, plugin_id: &str) -> (r: Vec<PluginReview>)
        requires
            self.wf(),
        ensures
            r@ == self.reviews_of(plugin_id@),
    {
        match find_key(&self.reviews, plugin_id) {
            Some(e) => {
                proof {
                    lemma_entry_at(self.reviews@, plugin_id@, e as int);
                }
                let rs = &self.reviews[e].1;
                let mut out: Vec<PluginReview> = Vec::new();
                let mut i: usize = 0;
                while i < rs.len()
                    invariant
                        i <= rs@.len(),
                        out@ == rs@.take(i as int),
                    decreases rs.len() - i,
                {
                    out.push(rs[i].duplicate());
                    i = i + 1;
                    proof {
                        assert(out@ =~= rs@.take(i as int));
                    }
                }
                assert(rs@.take(rs@.len() as int) =~= rs@);
                out
            },
            None => {
                proof {
                    lemma_entry_none(self.reviews@, plugin_id@);
                }
                Vec::new()
            },
        }
    }

    /// Adds a review under its plugin.
    pub fn add_review(&mut self, review: PluginReview)
        requires
            old(self).wf(),
        ensures
            final(self).wf(),
            final(self).reviews_of(review.plugin_id@) == old(self).reviews_of(review.plugin_id@).push(review),
            forall|u: Seq<char>| u != review.plugin_id@ ==> #[trigger] final(self).reviews_of(u) == old(self).reviews_of(u),
            final(self).catalog() == old(self).catalog(),
    {
        let key = review.plugin_id.clone();
        push_to_entry(&mut self.reviews, key.as_str(), review);
    }

    /// A copy of the publisher `publisher_id`, if any.
    pub fn get_publisher(&self, publisher_id: &str) -> (r: Option<PublisherInfo>)
        requires
            self.wf(),
        ensures
            r == find_in(self.publisher_list(), publisher_id@),
    {
        match self.publisher_pos(publisher_id) {
            Some(i) => Some(self.publishers[i].duplicate()),
            None => None,
        }
    }

    /// Inserts or replaces a publisher.
    pub fn upsert_publisher(&mut self, publisher: PublisherInfo)
        requires
            old(self).wf(),
        ensures
            final(self).wf(),
            final(self).publisher_list() == upsert(old(self).publisher_list(), publisher),
            final(self).catalog() == old(self).catalog(),
    {
        let pos = self.publisher_pos(publisher.id.as_str());
        upsert_at(&mut self.publishers, pos, publisher);
    }

    /// A copy of the analytics of `plugin_id`, if any.
    pub fn get_analytics(&self, plugin_id: &str) -> (r: Option<PluginAnalytics>)
        requires
            self.wf(),
        ensures
            r is Some <==> self.analytics_of(plugin_id@) is Some,
            r matches Some(a) ==> {
                let b = self.analytics_of(plugin_id@)->Some_0;
                &&& a.plugin_id == b.plugin_id
                &&& a.total_downloads == b.total_downloads
                &&& a.active_installs == b.active_installs
                &&& a.daily_downloads@ == b.daily_downloads@
                &&& a.version_distribution@ == b.version_distribution@
            },
    {
        match find_key(&self.analytics, plugin_id) {
            Some(i) => {
                proof {
                    lemma_entry_at(self.analytics@, plugin_id@, i as int);
                }
                Some(self.analytics[i].1.duplicate())
            },
            None => {
                proof {
                    lemma_entry_none(self.analytics@, plugin_id@);
                }
                None
            },
        }
    }

    /// Inserts or replaces the analytics of their plugin.
    pub fn upsert_analytics(&mut self, analytics: PluginAnalytics)
        requires
            old(self).wf(),
        ensures
            final(self).wf(),
            final(self).analytics_of(analytics.plugin_id@) == Some(analytics),
            forall|u: Seq<char>| u != analytics.plugin_id@ ==> #[trigger] final(self).analytics_of(u) == old(self).analytics_of(u),
            final(self).catalog() == old(self).catalog(),
    {
        let key = analytics.plugin_id.clone();
        set_entry(&mut self.analytics, key, analytics);
    }
}

impl Default for MarketplaceRegistry {
    /// An empty registry.
    fn default() -> (r: Self)
        ensures
            r.wf(),
            r.entry_list().len() == 0,
            r.catalog().len() == 0,
            r.publisher_list().len() == 0,
    {
        MarketplaceRegistry::new()
    }
}

} // verus!
