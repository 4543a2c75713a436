//! In-memory marketplace registry: published plugins with their releases,
//! reviews and analytics, the publishers, and the featured list.
use vstd::prelude::*;
use crate::channel::without;
use crate::keyed::{
    distinct_idents, entry_for, find_in, find_key, lemma_entry_at, lemma_entry_none, lemma_entry_push, lemma_entry_set,
    lemma_position_at, lemma_push_new, lemma_remove_at, lemma_update_same_ident, list_of, position_in, push_to_entry,
    remove_entry, unique_keys, Identified,
};
use crate::marketplace::{
    same_plugin, same_version, MarketplacePlugin, PluginAnalytics, PluginReview, PluginVersion, PublisherInfo,
};
use crate::store::strings_without;
use crate::search::{is_full_ranking, page_slice, rank_all, Listing};
use crate::marketplace::{PluginCategory, SearchQuery, SearchResult, SortBy};
use crate::text::{chars_contain, chars_of, contains_seq, lowercase, push_char, unicode_lowercase};
use crate::text::{push_str, str_equal};
use crate::version::{dec_str, push_decimal};
use std::collections::HashMap;

verus! {

impl Identified for MarketplacePlugin {
    open spec fn ident(&self) -> Seq<char> {
        self.id@
    }
}

impl Identified for PublisherInfo {
    open spec fn ident(&self) -> Seq<char> {
        self.id@
    }
}

/// Sum of the ratings of `rs`.
pub open spec fn rating_sum(rs: Seq<PluginReview>) -> int
    decreases rs.len(),
{
    if rs.len() == 0 {
        0
    } else {
        rating_sum(rs.drop_last()) + rs.last().rating as int
    }
}

/// The average rating of `rs` in tenths, rounded to the nearest tenth
/// (halves up).
pub open spec fn average_tenths(rs: Seq<PluginReview>) -> int {
    (20 * rating_sum(rs) + rs.len()) / (2 * rs.len() as int)
}

/// `a` is the analytics a plugin starts with: no download, no install.
pub open spec fn fresh_analytics(a: PluginAnalytics, id: Seq<char>) -> bool {
    &&& a.plugin_id@ == id
    &&& a.total_downloads == 0
    &&& a.active_installs == 0
    &&& a.daily_downloads@.len() == 0
    &&& a.version_distribution@ == Map::<String, u64>::empty()
}

/// Position of the first day entry for `day`, if any.
pub open spec fn day_position(days: Seq<(String, u64)>, day: Seq<char>) -> Option<int> {
    if exists|k: int| 0 <= k < days.len() && (#[trigger] days[k]).0@ == day {
        Some(choose|k: int| 0 <= k < days.len() && (#[trigger] days[k]).0@ == day && forall|m: int| 0 <= m < k ==> (#[trigger] days[m]).0@ != day)
    } else {
        None
    }
}

proof fn lemma_day_position_at(days: Seq<(String, u64)>, day: Seq<char>, i: int)
    requires
        0 <= i < days.len(),
        days[i].0@ == day,
        forall|m: int| 0 <= m < i ==> (#[trigger] days[m]).0@ != day,
    ensures
        day_position(days, day) == Some(i),
{
    let j = choose|k: int| 0 <= k < days.len() && (#[trigger] days[k]).0@ == day && forall|m: int| 0 <= m < k ==> (#[trigger] days[m]).0@ != day;
    if j < i {
        assert(days[j].0@ != day);
    } else if j > i {
        assert(days[i].0@ != day);
    }
}

/// The plugins of `ps` in category `c`, in order.
pub open spec fn in_category(ps: Seq<MarketplacePlugin>, c: PluginCategory) -> Seq<MarketplacePlugin>
    decreases ps.len(),
{
    if ps.len() == 0 {
        ps
    } else {
        let r = in_category(ps.drop_last(), c);
        if ps.last().category == c { r.push(ps.last()) } else { r }
    }
}

/// `r` holds a copy of each plugin of `ps`, in order.
pub open spec fn plugin_copies(r: Seq<MarketplacePlugin>, ps: Seq<MarketplacePlugin>) -> bool {
    r.len() == ps.len() && forall|k: int| 0 <= k < r.len() ==> same_plugin(#[trigger] r[k], ps[k])
}

/// The plugins of `ps` with the ids `ids`, in the order of `ids`; unknown
/// ids are skipped.
pub open spec fn resolve_plugins(ps: Seq<MarketplacePlugin>, ids: Seq<Seq<char>>) -> Seq<MarketplacePlugin>
    decreases ids.len(),
{
    if ids.len() == 0 {
        Seq::empty()
    } else {
        let r = resolve_plugins(ps, ids.drop_last());
        match find_in(ps, ids.last()) {
            Some(p) => r.push(p),
            None => r,
        }
    }
}

/// The plugins of `ps` at the positions `idx`.
pub open spec fn picked(ps: Seq<MarketplacePlugin>, idx: Seq<usize>) -> Seq<MarketplacePlugin> {
    Seq::new(idx.len(), |k: int| ps[idx[k] as int])
}

/// The sort keys of `ls` are those of `ps`: downloads, rating, creation and
/// update times.
pub open spec fn keys_match(ls: Seq<Listing>, ps: Seq<MarketplacePlugin>) -> bool {
    &&& ls.len() == ps.len()
    &&& forall|k: int| 0 <= k < ls.len() ==> {
        &&& (#[trigger] ls[k]).downloads == ps[k].downloads
        &&& ls[k].rating_rank == ps[k].rating_tenths
        &&& ls[k].created_at == ps[k].created_at
        &&& ls[k].updated_at == ps[k].updated_at
    }
}

/// The order a search uses: relevance falls back to downloads.
pub open spec fn sort_key(by: SortBy) -> SortBy {
    match by {
        SortBy::Relevance => SortBy::Downloads,
        _ => by,
    }
}

/// The tags joined with single spaces.
pub open spec fn joined(tags: Seq<String>) -> Seq<char>
    decreases tags.len(),
{
    if tags.len() == 0 {
        Seq::empty()
    } else if tags.len() == 1 {
        tags[0]@
    } else {
        joined(tags.drop_last()) + seq![' '] + tags.last()@
    }
}

/// The text a query is looked for in: id, name, description and tags,
/// each lower-cased, separated by spaces.
pub open spec fn haystack(p: MarketplacePlugin) -> Seq<char> {
    unicode_lowercase(p.id@) + seq![' '] + unicode_lowercase(p.name@) + seq![' '] + unicode_lowercase(p.description@) + seq![' ']
        + unicode_lowercase(joined(p.tags@))
}

/// The plugin carries the tag `tag`.
pub open spec fn carries(p: MarketplacePlugin, tag: Seq<char>) -> bool {
    exists|j: int| 0 <= j < p.tags@.len() && (#[trigger] p.tags@[j])@ == tag
}

/// The plugin carries every tag of `tags`.
pub open spec fn has_all_tags(p: MarketplacePlugin, tags: Seq<String>) -> bool {
    forall|i: int| 0 <= i < tags.len() ==> carries(p, (#[trigger] tags[i])@)
}

/// The plugin passes the query's text, category and tag filters.
pub open spec fn catalog_match(p: MarketplacePlugin, q: SearchQuery) -> bool {
    &&& (q.query matches Some(t) ==> contains_seq(haystack(p), unicode_lowercase(t@)))
    &&& (q.category matches Some(c) ==> p.category == c)
    &&& (q.tags@.len() > 0 ==> has_all_tags(p, q.tags@))
}

/// The plugins of `ps` that pass the query's filters, in order.
pub open spec fn catalog_hits(ps: Seq<MarketplacePlugin>, q: SearchQuery) -> Seq<MarketplacePlugin>
    decreases ps.len(),
{
    if ps.len() == 0 {
        ps
    } else {
        let r = catalog_hits(ps.drop_last(), q);
        if catalog_match(ps.last(), q) { r.push(ps.last()) } else { r }
    }
}

fn join_tags(tags: &Vec<String>) -> (s: String)
    ensures
        s@ == joined(tags@),
{
    let mut s = String::new();
    let mut i: usize = 0;
    while i < tags.len()
        invariant
            i <= tags@.len(),
            s@ == joined(tags@.take(i as int)),
        decreases tags.len() - i,
    {
        proof {
            assert(tags@.take(i + 1).drop_last() =~= tags@.take(i as int));
            assert(tags@.take(i + 1).last() == tags@[i as int]);
        }
        if i > 0 {
            push_char(&mut s, ' ');
        }
        push_str(&mut s, tags[i].as_str());
        proof {
            if i == 0 {
                assert(s@ =~= tags@[0]@);
                assert(tags@.take(1)[0] == tags@[0]);
            } else {
                assert(s@ =~= joined(tags@.take(i as int)) + seq![' '] + tags@[i as int]@);
            }
        }
        i = i + 1;
    }
    assert(tags@.take(tags@.len() as int) =~= tags@);
    s
}

fn has_tag(p: &MarketplacePlugin, tag: &str) -> (b: bool)
    ensures
        b == carries(*p, tag@),
{
    let mut j: usize = 0;
    while j < p.tags.len()
        invariant
            j <= p.tags@.len(),
            forall|m: int| 0 <= m < j ==> (#[trigger] p.tags@[m])@ != tag@,
        decreases p.tags.len() - j,
    {
        if str_equal(p.tags[j].as_str(), tag) {
            return true;
        }
        j = j + 1;
    }
    false
}

fn has_tags(p: &MarketplacePlugin, tags: &Vec<String>) -> (b: bool)
    ensures
        b == has_all_tags(*p, tags@),
{
    let mut i: usize = 0;
    while i < tags.len()
        invariant
            i <= tags@.len(),
            forall|a: int| 0 <= a < i ==> carries(*p, (#[trigger] tags@[a])@),
        decreases tags.len() - i,
    {
        if !has_tag(p, tags[i].as_str()) {
            return false;
        }
        i = i + 1;
    }
    true
}

/// Whether a plugin passes the query's filters.
pub fn catalog_matches(p: &MarketplacePlugin, q: &SearchQuery) -> (b: bool)
    ensures
        b == catalog_match(*p, *q),
{
    if let Some(t) = &q.query {
        let mut hay = lowercase(p.id.as_str());
        push_char(&mut hay, ' ');
        let name = lowercase(p.name.as_str());
        push_str(&mut hay, name.as_str());
        push_char(&mut hay, ' ');
        let desc = lowercase(p.description.as_str());
        push_str(&mut hay, desc.as_str());
        push_char(&mut hay, ' ');
        let tags = lowercase(join_tags(&p.tags).as_str());
        push_str(&mut hay, tags.as_str());
        assert(hay@ =~= haystack(*p));
        let h = chars_of(hay.as_str());
        let needle = chars_of(lowercase(t.as_str()).as_str());
        if !chars_contain(&h, &needle) {
            return false;
        }
    }
    if let Some(c) = q.category {
        if p.category != c {
            return false;
        }
    }
    if q.tags.len() > 0 && !has_tags(p, &q.tags) {
        return false;
    }
    true
}

/// `l` is what a search reads of `p`: its text, tags, category and sort
/// keys.
pub open spec fn listing_for(l: Listing, p: MarketplacePlugin) -> bool {
    &&& l.name@ == p.name@
    &&& l.description@ == p.description@
    &&& l.tags@ == p.tags@
    &&& l.category == p.category
    &&& l.downloads == p.downloads
    &&& l.rating_rank == p.rating_tenths
    &&& l.created_at == p.created_at
    &&& l.updated_at == p.updated_at
}

/// `ls` is what a search reads of each plugin of `ps`.
pub open spec fn listings_describe(ls: Seq<Listing>, ps: Seq<MarketplacePlugin>) -> bool {
    ls.len() == ps.len() && forall|k: int| 0 <= k < ls.len() ==> listing_for(#[trigger] ls[k], ps[k])
}

/// The search listings of `ps`.
pub(crate) fn listings_of(ps: &Vec<MarketplacePlugin>) -> (ls: Vec<Listing>)
    ensures
        keys_match(ls@, ps@),
        listings_describe(ls@, ps@),
{
    let mut ls: Vec<Listing> = Vec::new();
    let mut i: usize = 0;
    while i < ps.len()
        invariant
            i <= ps@.len(),
            ls@.len() == i,
            forall|k: int| 0 <= k < i ==> {
                &&& (#[trigger] ls@[k]).downloads == ps@[k].downloads
                &&& ls@[k].rating_rank == ps@[k].rating_tenths
                &&& ls@[k].created_at == ps@[k].created_at
                &&& ls@[k].updated_at == ps@[k].updated_at
                &&& listing_for(ls@[k], ps@[k])
            },
        decreases ps.len() - i,
    {
        let p = &ps[i];
        ls.push(Listing {
            id: p.id.clone(),
            name: p.name.clone(),
            description: p.description.clone(),
            tags: crate::messaging_types::copy_strings(&p.tags),
            category: p.category,
            downloads: p.downloads,
            rating_rank: p.rating_tenths as u64,
            created_at: p.created_at,
            updated_at: p.updated_at,
        });
        i = i + 1;
    }
    ls
}

/// Copies of the plugins of `ps` at the positions `idx`.
pub(crate) fn pick(ps: &Vec<MarketplacePlugin>, idx: &Vec<usize>) -> (r: Vec<MarketplacePlugin>)
    requires
        forall|k: int| 0 <= k < idx@.len() ==> (#[trigger] idx@[k]) < ps@.len(),
    ensures
        plugin_copies(r@, picked(ps@, idx@)),
{
    let mut r: Vec<MarketplacePlugin> = Vec::new();
    let mut k: usize = 0;
    while k < idx.len()
        invariant
            k <= idx@.len(),
            forall|m: int| 0 <= m < idx@.len() ==> (#[trigger] idx@[m]) < ps@.len(),
            r@.len() == k,
            forall|m: int| 0 <= m < k ==> same_plugin(#[trigger] r@[m], ps@[idx@[m] as int]),
        decreases idx.len() - k,
    {
        r.push(ps[idx[k]].duplicate());
        k = k + 1;
    }
    r
}

/// The first `limit` positions of `all`.
fn first_positions(all: &Vec<usize>, limit: usize) -> (r: Vec<usize>)
    ensures
        r@ == if limit < all@.len() { all@.subrange(0, limit as int) } else { all@ },
{
    let mut r: Vec<usize> = Vec::new();
    let mut k: usize = 0;
    while k < all.len() && k < limit
        invariant
            k <= all@.len(),
            k <= limit,
            r@ == all@.subrange(0, k as int),
        decreases all.len() - k,
    {
        r.push(all[k]);
        k = k + 1;
        assert(r@ =~= all@.subrange(0, k as int));
    }
    if limit >= all.len() {
        assert(all@.subrange(0, all@.len() as int) =~= all@);
    }
    r
}

/// `b` has the releases, reviews and analytics of `a`.
pub open spec fn keeps_indexes(a: MarketplaceRegistry, b: MarketplaceRegistry) -> bool {
    &&& forall|u: Seq<char>| #[trigger] b.versions_of(u) == a.versions_of(u)
    &&& forall|u: Seq<char>| #[trigger] b.reviews_of(u) == a.reviews_of(u)
    &&& forall|u: Seq<char>| #[trigger] b.analytics_of(u) == a.analytics_of(u)
}

/// `day_position` finds the first entry of the day, and `None` means
/// there is none.
pub proof fn lemma_day_position(days: Seq<(String, u64)>, day: Seq<char>)
    ensures
        match day_position(days, day) {
            Some(k) => 0 <= k < days.len() && days[k].0@ == day && forall|m: int| 0 <= m < k ==> (#[trigger] days[m]).0@ != day,
            None => forall|m: int| 0 <= m < days.len() ==> (#[trigger] days[m]).0@ != day,
        },
    decreases days.len(),
{
    if days.len() > 0 {
        let init = days.drop_last();
        lemma_day_position(init, day);
        assert forall|m: int| 0 <= m < init.len() implies init[m] == days[m] by {}
        match day_position(init, day) {
            Some(j) => {
                assert(days[j] == init[j]);
                lemma_day_position_at(days, day, j);
            },
            None => {
                if days.last().0@ == day {
                    lemma_day_position_at(days, day, days.len() - 1);
                } else {
                    assert forall|m: int| 0 <= m < days.len() implies (#[trigger] days[m]).0@ != day by {
                        if m < init.len() {
                            assert(init[m] == days[m]);
                        }
                    }
                }
            },
        }
    }
}

/// In-memory marketplace registry.
pub struct MarketplaceRegistry {
    plugins: Vec<MarketplacePlugin>,
    versions: Vec<(String, Vec<PluginVersion>)>,
    reviews: Vec<(String, Vec<PluginReview>)>,
    publishers: Vec<PublisherInfo>,
    analytics: Vec<(String, PluginAnalytics)>,
    featured: Vec<String>,
}

impl MarketplaceRegistry {
    /// The published plugins, in publication order.
    pub closed spec fn catalog(self) -> Seq<MarketplacePlugin> {
        self.plugins@
    }

    /// The releases of plugin `id`, oldest first.
    pub closed spec fn versions_of(self, id: Seq<char>) -> Seq<PluginVersion> {
        list_of(entry_for(self.versions@, id))
    }

    /// The reviews of plugin `id`, oldest first.
    pub closed spec fn reviews_of(self, id: Seq<char>) -> Seq<PluginReview> {
        list_of(entry_for(self.reviews@, id))
    }

    /// The registered publishers, in registration order.
    pub closed spec fn publisher_list(self) -> Seq<PublisherInfo> {
        self.publishers@
    }

    /// The analytics of plugin `id`, if any.
    pub closed spec fn analytics_of(self, id: Seq<char>) -> Option<PluginAnalytics> {
        entry_for(self.analytics@, id)
    }

    /// Ids of the featured plugins, in order.
    pub closed spec fn featured_ids(self) -> Seq<Seq<char>> {
        self.featured@.map_values(|s: String| s@)
    }

    /// An upper bound on the number of plugins with releases.
    pub closed spec fn release_bound(self) -> nat {
        self.versions@.len()
    }

    /// Distinct plugins that each have a release are at most
    /// `release_bound` many.
    pub proof fn lemma_released_bounded(self, ids: Seq<Seq<char>>)
        requires
            self.wf(),
            ids.no_duplicates(),
            forall|i: int| 0 <= i < ids.len() ==> self.versions_of(#[trigger] ids[i]).len() > 0,
        ensures
            ids.len() <= self.release_bound(),
    {
        let keys = self.versions@.map_values(|e: (String, Vec<PluginVersion>)| e.0@);
        assert forall|x: Seq<char>| ids.to_set().contains(x) implies keys.to_set().contains(x) by {
            let i = choose|i: int| 0 <= i < ids.len() && ids[i] == x;
            assert(self.versions_of(ids[i]).len() > 0);
            assert(entry_for(self.versions@, x) is Some);
            let k = choose|k: int| 0 <= k < self.versions@.len() && (#[trigger] self.versions@[k]).0@ == x;
            assert(keys[k] == x);
        }
        ids.unique_seq_to_set();
        keys.lemma_cardinality_of_set();
        vstd::set_lib::lemma_len_subset(ids.to_set(), keys.to_set());
    }

    /// The registry's invariant: distinct plugin and publisher ids, one
    /// entry per plugin in each index.
    pub closed spec fn wf(self) -> bool {
        &&& distinct_idents(self.plugins@)
        &&& distinct_idents(self.publishers@)
        &&& unique_keys(self.versions@)
        &&& unique_keys(self.reviews@)
        &&& unique_keys(self.analytics@)
    }

    /// The plugin with id `id`, if published.
    pub open spec fn plugin(self, id: Seq<char>) -> Option<MarketplacePlugin> {
        find_in(self.catalog(), id)
    }

    /// The publisher with id `id`, if registered.
    pub open spec fn publisher(self, id: Seq<char>) -> Option<PublisherInfo> {
        find_in(self.publisher_list(), id)
    }

    /// A well-formed registry has distinct plugin ids and publisher ids.
    pub proof fn lemma_wf(self)
        requires
            self.wf(),
        ensures
            distinct_idents(self.catalog()),
            distinct_idents(self.publisher_list()),
    {
    }

    /// An empty registry.
    pub fn new() -> (r: Self)
        ensures
            r.wf(),
            r.catalog().len() == 0,
            r.publisher_list().len() == 0,
            r.featured_ids().len() == 0,
            forall|id: Seq<char>| #[trigger] r.versions_of(id) == Seq::<PluginVersion>::empty(),
            forall|id: Seq<char>| #[trigger] r.reviews_of(id) == Seq::<PluginReview>::empty(),
            forall|id: Seq<char>| #[trigger] r.analytics_of(id) is None,
    {
        MarketplaceRegistry {
            plugins: Vec::new(),
            versions: Vec::new(),
            reviews: Vec::new(),
            publishers: Vec::new(),
            analytics: Vec::new(),
            featured: Vec::new(),
        }
    }

    fn find_plugin(&self, id: &str) -> (r: Option<usize>)
        requires
            self.wf(),
        ensures
            r is None ==> self.plugin(id@) is None,
            r matches Some(i) ==> i < self.catalog().len() && self.catalog()[i as int].id@ == id@ && position_in(self.catalog(), id@) == Some(i as int),
    {
        let mut i: usize = 0;
        while i < self.plugins.len()
            invariant
                self.wf(),
                i <= self.plugins@.len(),
                forall|k: int| 0 <= k < i ==> (#[trigger] self.plugins@[k]).id@ != id@,
            decreases self.plugins.len() - i,
        {
            if str_equal(self.plugins[i].id.as_str(), id) {
                proof {
                    lemma_position_at(self.plugins@, i as int);
                }
                return Some(i);
            }
            i = i + 1;
        }
        None
    }

    fn find_publisher(&self, id: &str) -> (r: Option<usize>)
        requires
            self.wf(),
        ensures
            r is None ==> self.publisher(id@) is None,
            r matches Some(i) ==> i < self.publisher_list().len() && self.publisher_list()[i as int].id@ == id@ && position_in(self.publisher_list(), id@) == Some(i as int),
    {
        let mut i: usize = 0;
        while i < self.publishers.len()
            invariant
                self.wf(),
                i <= self.publishers@.len(),
                forall|k: int| 0 <= k < i ==> (#[trigger] self.publishers@[k]).id@ != id@,
            decreases self.publishers.len() - i,
        {
            if str_equal(self.publishers[i].id.as_str(), id) {
                proof {
                    lemma_position_at(self.publishers@, i as int);
                }
                return Some(i);
            }
            i = i + 1;
        }
        None
    }

    /// Replaces the plugin at position `i` with one of the same id.
    fn set_plugin(&mut self, i: usize, p: MarketplacePlugin)
        requires
            old(self).wf(),
            i < old(self).catalog().len(),
            p.id@ == old(self).catalog()[i as int].id@,
        ensures
            final(self).wf(),
            *final(self) == (MarketplaceRegistry { plugins: final(self).plugins, ..*old(self) }),
            final(self).catalog() == old(self).catalog().update(i as int, p),
    {
        let ghost before = self.plugins@;
        let ghost g = p;
        self.plugins.set(i, p);
        proof {
            lemma_update_same_ident(before, i as int, g);
        }
    }

    /// Publishes a plugin, with fresh analytics unless it has some; fails
    /// when a plugin with the same id is published.
    pub fn publish(&mut self, plugin: MarketplacePlugin) -> (r: Result<(), String>)
        requires
            old(self).wf(),
        ensures
            final(self).wf(),
            r is Err <==> old(self).plugin(plugin.id@) is Some,
            r matches Err(m) ==> m@ == "plugin '"@ + plugin.id@ + "' already published"@ && *final(self) == *old(self),
            r is Ok ==> {
                &&& final(self).catalog() == old(self).catalog().push(plugin)
                &&& match old(self).analytics_of(plugin.id@) {
                    Some(a) => final(self).analytics_of(plugin.id@) == Some(a),
                    None => final(self).analytics_of(plugin.id@) matches Some(a) && fresh_analytics(a, plugin.id@),
                }
                &&& forall|u: Seq<char>| u != plugin.id@ ==> #[trigger] final(self).analytics_of(u) == old(self).analytics_of(u)
                &&& forall|u: Seq<char>| #[trigger] final(self).versions_of(u) == old(self).versions_of(u)
                &&& forall|u: Seq<char>| #[trigger] final(self).reviews_of(u) == old(self).reviews_of(u)
                &&& final(self).publisher_list() == old(self).publisher_list()
                &&& final(self).featured_ids() == old(self).featured_ids()
            },
    {
        if self.find_plugin(plugin.id.as_str()).is_some() {
            let mut m = String::new();
            push_str(&mut m, "plugin '");
            push_str(&mut m, plugin.id.as_str());
            push_str(&mut m, "' already published");
            return Err(m);
        }
        let ghost before = self.analytics@;
        match find_key(&self.analytics, plugin.id.as_str()) {
            Some(i) => {
                proof {
                    lemma_entry_at(before, plugin.id@, i as int);
                }
            },
            None => {
                proof {
                    lemma_entry_none(before, plugin.id@);
                }
                let a = PluginAnalytics {
                    plugin_id: plugin.id.clone(),
                    total_downloads: 0,
                    active_installs: 0,
                    daily_downloads: Vec::new(),
                    version_distribution: HashMap::new(),
                };
                let key = plugin.id.clone();
                let ghost k = key;
                let ghost g = a;
                self.analytics.push((key, a));
                proof {
                    lemma_entry_push(before, k, g);
                }
            },
        }
        let ghost plugins = self.plugins@;
        let ghost gp = plugin;
        self.plugins.push(plugin);
        proof {
            lemma_push_new(plugins, gp);
        }
        Ok(())
    }

    /// A copy of the plugin with id `id`, if published.
    pub fn get_plugin(&self, id: &str) -> (r: Option<MarketplacePlugin>)
        requires
            self.wf(),
        ensures
            r is Some <==> self.plugin(id@) is Some,
            r matches Some(p) ==> same_plugin(p, self.plugin(id@)->Some_0),
    {
        match self.find_plugin(id) {
            Some(i) => Some(self.plugins[i].duplicate()),
            None => None,
        }
    }

    /// Removes a plugin with its releases, reviews and analytics, and
    /// takes it off the featured list; `false` when it is not published.
    pub fn remove_plugin(&mut self, id: &str) -> (b: bool)
        requires
            old(self).wf(),
        ensures
            final(self).wf(),
            b == old(self).plugin(id@) is Some,
            !b ==> *final(self) == *old(self),
            b ==> {
                &&& final(self).catalog() == old(self).catalog().remove(position_in(old(self).catalog(), id@)->Some_0)
                &&& final(self).plugin(id@) is None
                &&& final(self).versions_of(id@) == Seq::<PluginVersion>::empty()
                &&& final(self).reviews_of(id@) == Seq::<PluginReview>::empty()
                &&& final(self).analytics_of(id@) is None
                &&& final(self).featured_ids() == without(old(self).featured_ids(), id@)
                &&& forall|u: Seq<char>| u != id@ ==> #[trigger] final(self).versions_of(u) == old(self).versions_of(u)
                &&& forall|u: Seq<char>| u != id@ ==> #[trigger] final(self).reviews_of(u) == old(self).reviews_of(u)
                &&& forall|u: Seq<char>| u != id@ ==> #[trigger] final(self).analytics_of(u) == old(self).analytics_of(u)
                &&& final(self).publisher_list() == old(self).publisher_list()
            },
    {
        match self.find_plugin(id) {
            None => false,
            Some(i) => {
                let ghost before = self.plugins@;
                self.plugins.remove(i);
                proof {
                    lemma_remove_at(before, i as int);
                }
                let ghost v0 = self.versions@;
                remove_entry(&mut self.versions, id);
                let ghost r0 = self.reviews@;
                remove_entry(&mut self.reviews, id);
                remove_entry(&mut self.analytics, id);
                self.featured = strings_without(&self.featured, id);
                proof {
                    assert forall|u: Seq<char>| u != id@ implies #[trigger] self.versions_of(u) == old(self).versions_of(u) by {
                        assert(entry_for(self.versions@, u) == entry_for(v0, u));
                    }
                    assert forall|u: Seq<char>| u != id@ implies #[trigger] self.reviews_of(u) == old(self).reviews_of(u) by {
                        assert(entry_for(self.reviews@, u) == entry_for(r0, u));
                    }
                }
                true
            },
        }
    }

    /// Replaces the metadata of a published plugin; `false` when no plugin
    /// has its id.
    pub fn update_plugin(&mut self, plugin: MarketplacePlugin) -> (b: bool)
        requires
            old(self).wf(),
        ensures
            final(self).wf(),
            b == old(self).plugin(plugin.id@) is Some,
            !b ==> *final(self) == *old(self),
            b ==> final(self).catalog() == old(self).catalog().update(position_in(old(self).catalog(), plugin.id@)->Some_0, plugin),
            keeps_indexes(*old(self), *final(self)),
            final(self).publisher_list() == old(self).publisher_list(),
            final(self).featured_ids() == old(self).featured_ids(),
    {
        match self.find_plugin(plugin.id.as_str()) {
            None => false,
            Some(i) => {
                self.set_plugin(i, plugin);
                true
            },
        }
    }

    /// Adds a release of a published plugin; `false` when the plugin is not
    /// published.
    pub fn add_version(&mut self, plugin_id: &str, version: PluginVersion) -> (b: bool)
        requires
            old(self).wf(),
        ensures
            final(self).wf(),
            b == old(self).plugin(plugin_id@) is Some,
            !b ==> *final(self) == *old(self),
            b ==> final(self).versions_of(plugin_id@) == old(self).versions_of(plugin_id@).push(version),
            forall|u: Seq<char>| u != plugin_id@ ==> #[trigger] final(self).versions_of(u) == old(self).versions_of(u),
            final(self).catalog() == old(self).catalog(),
    {
        if self.find_plugin(plugin_id).is_none() {
            return false;
        }
        let ghost v0 = self.versions@;
        push_to_entry(&mut self.versions, plugin_id, version);
        proof {
            assert forall|u: Seq<char>| u != plugin_id@ implies #[trigger] self.versions_of(u) == old(self).versions_of(u) by {
                assert(entry_for(self.versions@, u) == entry_for(v0, u));
            }
        }
        true
    }

    /// Copies of the releases of `plugin_id`, oldest first.
    pub fn get_versions(&self, plugin_id: &str) -> (r: Vec<PluginVersion>)
        requires
            self.wf(),
        ensures
            r@.len() == self.versions_of(plugin_id@).len(),
            forall|k: int| 0 <= k < r@.len() ==> same_version(#[trigger] r@[k], self.versions_of(plugin_id@)[k]),
    {
        match find_key(&self.versions, plugin_id) {
            Some(e) => {
                proof {
                    lemma_entry_at(self.versions@, plugin_id@, e as int);
                }
                let vs = &self.versions[e].1;
                let mut out: Vec<PluginVersion> = Vec::new();
                let mut i: usize = 0;
                while i < vs.len()
                    invariant
                        i <= vs@.len(),
                        out@.len() == i,
                        forall|k: int| 0 <= k < i ==> same_version(#[trigger] out@[k], vs@[k]),
                    decreases vs.len() - i,
                {
                    out.push(vs[i].duplicate());
                    i = i + 1;
                }
                out
            },
            None => {
                proof {
                    lemma_entry_none(self.versions@, plugin_id@);
                }
                Vec::new()
            },
        }
    }

    /// A copy of the latest release of `plugin_id`, if any.
    pub fn get_latest_version(&self, plugin_id: &str) -> (r: Option<PluginVersion>)
        requires
            self.wf(),
        ensures
            r is Some <==> self.versions_of(plugin_id@).len() > 0,
            r matches Some(v) ==> same_version(v, self.versions_of(plugin_id@).last()),
    {
        match find_key(&self.versions, plugin_id) {
            Some(e) => {
                proof {
                    lemma_entry_at(self.versions@, plugin_id@, e as int);
                }
                let vs = &self.versions[e].1;
                if vs.len() > 0 {
                    Some(vs[vs.len() - 1].duplicate())
                } else {
                    None
                }
            },
            None => {
                proof {
                    lemma_entry_none(self.versions@, plugin_id@);
                }
                None
            },
        }
    }

    /// Copies of the reviews of `plugin_id`, oldest first.
    pub fn get_reviews(&self, plugin_id: &str) -> (r: Vec<PluginReview>)
        requires
            self.wf(),
        ensures
            r@ == self.reviews_of(plugin_id@),
    {
        match find_key(&self.reviews, plugin_id) {
            Some(e) => {
                proof {
                    lemma_entry_at(self.reviews@, plugin_id@, e as int);
                }
                let rs = &self.reviews[e].1;
                let mut out: Vec<PluginReview> = Vec::new();
                let mut i: usize = 0;
                while i < rs.len()
                    invariant
                        i <= rs@.len(),
                        out@ == rs@.take(i as int),
                    decreases rs.len() - i,
                {
                    out.push(rs[i].duplicate());
                    i = i + 1;
                    assert(out@ =~= rs@.take(i as int));
                }
                assert(rs@.take(rs@.len() as int) =~= rs@);
                out
            },
            None => {
                proof {
                    lemma_entry_none(self.reviews@, plugin_id@);
                }
                Vec::new()
            },
        }
    }

    /// Sets a published plugin's rating to the average of its reviews
    /// (rounded to a tenth) and its rating count to their number; nothing
    /// changes while it has no review.
    pub fn update_rating(&mut self, plugin_id: &str)
        requires
            old(self).wf(),
        ensures
            final(self).wf(),
            keeps_indexes(*old(self), *final(self)),
            final(self).publisher_list() == old(self).publisher_list(),
            final(self).featured_ids() == old(self).featured_ids(),
            final(self).catalog() == if old(self).reviews_of(plugin_id@).len() > 0 && old(self).plugin(plugin_id@) is Some {
                let k = position_in(old(self).catalog(), plugin_id@)->Some_0;
                let rs = old(self).reviews_of(plugin_id@);
                old(self).catalog().update(
                    k,
                    MarketplacePlugin {
                        rating_tenths: average_tenths(rs) as u32,
                        rating_count: rs.len() as u32,
                        ..old(self).catalog()[k]
                    },
                )
            } else {
                old(self).catalog()
            },
    {
        let rs = self.get_reviews(plugin_id);
        if rs.len() == 0 {
            return;
        }
        let mut sum: u128 = 0;
        let mut i: usize = 0;
        while i < rs.len()
            invariant
                i <= rs@.len(),
                sum == rating_sum(rs@.take(i as int)),
                sum <= 255 * i,
            decreases rs.len() - i,
        {
            proof {
                assert(rs@.take(i + 1).drop_last() =~= rs@.take(i as int));
                assert(rs@.take(i + 1).last() == rs@[i as int]);
            }
            sum = sum + rs[i].rating as u128;
            i = i + 1;
        }
        assert(rs@.take(rs@.len() as int) =~= rs@);
        let n = rs.len() as u128;
        let tenths = (20 * sum + n) / (2 * n);
        proof {
            assert(tenths <= 2551) by (nonlinear_arith)
                requires
                    tenths == (20 * sum + n) / (2 * n),
                    sum <= 255 * n,
                    n > 0,
            {
                assert(20 * sum + n <= 5101 * n);
                assert((20 * sum + n) / (2 * n) <= 5101 * n / (2 * n));
            }
        }
        let count = count_u32(rs.len());
        if let Some(i) = self.find_plugin(plugin_id) {
            let ghost before = self.plugins@;
            let mut q = self.plugins.remove(i);
            q.rating_tenths = tenths as u32;
            q.rating_count = count;
            let ghost gq = q;
            self.plugins.insert(i, q);
            proof {
                assert(self.plugins@ =~= before.update(i as int, gq));
                lemma_update_same_ident(before, i as int, gq);
            }
        }
    }

    /// Adds a review and updates the plugin's rating; fails when the rating
    /// is not between 1 and 5.
    pub fn add_review(&mut self, review: PluginReview) -> (r: Result<(), String>)
        requires
            old(self).wf(),
        ensures
            final(self).wf(),
            r is Err <==> (review.rating < 1 || review.rating > 5),
            r matches Err(m) ==> m@ == "invalid rating "@ + dec_str(review.rating as nat) + ": must be 1–5"@ && *final(self) == *old(self),
            r is Ok ==> {
                let rs = old(self).reviews_of(review.plugin_id@).push(review);
                &&& final(self).reviews_of(review.plugin_id@) == rs
                &&& forall|u: Seq<char>| u != review.plugin_id@ ==> #[trigger] final(self).reviews_of(u) == old(self).reviews_of(u)
                &&& final(self).catalog() == if old(self).plugin(review.plugin_id@) is Some {
                    let k = position_in(old(self).catalog(), review.plugin_id@)->Some_0;
                    old(self).catalog().update(
                        k,
                        MarketplacePlugin { rating_tenths: average_tenths(rs) as u32, rating_count: rs.len() as u32, ..old(self).catalog()[k] },
                    )
                } else {
                    old(self).catalog()
                }
            },
    {
        if review.rating < 1 || review.rating > 5 {
            let mut m = String::new();
            push_str(&mut m, "invalid rating ");
            push_decimal(&mut m, review.rating as u64);
            push_str(&mut m, ": must be 1–5");
            return Err(m);
        }
        let plugin_id = review.plugin_id.clone();
        let ghost r0 = self.reviews@;
        push_to_entry(&mut self.reviews, plugin_id.as_str(), review);
        proof {
            assert forall|u: Seq<char>| u != plugin_id@ implies #[trigger] self.reviews_of(u) == old(self).reviews_of(u) by {
                assert(entry_for(self.reviews@, u) == entry_for(r0, u));
            }
        }
        self.update_rating(plugin_id.as_str());
        Ok(())
    }

    /// Registers a publisher; fails when the id is taken.
    pub fn register_publisher(&mut self, publisher: PublisherInfo) -> (r: Result<(), String>)
        requires
            old(self).wf(),
        ensures
            final(self).wf(),
            r is Err <==> old(self).publisher(publisher.id@) is Some,
            r matches Err(m) ==> m@ == "publisher '"@ + publisher.id@ + "' already registered"@ && *final(self) == *old(self),
            r is Ok ==> final(self).publisher_list() == old(self).publisher_list().push(publisher),
            final(self).catalog() == old(self).catalog(),
            keeps_indexes(*old(self), *final(self)),
            final(self).featured_ids() == old(self).featured_ids(),
    {
        if self.find_publisher(publisher.id.as_str()).is_some() {
            let mut m = String::new();
            push_str(&mut m, "publisher '");
            push_str(&mut m, publisher.id.as_str());
            push_str(&mut m, "' already registered");
            return Err(m);
        }
        let ghost before = self.publishers@;
        let ghost g = publisher;
        self.publishers.push(publisher);
        proof {
            lemma_push_new(before, g);
        }
        Ok(())
    }

    /// A copy of the publisher with id `id`, if registered.
    pub fn get_publisher(&self, id: &str) -> (r: Option<PublisherInfo>)
        requires
            self.wf(),
        ensures
            r == self.publisher(id@),
    {
        match self.find_publisher(id) {
            Some(i) => Some(self.publishers[i].duplicate()),
            None => None,
        }
    }

    /// Marks a publisher verified; `false` when it is not registered.
    pub fn verify_publisher(&mut self, id: &str) -> (b: bool)
        requires
            old(self).wf(),
        ensures
            final(self).wf(),
            b == old(self).publisher(id@) is Some,
            !b ==> *final(self) == *old(self),
            b ==> final(self).publisher_list() == old(self).publisher_list().update(
                position_in(old(self).publisher_list(), id@)->Some_0,
                PublisherInfo { verified: true, ..old(self).publisher_list()[position_in(old(self).publisher_list(), id@)->Some_0] },
            ),
            final(self).catalog() == old(self).catalog(),
            keeps_indexes(*old(self), *final(self)),
            final(self).featured_ids() == old(self).featured_ids(),
    {
        match self.find_publisher(id) {
            None => false,
            Some(i) => {
                let mut p = self.publishers[i].duplicate();
                p.verified = true;
                let ghost before = self.publishers@;
                let ghost g = p;
                self.publishers.set(i, p);
                proof {
                    lemma_update_same_ident(before, i as int, g);
                }
                true
            },
        }
    }

    /// A copy of the analytics of `plugin_id`, if any.
    pub fn get_analytics(&self, plugin_id: &str) -> (r: Option<PluginAnalytics>)
        requires
            self.wf(),
        ensures
            r is Some <==> self.analytics_of(plugin_id@) is Some,
            r matches Some(a) ==> {
                let b = self.analytics_of(plugin_id@)->Some_0;
                &&& a.plugin_id == b.plugin_id
                &&& a.total_downloads == b.total_downloads
                &&& a.active_installs == b.active_installs
                &&& a.daily_downloads@ == b.daily_downloads@
                &&& a.version_distribution@ == b.version_distribution@
            },
    {
        match find_key(&self.analytics, plugin_id) {
            Some(i) => {
                proof {
                    lemma_entry_at(self.analytics@, plugin_id@, i as int);
                }
                Some(self.analytics[i].1.duplicate())
            },
            None => {
                proof {
                    lemma_entry_none(self.analytics@, plugin_id@);
                }
                None
            },
        }
    }

    /// Records a download of `plugin_id` on day `today` ("YYYY-MM-DD"): the
    /// analytics count it in total and for the day, and the plugin's
    /// download count grows by one.
    pub fn record_download_on(&mut self, plugin_id: &str, today: &str)
        requires
            old(self).wf(),
            old(self).analytics_of(plugin_id@) matches Some(a) ==> a.total_downloads < u64::MAX && (day_position(a.daily_downloads@, today@) matches Some(k) ==> a.daily_downloads@[k].1 < u64::MAX),
            old(self).plugin(plugin_id@) matches Some(p) ==> p.downloads < u64::MAX,
        ensures
            final(self).wf(),
            match old(self).analytics_of(plugin_id@) {
                Some(a) => final(self).analytics_of(plugin_id@) matches Some(b) && b.plugin_id == a.plugin_id
                    && b.total_downloads == a.total_downloads + 1 && b.active_installs == a.active_installs
                    && b.version_distribution == a.version_distribution
                    && b.daily_downloads@.map_values(|d: (String, u64)| (d.0@, d.1)) == match day_position(a.daily_downloads@, today@) {
                        Some(k) => a.daily_downloads@.map_values(|d: (String, u64)| (d.0@, d.1)).update(k, (today@, (a.daily_downloads@[k].1 + 1) as u64)),
                        None => a.daily_downloads@.map_values(|d: (String, u64)| (d.0@, d.1)).push((today@, 1u64)),
                    },
                None => final(self).analytics_of(plugin_id@) is None,
            },
            forall|u: Seq<char>| u != plugin_id@ ==> #[trigger] final(self).analytics_of(u) == old(self).analytics_of(u),
            final(self).catalog() == match position_in(old(self).catalog(), plugin_id@) {
                Some(k) => old(self).catalog().update(k, MarketplacePlugin { downloads: (old(self).catalog()[k].downloads + 1) as u64, ..old(self).catalog()[k] }),
                None => old(self).catalog(),
            },
            forall|u: Seq<char>| #[trigger] final(self).versions_of(u) == old(self).versions_of(u),
            forall|u: Seq<char>| #[trigger] final(self).reviews_of(u) == old(self).reviews_of(u),
            final(self).publisher_list() == old(self).publisher_list(),
            final(self).featured_ids() == old(self).featured_ids(),
    {
        let ghost before = self.analytics@;
        match find_key(&self.analytics, plugin_id) {
            Some(i) => {
                proof {
                    lemma_entry_at(before, plugin_id@, i as int);
                }
                let (key, mut a) = self.analytics.remove(i);
                let ghost a0 = a;
                a.total_downloads = a.total_downloads + 1;
                bump_day(&mut a.daily_downloads, today);
                let ghost g = a;
                self.analytics.insert(i, (key, a));
                proof {
                    assert(self.analytics@ =~= before.update(i as int, (before[i as int].0, g)));
                    lemma_entry_set(before, i as int, g);
                }
            },
            None => {
                proof {
                    lemma_entry_none(before, plugin_id@);
                }
            },
        }
        if let Some(i) = self.find_plugin(plugin_id) {
            let ghost ps = self.plugins@;
            let mut p = self.plugins.remove(i);
            p.downloads = p.downloads + 1;
            let ghost gp = p;
            self.plugins.insert(i, p);
            proof {
                assert(self.plugins@ =~= ps.update(i as int, gp));
                lemma_update_same_ident(ps, i as int, gp);
            }
        }
    }

    /// Records a download of `plugin_id` today.
    pub fn record_download(&mut self, plugin_id: &str)
        requires
            old(self).wf(),
            old(self).analytics_of(plugin_id@) matches Some(a) ==> a.total_downloads < u64::MAX && forall|k: int| 0 <= k < a.daily_downloads@.len() ==> (#[trigger] a.daily_downloads@[k]).1 < u64::MAX,
            old(self).plugin(plugin_id@) matches Some(p) ==> p.downloads < u64::MAX,
        ensures
            final(self).wf(),
            match old(self).analytics_of(plugin_id@) {
                Some(a) => final(self).analytics_of(plugin_id@) matches Some(b) && b.total_downloads == a.total_downloads + 1,
                None => final(self).analytics_of(plugin_id@) is None,
            },
            forall|u: Seq<char>| u != plugin_id@ ==> #[trigger] final(self).analytics_of(u) == old(self).analytics_of(u),
            final(self).catalog() == match position_in(old(self).catalog(), plugin_id@) {
                Some(k) => old(self).catalog().update(k, MarketplacePlugin { downloads: (old(self).catalog()[k].downloads + 1) as u64, ..old(self).catalog()[k] }),
                None => old(self).catalog(),
            },
    {
        let today = today_utc();
        proof {
            if let Some(a) = self.analytics_of(plugin_id@) {
                lemma_day_position(a.daily_downloads@, today@);
            }
        }
        self.record_download_on(plugin_id, today.as_str());
    }

    /// Records an install of `plugin_id` (analytics and plugin).
    pub fn record_install(&mut self, plugin_id: &str)
        requires
            old(self).wf(),
            old(self).analytics_of(plugin_id@) matches Some(a) ==> a.active_installs < u64::MAX,
            old(self).plugin(plugin_id@) matches Some(p) ==> p.active_installs < u64::MAX,
        ensures
            final(self).wf(),
            match old(self).analytics_of(plugin_id@) {
                Some(a) => final(self).analytics_of(plugin_id@) == Some(PluginAnalytics { active_installs: (a.active_installs + 1) as u64, ..a }),
                None => final(self).analytics_of(plugin_id@) is None,
            },
            forall|u: Seq<char>| u != plugin_id@ ==> #[trigger] final(self).analytics_of(u) == old(self).analytics_of(u),
            final(self).catalog() == match position_in(old(self).catalog(), plugin_id@) {
                Some(k) => old(self).catalog().update(k, MarketplacePlugin { active_installs: (old(self).catalog()[k].active_installs + 1) as u64, ..old(self).catalog()[k] }),
                None => old(self).catalog(),
            },
    {
        self.change_installs(plugin_id, true);
    }

    /// Records an uninstall of `plugin_id` (counts never go below zero).
    pub fn record_uninstall(&mut self, plugin_id: &str)
        requires
            old(self).wf(),
        ensures
            final(self).wf(),
            match old(self).analytics_of(plugin_id@) {
                Some(a) => final(self).analytics_of(plugin_id@) == Some(PluginAnalytics { active_installs: if a.active_installs > 0 { (a.active_installs - 1) as u64 } else { 0 }, ..a }),
                None => final(self).analytics_of(plugin_id@) is None,
            },
            forall|u: Seq<char>| u != plugin_id@ ==> #[trigger] final(self).analytics_of(u) == old(self).analytics_of(u),
            final(self).catalog() == match position_in(old(self).catalog(), plugin_id@) {
                Some(k) => old(self).catalog().update(k, MarketplacePlugin {
                    active_installs: if old(self).catalog()[k].active_installs > 0 { (old(self).catalog()[k].active_installs - 1) as u64 } else { 0 },
                    ..old(self).catalog()[k]
                }),
                None => old(self).catalog(),
            },
    {
        self.change_installs(plugin_id, false);
    }

    /// One more install (`up`) or one fewer, in the analytics and on the
    /// plugin.
    fn change_installs(&mut self, plugin_id: &str, up: bool)
        requires
            old(self).wf(),
            up ==> (old(self).analytics_of(plugin_id@) matches Some(a) ==> a.active_installs < u64::MAX),
            up ==> (old(self).plugin(plugin_id@) matches Some(p) ==> p.active_installs < u64::MAX),
        ensures
            final(self).wf(),
            match old(self).analytics_of(plugin_id@) {
                Some(a) => final(self).analytics_of(plugin_id@) == Some(PluginAnalytics { active_installs: step(a.active_installs, up), ..a }),
                None => final(self).analytics_of(plugin_id@) is None,
            },
            forall|u: Seq<char>| u != plugin_id@ ==> #[trigger] final(self).analytics_of(u) == old(self).analytics_of(u),
            final(self).catalog() == match position_in(old(self).catalog(), plugin_id@) {
                Some(k) => old(self).catalog().update(k, MarketplacePlugin { active_installs: step(old(self).catalog()[k].active_installs, up), ..old(self).catalog()[k] }),
                None => old(self).catalog(),
            },
    {
        let ghost before = self.analytics@;
        match find_key(&self.analytics, plugin_id) {
            Some(i) => {
                proof {
                    lemma_entry_at(before, plugin_id@, i as int);
                }
                let (key, mut a) = self.analytics.remove(i);
                a.active_installs = apply_step(a.active_installs, up);
                let ghost g = a;
                self.analytics.insert(i, (key, a));
                proof {
                    assert(self.analytics@ =~= before.update(i as int, (before[i as int].0, g)));
                    lemma_entry_set(before, i as int, g);
                }
            },
            None => {
                proof {
                    lemma_entry_none(before, plugin_id@);
                }
            },
        }
        if let Some(i) = self.find_plugin(plugin_id) {
            let ghost ps = self.plugins@;
            let mut p = self.plugins.remove(i);
            p.active_installs = apply_step(p.active_installs, up);
            let ghost gp = p;
            self.plugins.insert(i, p);
            proof {
                assert(self.plugins@ =~= ps.update(i as int, gp));
                lemma_update_same_ident(ps, i as int, gp);
            }
        }
    }

    /// Copies of the plugins in category `category`, in publication order.
    pub fn list_by_category(&self, category: PluginCategory) -> (r: Vec<MarketplacePlugin>)
        ensures
            plugin_copies(r@, in_category(self.catalog(), category)),
    {
        let mut out: Vec<MarketplacePlugin> = Vec::new();
        let mut i: usize = 0;
        while i < self.plugins.len()
            invariant
                i <= self.plugins@.len(),
                plugin_copies(out@, in_category(self.plugins@.take(i as int), category)),
            decreases self.plugins.len() - i,
        {
            proof {
                assert(self.plugins@.take(i + 1).drop_last() =~= self.plugins@.take(i as int));
                assert(self.plugins@.take(i + 1).last() == self.plugins@[i as int]);
            }
            if self.plugins[i].category == category {
                out.push(self.plugins[i].duplicate());
            }
            i = i + 1;
        }
        assert(self.plugins@.take(self.plugins@.len() as int) =~= self.plugins@);
        out
    }

    /// Copies of the featured plugins, in the featured order (ids of
    /// plugins not published are skipped).
    pub fn list_featured(&self) -> (r: Vec<MarketplacePlugin>)
        requires
            self.wf(),
        ensures
            plugin_copies(r@, resolve_plugins(self.catalog(), self.featured_ids())),
    {
        let ghost ids = self.featured@.map_values(|s: String| s@);
        let mut out: Vec<MarketplacePlugin> = Vec::new();
        let mut i: usize = 0;
        while i < self.featured.len()
            invariant
                self.wf(),
                i <= self.featured@.len(),
                ids == self.featured@.map_values(|s: String| s@),
                plugin_copies(out@, resolve_plugins(self.plugins@, ids.take(i as int))),
            decreases self.featured.len() - i,
        {
            proof {
                assert(ids.take(i + 1).drop_last() =~= ids.take(i as int));
                assert(ids.take(i + 1).last() == self.featured@[i as int]@);
            }
            match self.find_plugin(self.featured[i].as_str()) {
                Some(k) => {
                    proof {
                        lemma_position_at(self.plugins@, k as int);
                    }
                    out.push(self.plugins[k].duplicate());
                },
                None => {},
            }
            i = i + 1;
        }
        assert(ids.take(ids.len() as int) =~= ids);
        out
    }

    /// Copies of the `limit` most downloaded plugins, most downloaded first
    /// (ties in publication order).
    pub fn list_popular(&self, limit: usize) -> (r: Vec<MarketplacePlugin>)
        ensures
            exists|ls: Seq<Listing>, all: Seq<usize>| #[trigger] keys_match(ls, self.catalog()) && #[trigger] is_full_ranking(SortBy::Downloads, ls, all)
                && plugin_copies(r@, picked(self.catalog(), if limit < all.len() { all.subrange(0, limit as int) } else { all })),
    {
        self.ranked_prefix(SortBy::Downloads, limit)
    }

    /// Copies of the `limit` newest plugins, newest first (ties in
    /// publication order).
    pub fn list_newest(&self, limit: usize) -> (r: Vec<MarketplacePlugin>)
        ensures
            exists|ls: Seq<Listing>, all: Seq<usize>| #[trigger] keys_match(ls, self.catalog()) && #[trigger] is_full_ranking(SortBy::Newest, ls, all)
                && plugin_copies(r@, picked(self.catalog(), if limit < all.len() { all.subrange(0, limit as int) } else { all })),
    {
        self.ranked_prefix(SortBy::Newest, limit)
    }

    fn ranked_prefix(&self, by: SortBy, limit: usize) -> (r: Vec<MarketplacePlugin>)
        ensures
            exists|ls: Seq<Listing>, all: Seq<usize>| #[trigger] keys_match(ls, self.catalog()) && #[trigger] is_full_ranking(by, ls, all)
                && plugin_copies(r@, picked(self.catalog(), if limit < all.len() { all.subrange(0, limit as int) } else { all })),
    {
        let ls = listings_of(&self.plugins);
        let all = rank_all(&ls, by);
        let top = first_positions(&all, limit);
        let r = pick(&self.plugins, &top);
        assert(keys_match(ls@, self.catalog()) && is_full_ranking(by, ls@, all@));
        r
    }

    /// Searches the catalogue: the plugins passing the query's text,
    /// category and tag filters, ordered by its criterion (relevance by
    /// downloads; ties in publication order), and the requested page (page
    /// and size at least 1).
    pub fn search(&self, query: &SearchQuery) -> (r: SearchResult)
        requires
            ((if query.page < 1 { 1 } else { query.page }) - 1) * (if query.page_size < 1 { 1 } else { query.page_size }) <= u32::MAX,
        ensures
            r.page == if query.page < 1 { 1 } else { query.page },
            r.page_size == if query.page_size < 1 { 1 } else { query.page_size },
            r.total == catalog_hits(self.catalog(), *query).len(),
            exists|ls: Seq<Listing>, all: Seq<usize>| #[trigger] keys_match(ls, catalog_hits(self.catalog(), *query))
                && #[trigger] is_full_ranking(sort_key(query.sort_by), ls, all) && plugin_copies(
                r.plugins@,
                picked(catalog_hits(self.catalog(), *query), page_slice(all, (r.page - 1) * r.page_size, r.page_size as int)),
            ),
    {
        let mut hits: Vec<MarketplacePlugin> = Vec::new();
        let mut i: usize = 0;
        while i < self.plugins.len()
            invariant
                i <= self.plugins@.len(),
                plugin_copies(hits@, catalog_hits(self.plugins@.take(i as int), *query)),
            decreases self.plugins.len() - i,
        {
            proof {
                assert(self.plugins@.take(i + 1).drop_last() =~= self.plugins@.take(i as int));
                assert(self.plugins@.take(i + 1).last() == self.plugins@[i as int]);
            }
            if catalog_matches(&self.plugins[i], query) {
                out_push(&mut hits, &self.plugins[i]);
            }
            i = i + 1;
        }
        assert(self.plugins@.take(self.plugins@.len() as int) =~= self.plugins@);
        let ghost target = catalog_hits(self.plugins@, *query);
        let by = match query.sort_by {
            SortBy::Relevance => SortBy::Downloads,
            other => other,
        };
        let ls = listings_of(&hits);
        let all = rank_all(&ls, by);
        let page: u32 = if query.page < 1 { 1 } else { query.page };
        let page_size: u32 = if query.page_size < 1 { 1 } else { query.page_size };
        let start = ((page - 1) * page_size) as usize;
        let mut idx: Vec<usize> = Vec::new();
        if start < all.len() {
            let end = if all.len() - start > page_size as usize { start + page_size as usize } else { all.len() };
            let mut k = start;
            while k < end
                invariant
                    start <= k <= end <= all@.len(),
                    idx@ == all@.subrange(start as int, k as int),
                decreases end - k,
            {
                idx.push(all[k]);
                k = k + 1;
                assert(idx@ =~= all@.subrange(start as int, k as int));
            }
        }
        proof {
            assert(idx@ =~= page_slice(all@, (page - 1) * page_size, page_size as int));
            assert forall|k: int| 0 <= k < idx@.len() implies (#[trigger] idx@[k]) < hits@.len() by {
                assert(all@.contains(idx@[k]));
            }
        }
        let plugins = pick(&hits, &idx);
        proof {
            crate::search::lemma_full_ranking_len(by, ls@, all@);
            assert(keys_match(ls@, target)) by {
                assert forall|k: int| 0 <= k < ls@.len() implies {
                    &&& (#[trigger] ls@[k]).downloads == target[k].downloads
                    &&& ls@[k].rating_rank == target[k].rating_tenths
                    &&& ls@[k].created_at == target[k].created_at
                    &&& ls@[k].updated_at == target[k].updated_at
                } by {
                    assert(same_plugin(hits@[k], target[k]));
                }
            }
            assert(plugin_copies(plugins@, picked(target, idx@))) by {
                assert forall|k: int| 0 <= k < plugins@.len() implies same_plugin(#[trigger] plugins@[k], picked(target, idx@)[k]) by {
                    let j = idx@[k] as int;
                    assert(same_plugin(hits@[j], target[j]));
                    assert(same_plugin(plugins@[k], hits@[j]));
                }
            }
            assert(sort_key(query.sort_by) == by);
            assert(target == catalog_hits(self.catalog(), *query));
            assert(keys_match(ls@, catalog_hits(self.catalog(), *query)) && is_full_ranking(sort_key(query.sort_by), ls@, all@) && plugin_copies(
                plugins@,
                picked(catalog_hits(self.catalog(), *query), page_slice(all@, (page - 1) * page_size, page_size as int)),
            ));
        }
        SearchResult { plugins, total: all.len() as u64, page, page_size }
    }

    /// Replaces the featured list.
    pub fn set_featured(&mut self, plugin_ids: Vec<String>)
        ensures
            final(self).featured_ids() == plugin_ids@.map_values(|s: String| s@),
            final(self).catalog() == old(self).catalog(),
            keeps_indexes(*old(self), *final(self)),
            final(self).publisher_list() == old(self).publisher_list(),
    {
        self.featured = plugin_ids;
    }
}

/// Appends a copy of `p`.
fn out_push(out: &mut Vec<MarketplacePlugin>, p: &MarketplacePlugin)
    ensures
        final(out)@.len() == old(out)@.len() + 1,
        forall|k: int| 0 <= k < old(out)@.len() ==> #[trigger] final(out)@[k] == old(out)@[k],
        same_plugin(final(out)@.last(), *p),
{
    out.push(p.duplicate());
}

/// One more (`up`) or one fewer, never below zero.
pub open spec fn step(n: u64, up: bool) -> u64 {
    if up { (n + 1) as u64 } else if n > 0 { (n - 1) as u64 } else { 0 }
}

fn apply_step(n: u64, up: bool) -> (r: u64)
    requires
        up ==> n < u64::MAX,
    ensures
        r == step(n, up),
{
    if up {
        n + 1
    } else if n > 0 {
        n - 1
    } else {
        0
    }
}

/// Counts one more download on `day`.
fn bump_day(days: &mut Vec<(String, u64)>, day: &str)
    requires
        day_position(old(days)@, day@) matches Some(k) ==> old(days)@[k].1 < u64::MAX,
    ensures
        final(days)@.map_values(|d: (String, u64)| (d.0@, d.1)) == match day_position(old(days)@, day@) {
            Some(k) => old(days)@.map_values(|d: (String, u64)| (d.0@, d.1)).update(k, (day@, (old(days)@[k].1 + 1) as u64)),
            None => old(days)@.map_values(|d: (String, u64)| (d.0@, d.1)).push((day@, 1u64)),
        },
{
    let ghost before = days@;
    let mut i: usize = 0;
    while i < days.len()
        invariant
            days@ == before,
            before == old(days)@,
            i <= days@.len(),
            day_position(before, day@) matches Some(k) ==> before[k].1 < u64::MAX,
            forall|m: int| 0 <= m < i ==> (#[trigger] days@[m]).0@ != day@,
        decreases days.len() - i,
    {
        if str_equal(days[i].0.as_str(), day) {
            proof {
                lemma_day_position_at(before, day@, i as int);
            }
            let (d, n) = days.remove(i);
            days.insert(i, (d, n + 1));
            proof {
                assert(days@.map_values(|d: (String, u64)| (d.0@, d.1)) =~= before.map_values(|d: (String, u64)| (d.0@, d.1)).update(i as int, (day@, (before[i as int].1 + 1) as u64)));
            }
            return;
        }
        i = i + 1;
    }
    days.push((day.to_string(), 1));
    assert(days@.map_values(|d: (String, u64)| (d.0@, d.1)) =~= before.map_values(|d: (String, u64)| (d.0@, d.1)).push((day@, 1u64)));
}

/// Calls `chrono::Utc::now()` and formats the date as `%Y-%m-%d`. Nothing
/// is stated of the text: it depends on the current time.
#[verifier::external_body]
fn today_utc() -> (s: String) {
    chrono::Utc::now().format("%Y-%m-%d").to_string()
}

#[verifier::truncate]
fn count_u32(n: usize) -> (r: u32)
    ensures
        r == n as u32,
{
    n as u32
}

impl Default for MarketplaceRegistry {
    fn default() -> (r: Self)
        ensures
            r.wf(),
            r.catalog().len() == 0,
    {
        MarketplaceRegistry::new()
    }
}

} // verus!
