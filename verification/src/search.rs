//! Marketplace search: filtering the catalogue by text, category and tags,
//! ordering by the requested criterion, and cutting out one page.
use vstd::prelude::*;
use crate::marketplace::{PluginCategory, SearchQuery, SortBy};
use crate::text::{chars_contain, chars_of, contains_seq, lowercase, str_equal, unicode_lowercase};

verus! {

/// Lexicographic order of character sequences by code point (the order of
/// `str::cmp`): `a` comes strictly before `b`.
pub open spec fn seq_less(a: Seq<char>, b: Seq<char>) -> bool
    decreases a.len(),
{
    if a.len() == 0 {
        b.len() > 0
    } else if b.len() == 0 {
        false
    } else if a[0] != b[0] {
        (a[0] as u32) < (b[0] as u32)
    } else {
        seq_less(a.drop_first(), b.drop_first())
    }
}

/// No sequence comes before itself.
pub proof fn lemma_seq_less_irreflexive(a: Seq<char>)
    ensures
        !seq_less(a, a),
    decreases a.len(),
{
    if a.len() > 0 {
        lemma_seq_less_irreflexive(a.drop_first());
    }
}

/// The order is transitive.
pub proof fn lemma_seq_less_transitive(a: Seq<char>, b: Seq<char>, c: Seq<char>)
    requires
        seq_less(a, b),
        seq_less(b, c),
    ensures
        seq_less(a, c),
    decreases a.len(),
{
    if a.len() > 0 && b.len() > 0 && c.len() > 0 {
        if a[0] == b[0] && b[0] == c[0] {
            lemma_seq_less_transitive(a.drop_first(), b.drop_first(), c.drop_first());
        }
    }
}

/// Two different sequences are ordered one way or the other.
pub proof fn lemma_seq_less_total(a: Seq<char>, b: Seq<char>)
    requires
        a != b,
    ensures
        seq_less(a, b) || seq_less(b, a),
    decreases a.len(),
{
    if a.len() == 0 && b.len() == 0 {
        assert(a =~= b);
    } else if a.len() > 0 && b.len() > 0 {
        if a[0] == b[0] {
            if a.drop_first() == b.drop_first() {
                assert(a =~= seq![a[0]] + a.drop_first());
                assert(b =~= seq![b[0]] + b.drop_first());
            }
            lemma_seq_less_total(a.drop_first(), b.drop_first());
        } else {
            vstd::utf8::char_u32_cast(a[0], a[0] as u32);
            vstd::utf8::char_u32_cast(b[0], b[0] as u32);
        }
    }
}

/// `seq_less` on character vectors.
pub fn chars_less(a: &Vec<char>, b: &Vec<char>) -> (r: bool)
    ensures
        r == seq_less(a@, b@),
{
    let mut i: usize = 0;
    assert(a@.skip(0) =~= a@);
    assert(b@.skip(0) =~= b@);
    while i < a.len() && i < b.len() && a[i] == b[i]
        invariant
            i <= a@.len(),
            i <= b@.len(),
            seq_less(a@, b@) == seq_less(a@.skip(i as int), b@.skip(i as int)),
        decreases a.len() - i,
    {
        proof {
            let sa = a@.skip(i as int);
            let sb = b@.skip(i as int);
            assert(sa[0] == sb[0]);
            assert(sa.drop_first() =~= a@.skip(i + 1));
            assert(sb.drop_first() =~= b@.skip(i + 1));
        }
        i = i + 1;
    }
    proof {
        let sa = a@.skip(i as int);
        let sb = b@.skip(i as int);
        if i < a.len() && i < b.len() {
            assert(sa[0] == a@[i as int] && sb[0] == b@[i as int]);
        }
    }
    if i < a.len() && i < b.len() {
        (a[i] as u32) < (b[i] as u32)
    } else {
        i == a.len() && i < b.len()
    }
}

/// What the search reads of a catalogue plugin. `rating_rank` orders
/// plugins by rating (a higher rank is a better rating); times are
/// milliseconds since the Unix epoch.
#[derive(Debug, Clone)]
pub struct Listing {
    pub id: String,
    pub name: String,
    pub description: String,
    pub tags: Vec<String>,
    pub category: PluginCategory,
    pub downloads: u64,
    pub rating_rank: u64,
    pub created_at: i64,
    pub updated_at: i64,
}

/// The plugin mentions the (lower-cased) query text in its name, its
/// description or one of its tags, ignoring case.
pub open spec fn text_hit(l: Listing, q: Seq<char>) -> bool {
    let ql = unicode_lowercase(q);
    ||| contains_seq(unicode_lowercase(l.name@), ql)
    ||| contains_seq(unicode_lowercase(l.description@), ql)
    ||| exists|t: int| 0 <= t < l.tags@.len() && contains_seq(unicode_lowercase((#[trigger] l.tags@[t])@), ql)
}

/// The plugin has one of the requested tags.
pub open spec fn tag_hit(l: Listing, tags: Seq<String>) -> bool {
    exists|i: int, j: int| 0 <= i < tags.len() && 0 <= j < l.tags@.len() && (#[trigger] tags[i])@ == (#[trigger] l.tags@[j])@
}

/// The plugin passes the query's category, text and tag filters.
pub open spec fn listing_matches(l: Listing, q: SearchQuery) -> bool {
    &&& (q.category matches Some(c) ==> l.category == c)
    &&& (q.query matches Some(t) ==> text_hit(l, t@))
    &&& (q.tags@.len() > 0 ==> tag_hit(l, q.tags@))
}

/// `a` is ordered strictly before `b` by the sort criterion: most
/// downloads, best rating, newest, most recently updated, or name.
pub open spec fn key_before(by: SortBy, a: Listing, b: Listing) -> bool {
    match by {
        SortBy::Downloads => a.downloads > b.downloads,
        SortBy::Rating => a.rating_rank > b.rating_rank,
        SortBy::Newest => a.created_at > b.created_at,
        SortBy::Updated => a.updated_at > b.updated_at,
        SortBy::Relevance => seq_less(a.name@, b.name@),
    }
}

/// Catalogue position `i` comes before position `j` in the results: by the
/// sort criterion, and by catalogue order among equals (a stable sort).
pub open spec fn precedes(by: SortBy, ls: Seq<Listing>, i: int, j: int) -> bool {
    key_before(by, ls[i], ls[j]) || (!key_before(by, ls[j], ls[i]) && i < j)
}

/// What placing position `i` before position `j` means for each sort
/// criterion: at least as many downloads, at least as good a rating, a
/// creation or an update at least as recent, or a name that does not come
/// later alphabetically; on a tie the earlier catalogue position comes
/// first.
pub proof fn lemma_precedes_by_criterion(by: SortBy, ls: Seq<Listing>, i: int, j: int)
    requires
        0 <= i < ls.len(),
        0 <= j < ls.len(),
        precedes(by, ls, i, j),
    ensures
        by == SortBy::Downloads ==> ls[i].downloads >= ls[j].downloads
            && (ls[i].downloads == ls[j].downloads ==> i < j),
        by == SortBy::Rating ==> ls[i].rating_rank >= ls[j].rating_rank
            && (ls[i].rating_rank == ls[j].rating_rank ==> i < j),
        by == SortBy::Newest ==> ls[i].created_at >= ls[j].created_at
            && (ls[i].created_at == ls[j].created_at ==> i < j),
        by == SortBy::Updated ==> ls[i].updated_at >= ls[j].updated_at
            && (ls[i].updated_at == ls[j].updated_at ==> i < j),
        by == SortBy::Relevance ==> !seq_less(ls[j].name@, ls[i].name@)
            && (ls[i].name@ == ls[j].name@ ==> i < j),
{
    if by == SortBy::Relevance && ls[i].name@ == ls[j].name@ {
        lemma_seq_less_irreflexive(ls[i].name@);
    }
    if by == SortBy::Relevance && seq_less(ls[j].name@, ls[i].name@) && seq_less(ls[i].name@, ls[j].name@) {
        lemma_seq_less_transitive(ls[i].name@, ls[j].name@, ls[i].name@);
        lemma_seq_less_irreflexive(ls[i].name@);
    }
}

/// In a search result, an earlier plugin has at least as many downloads
/// (most downloaded first), at least as good a rating, a creation or an
/// update at least as recent (newest and most recently updated first), or
/// a name that does not come later (by name); ties keep catalogue order.
pub proof fn lemma_search_result_order(ls: Seq<Listing>, q: SearchQuery, s: Seq<usize>, a: int, b: int)
    requires
        is_ordered_matches(ls, q, s),
        0 <= a < b < s.len(),
    ensures
        ({
            let x = ls[s[a] as int];
            let y = ls[s[b] as int];
            &&& q.sort_by == SortBy::Downloads ==> x.downloads >= y.downloads && (x.downloads == y.downloads ==> s[a] < s[b])
            &&& q.sort_by == SortBy::Rating ==> x.rating_rank >= y.rating_rank && (x.rating_rank == y.rating_rank ==> s[a] < s[b])
            &&& q.sort_by == SortBy::Newest ==> x.created_at >= y.created_at && (x.created_at == y.created_at ==> s[a] < s[b])
            &&& q.sort_by == SortBy::Updated ==> x.updated_at >= y.updated_at && (x.updated_at == y.updated_at ==> s[a] < s[b])
            &&& q.sort_by == SortBy::Relevance ==> !seq_less(y.name@, x.name@) && (x.name@ == y.name@ ==> s[a] < s[b])
        }),
{
    assert(precedes(q.sort_by, ls, s[a] as int, s[b] as int));
    lemma_precedes_by_criterion(q.sort_by, ls, s[a] as int, s[b] as int);
}

/// `s` lists, in result order, each catalogue position whose plugin
/// matches the query, once.
pub open spec fn is_ordered_matches(ls: Seq<Listing>, q: SearchQuery, s: Seq<usize>) -> bool {
    &&& forall|k: int| 0 <= k < s.len() ==> (#[trigger] s[k]) < ls.len() && listing_matches(ls[s[k] as int], q)
    &&& forall|i: int| 0 <= i < ls.len() && listing_matches(ls[i], q) ==> exists|k: int| 0 <= k < s.len() && #[trigger] s[k] == i
    &&& forall|a: int, b: int| 0 <= a < b < s.len() ==> precedes(q.sort_by, ls, #[trigger] s[a] as int, #[trigger] s[b] as int)
}

proof fn lemma_key_asym(by: SortBy, x: Listing, y: Listing)
    ensures
        !(key_before(by, x, y) && key_before(by, y, x)),
{
    if by == SortBy::Relevance && seq_less(x.name@, y.name@) && seq_less(y.name@, x.name@) {
        lemma_seq_less_transitive(x.name@, y.name@, x.name@);
        lemma_seq_less_irreflexive(x.name@);
    }
}

proof fn lemma_key_trans(by: SortBy, x: Listing, y: Listing, z: Listing)
    requires
        key_before(by, x, y),
        key_before(by, y, z),
    ensures
        key_before(by, x, z),
{
    if by == SortBy::Relevance {
        lemma_seq_less_transitive(x.name@, y.name@, z.name@);
    }
}

/// Neither before the other means equal keys: then the two compare alike
/// with any third plugin.
proof fn lemma_key_equiv(by: SortBy, x: Listing, y: Listing, z: Listing)
    requires
        !key_before(by, x, y),
        !key_before(by, y, x),
    ensures
        key_before(by, x, z) == key_before(by, y, z),
        key_before(by, z, x) == key_before(by, z, y),
{
    if by == SortBy::Relevance {
        if x.name@ != y.name@ {
            lemma_seq_less_total(x.name@, y.name@);
        }
    }
}

/// `precedes` is a strict total order on catalogue positions.
pub proof fn lemma_precedes_order(by: SortBy, ls: Seq<Listing>, i: int, j: int, k: int)
    requires
        0 <= i < ls.len(),
        0 <= j < ls.len(),
        0 <= k < ls.len(),
    ensures
        !precedes(by, ls, i, i),
        i != j ==> (precedes(by, ls, i, j) || precedes(by, ls, j, i)),
        !(precedes(by, ls, i, j) && precedes(by, ls, j, i)),
        precedes(by, ls, i, j) && precedes(by, ls, j, k) ==> precedes(by, ls, i, k),
{
    lemma_key_asym(by, ls[i], ls[j]);
    lemma_key_asym(by, ls[i], ls[i]);
    if precedes(by, ls, i, j) && precedes(by, ls, j, k) {
        if key_before(by, ls[i], ls[j]) && key_before(by, ls[j], ls[k]) {
            lemma_key_trans(by, ls[i], ls[j], ls[k]);
        } else if key_before(by, ls[i], ls[j]) {
            lemma_key_equiv(by, ls[j], ls[k], ls[i]);
            lemma_key_asym(by, ls[i], ls[k]);
        } else if key_before(by, ls[j], ls[k]) {
            lemma_key_equiv(by, ls[i], ls[j], ls[k]);
            lemma_key_asym(by, ls[i], ls[k]);
        } else {
            lemma_key_equiv(by, ls[i], ls[j], ls[k]);
        }
    }
}

/// `s` is strictly increasing under `precedes`.
pub open spec fn strictly_ordered(by: SortBy, ls: Seq<Listing>, s: Seq<usize>) -> bool {
    &&& forall|k: int| 0 <= k < s.len() ==> (#[trigger] s[k]) < ls.len()
    &&& forall|a: int, b: int| 0 <= a < b < s.len() ==> precedes(by, ls, #[trigger] s[a] as int, #[trigger] s[b] as int)
}

proof fn lemma_sorted_unique(by: SortBy, ls: Seq<Listing>, s1: Seq<usize>, s2: Seq<usize>)
    requires
        strictly_ordered(by, ls, s1),
        strictly_ordered(by, ls, s2),
        forall|x: usize| s1.contains(x) <==> s2.contains(x),
    ensures
        s1 == s2,
    decreases s1.len(),
{
    if s1.len() == 0 {
        if s2.len() > 0 {
            assert(s2.contains(s2[0]));
        }
        assert(s1 =~= s2);
    } else {
        assert(s1.contains(s1[0]));
        let a = s1[0];
        let b = s2[0];
        assert(s2.contains(b));
        let m = choose|m: int| 0 <= m < s1.len() && s1[m] == b;
        let m2 = choose|m2: int| 0 <= m2 < s2.len() && s2[m2] == a;
        if a != b {
            assert(m > 0 && m2 > 0);
            assert(precedes(by, ls, s1[0] as int, s1[m] as int));
            assert(precedes(by, ls, s2[0] as int, s2[m2] as int));
            lemma_precedes_order(by, ls, a as int, b as int, a as int);
        }
        let t1 = s1.drop_first();
        let t2 = s2.drop_first();
        assert forall|x: usize| t1.contains(x) <==> t2.contains(x) by {
            if t1.contains(x) {
                let k = choose|k: int| 0 <= k < t1.len() && t1[k] == x;
                assert(s1[k + 1] == x);
                assert(precedes(by, ls, s1[0] as int, s1[k + 1] as int));
                lemma_precedes_order(by, ls, x as int, x as int, x as int);
                assert(x != a);
                assert(s2.contains(x));
                let k2 = choose|k2: int| 0 <= k2 < s2.len() && s2[k2] == x;
                assert(k2 != 0);
                assert(t2[k2 - 1] == x);
            }
            if t2.contains(x) {
                let k = choose|k: int| 0 <= k < t2.len() && t2[k] == x;
                assert(s2[k + 1] == x);
                assert(precedes(by, ls, s2[0] as int, s2[k + 1] as int));
                lemma_precedes_order(by, ls, x as int, x as int, x as int);
                assert(x != b);
                assert(s1.contains(x));
                let k1 = choose|k1: int| 0 <= k1 < s1.len() && s1[k1] == x;
                assert(k1 != 0);
                assert(t1[k1 - 1] == x);
            }
        }
        assert forall|a2: int, b2: int| 0 <= a2 < b2 < t1.len() implies precedes(by, ls, #[trigger] t1[a2] as int, #[trigger] t1[b2] as int) by {
            assert(t1[a2] == s1[a2 + 1] && t1[b2] == s1[b2 + 1]);
        }
        assert forall|a2: int, b2: int| 0 <= a2 < b2 < t2.len() implies precedes(by, ls, #[trigger] t2[a2] as int, #[trigger] t2[b2] as int) by {
            assert(t2[a2] == s2[a2 + 1] && t2[b2] == s2[b2 + 1]);
        }
        lemma_sorted_unique(by, ls, t1, t2);
        assert(s1 =~= seq![a] + t1);
        assert(s2 =~= seq![b] + t2);
    }
}

/// The ordered matches of a query are unique: the search result is fully
/// determined by the catalogue and the query.
pub proof fn lemma_ordered_matches_unique(ls: Seq<Listing>, q: SearchQuery, s1: Seq<usize>, s2: Seq<usize>)
    requires
        is_ordered_matches(ls, q, s1),
        is_ordered_matches(ls, q, s2),
    ensures
        s1 == s2,
{
    assert forall|x: usize| s1.contains(x) <==> s2.contains(x) by {
        if s1.contains(x) {
            let k = choose|k: int| 0 <= k < s1.len() && s1[k] == x;
            assert(listing_matches(ls[s1[k] as int], q));
            let k2 = choose|k2: int| 0 <= k2 < s2.len() && #[trigger] s2[k2] == x as int;
            assert(s2[k2] == x);
        }
        if s2.contains(x) {
            let k = choose|k: int| 0 <= k < s2.len() && s2[k] == x;
            assert(listing_matches(ls[s2[k] as int], q));
            let k1 = choose|k1: int| 0 <= k1 < s1.len() && #[trigger] s1[k1] == x as int;
            assert(s1[k1] == x);
        }
    }
    lemma_sorted_unique(q.sort_by, ls, s1, s2);
}

/// One page of search results: catalogue positions of the plugins on the
/// page, the number of matches, and the page number and size used.
pub struct SearchPage {
    pub plugins: Vec<usize>,
    pub total: u64,
    pub page: u32,
    pub page_size: u32,
}

/// Page number actually used: at least 1.
pub open spec fn effective_page(q: SearchQuery) -> u32 {
    if q.page < 1 { 1 } else { q.page }
}

/// Page size actually used: between 1 and 100.
pub open spec fn effective_page_size(q: SearchQuery) -> u32 {
    if q.page_size < 1 { 1 } else if q.page_size > 100 { 100 } else { q.page_size }
}

/// The part of `all` from position `offset`, at most `size` long.
pub open spec fn page_slice(all: Seq<usize>, offset: int, size: int) -> Seq<usize> {
    if offset >= all.len() {
        Seq::empty()
    } else if offset + size < all.len() {
        all.subrange(offset, offset + size)
    } else {
        all.subrange(offset, all.len() as int)
    }
}

fn text_matches(l: &Listing, q: &str) -> (b: bool)
    ensures
        b == text_hit(*l, q@),
{
    let ql = chars_of(lowercase(q).as_str());
    let name = chars_of(lowercase(l.name.as_str()).as_str());
    if chars_contain(&name, &ql) {
        return true;
    }
    let desc = chars_of(lowercase(l.description.as_str()).as_str());
    if chars_contain(&desc, &ql) {
        return true;
    }
    let mut t: usize = 0;
    while t < l.tags.len()
        invariant
            t <= l.tags@.len(),
            ql@ == unicode_lowercase(q@),
            forall|m: int| 0 <= m < t ==> !contains_seq(unicode_lowercase((#[trigger] l.tags@[m])@), ql@),
        decreases l.tags.len() - t,
    {
        let tag = chars_of(lowercase(l.tags[t].as_str()).as_str());
        if chars_contain(&tag, &ql) {
            return true;
        }
        t = t + 1;
    }
    false
}

fn tags_match(l: &Listing, tags: &Vec<String>) -> (b: bool)
    ensures
        b == tag_hit(*l, tags@),
{
    let mut i: usize = 0;
    while i < tags.len()
        invariant
            i <= tags@.len(),
            forall|a: int, c: int| 0 <= a < i && 0 <= c < l.tags@.len() ==> (#[trigger] tags@[a])@ != (#[trigger] l.tags@[c])@,
        decreases tags.len() - i,
    {
        let mut j: usize = 0;
        while j < l.tags.len()
            invariant
                i < tags@.len(),
                j <= l.tags@.len(),
                forall|a: int, c: int| 0 <= a < i && 0 <= c < l.tags@.len() ==> (#[trigger] tags@[a])@ != (#[trigger] l.tags@[c])@,
                forall|c: int| 0 <= c < j ==> tags@[i as int]@ != (#[trigger] l.tags@[c])@,
            decreases l.tags.len() - j,
        {
            if str_equal(tags[i].as_str(), l.tags[j].as_str()) {
                return true;
            }
            j = j + 1;
        }
        i = i + 1;
    }
    false
}

/// Whether the plugin passes the query's filters.
pub fn matches_query(l: &Listing, q: &SearchQuery) -> (b: bool)
    ensures
        b == listing_matches(*l, *q),
{
    match q.category {
        Some(c) => {
            if l.category != c {
                return false;
            }
        },
        None => {},
    }
    match &q.query {
        Some(t) => {
            if !text_matches(l, t.as_str()) {
                return false;
            }
        },
        None => {},
    }
    if q.tags.len() > 0 && !tags_match(l, &q.tags) {
        return false;
    }
    true
}

fn key_before_exec(by: SortBy, a: &Listing, b: &Listing) -> (r: bool)
    ensures
        r == key_before(by, *a, *b),
{
    match by {
        SortBy::Downloads => a.downloads > b.downloads,
        SortBy::Rating => a.rating_rank > b.rating_rank,
        SortBy::Newest => a.created_at > b.created_at,
        SortBy::Updated => a.updated_at > b.updated_at,
        SortBy::Relevance => chars_less(&chars_of(a.name.as_str()), &chars_of(b.name.as_str())),
    }
}

/// Positions of the catalogue plugins matching `q`, in result order.
fn ordered_matches(ls: &Vec<Listing>, q: &SearchQuery) -> (r: Vec<usize>)
    ensures
        is_ordered_matches(ls@, *q, r@),
{
    let by = q.sort_by;
    let mut r: Vec<usize> = Vec::new();
    let mut i: usize = 0;
    while i < ls.len()
        invariant
            by == q.sort_by,
            i <= ls@.len(),
            strictly_ordered(by, ls@, r@),
            forall|k: int| 0 <= k < r@.len() ==> (#[trigger] r@[k]) < i && listing_matches(ls@[r@[k] as int], *q),
            forall|x: int| 0 <= x < i && listing_matches(ls@[x], *q) ==> exists|k: int| 0 <= k < r@.len() && #[trigger] r@[k] == x,
        decreases ls.len() - i,
    {
        if matches_query(&ls[i], q) {
            let mut pos: usize = 0;
            while pos < r.len() && !key_before_exec(by, &ls[i], &ls[r[pos]])
                invariant
                    i < ls@.len(),
                    pos <= r@.len(),
                    forall|k: int| 0 <= k < r@.len() ==> (#[trigger] r@[k]) < i,
                    strictly_ordered(by, ls@, r@),
                    forall|k: int| 0 <= k < pos ==> !key_before(by, ls@[i as int], ls@[#[trigger] r@[k] as int]),
                decreases r.len() - pos,
            {
                pos = pos + 1;
            }
            let ghost old_r = r@;
            r.insert(pos, i);
            proof {
                let n = r@;
                assert(forall|k: int| 0 <= k < pos ==> n[k] == old_r[k]);
                assert(forall|k: int| pos < k < n.len() ==> n[k] == old_r[k - 1]);
                assert(n[pos as int] == i);
                assert forall|a: int, b: int| 0 <= a < b < n.len() implies precedes(by, ls@, #[trigger] n[a] as int, #[trigger] n[b] as int) by {
                    if a < pos && b < pos {
                        assert(precedes(by, ls@, old_r[a] as int, old_r[b] as int));
                    } else if a < pos && b == pos {
                        assert(!key_before(by, ls@[i as int], ls@[old_r[a] as int]));
                    } else if a < pos && b > pos {
                        assert(precedes(by, ls@, old_r[a] as int, old_r[b - 1] as int));
                    } else if a == pos {
                        assert(key_before(by, ls@[i as int], ls@[old_r[pos as int] as int]));
                        if b - 1 > pos {
                            assert(precedes(by, ls@, old_r[pos as int] as int, old_r[b - 1] as int));
                            lemma_precedes_order(by, ls@, i as int, old_r[pos as int] as int, old_r[b - 1] as int);
                        }
                    } else {
                        assert(precedes(by, ls@, old_r[a - 1] as int, old_r[b - 1] as int));
                    }
                }
                assert forall|x: int| 0 <= x < i + 1 && listing_matches(ls@[x], *q) implies exists|k: int| 0 <= k < n.len() && #[trigger] n[k] == x by {
                    if x == i {
                        assert(n[pos as int] == x);
                    } else {
                        let k = choose|k: int| 0 <= k < old_r.len() && #[trigger] old_r[k] == x;
                        if k < pos {
                            assert(n[k] == x);
                        } else {
                            assert(n[k + 1] == x);
                        }
                    }
                }
            }
        }
        i = i + 1;
    }
    r
}

/// Searches the catalogue: the plugins matching the query's category, text
/// and tags, ordered by its sort criterion (ties keep catalogue order), and
/// the requested page of them (page at least 1, size clamped to 1..=100).
pub fn search_catalog(ls: &Vec<Listing>, q: &SearchQuery) -> (r: SearchPage)
    requires
        (effective_page(*q) - 1) * effective_page_size(*q) <= u32::MAX,
    ensures
        r.page == effective_page(*q),
        r.page_size == effective_page_size(*q),
        exists|all: Seq<usize>| #[trigger] is_ordered_matches(ls@, *q, all) && r.total == all.len() && r.plugins@
            == page_slice(all, (r.page - 1) * r.page_size, r.page_size as int),
{
    let page: u32 = if q.page < 1 { 1 } else { q.page };
    let page_size: u32 = if q.page_size < 1 {
        1
    } else if q.page_size > 100 {
        100
    } else {
        q.page_size
    };
    let all = ordered_matches(ls, q);
    let total = all.len() as u64;
    let offset = ((page - 1) * page_size) as usize;
    let mut plugins: Vec<usize> = Vec::new();
    if offset < all.len() {
        let end = if all.len() - offset > page_size as usize { offset + page_size as usize } else { all.len() };
        let mut k = offset;
        while k < end
            invariant
                offset <= k <= end <= all@.len(),
                plugins@ == all@.subrange(offset as int, k as int),
            decreases end - k,
        {
            plugins.push(all[k]);
            k = k + 1;
            assert(plugins@ =~= all@.subrange(offset as int, k as int));
        }
    }
    proof {
        assert(is_ordered_matches(ls@, *q, all@));
        assert(plugins@ =~= page_slice(all@, (page - 1) * page_size, page_size as int));
    }
    SearchPage { plugins, total, page, page_size }
}

/// `s` lists every catalogue position once, ordered by `by` (ties in
/// catalogue order).
pub open spec fn is_full_ranking(by: SortBy, ls: Seq<Listing>, s: Seq<usize>) -> bool {
    &&& strictly_ordered(by, ls, s)
    &&& forall|i: int| 0 <= i < ls.len() ==> #[trigger] lists_position(s, i)
}

/// `s` holds the catalogue position `i`.
pub open spec fn lists_position(s: Seq<usize>, i: int) -> bool {
    exists|k: int| 0 <= k < s.len() && s[k] == i
}

/// A full ranking lists each position exactly once, so it is as long as
/// the catalogue.
pub proof fn lemma_full_ranking_len(by: SortBy, ls: Seq<Listing>, s: Seq<usize>)
    requires
        is_full_ranking(by, ls, s),
    ensures
        s.len() == ls.len(),
{
    let t = s.map_values(|x: usize| x as int);
    assert forall|a: int, b: int| 0 <= a < t.len() && 0 <= b < t.len() && a != b implies t[a] != t[b] by {
        if a < b {
            assert(precedes(by, ls, s[a] as int, s[b] as int));
        } else {
            assert(precedes(by, ls, s[b] as int, s[a] as int));
        }
        lemma_precedes_order(by, ls, s[a] as int, s[a] as int, s[a] as int);
    }
    assert(t.no_duplicates());
    t.unique_seq_to_set();
    assert forall|x: int| t.to_set().contains(x) <==> vstd::set_lib::set_int_range(0, ls.len() as int).contains(x) by {
        if t.to_set().contains(x) {
            let k = choose|k: int| 0 <= k < t.len() && t[k] == x;
            assert(s[k] < ls.len());
        }
        if 0 <= x < ls.len() {
            assert(lists_position(s, x));
            let k = choose|k: int| 0 <= k < s.len() && s[k] == x;
            assert(t[k] == x);
        }
    }
    assert(t.to_set() =~= vstd::set_lib::set_int_range(0, ls.len() as int));
    vstd::set_lib::lemma_int_range(0, ls.len() as int);
}

/// Every catalogue position, ordered by `by` (ties keep catalogue order).
pub fn rank_all(ls: &Vec<Listing>, by: SortBy) -> (r: Vec<usize>)
    ensures
        is_full_ranking(by, ls@, r@),
{
    let q = SearchQuery { query: None, category: None, tags: Vec::new(), sort_by: by, page: 1, page_size: 1 };
    let all = ordered_matches(ls, &q);
    proof {
        assert forall|i: int| 0 <= i < ls@.len() implies #[trigger] lists_position(all@, i) by {
            assert(listing_matches(ls@[i], q));
        }
    }
    all
}

/// Positions of the `limit` most downloaded plugins, most downloaded first
/// (ties keep catalogue order).
pub fn popular(ls: &Vec<Listing>, limit: usize) -> (r: Vec<usize>)
    ensures
        exists|all: Seq<usize>| #[trigger] is_full_ranking(SortBy::Downloads, ls@, all)
            && r@ == (if limit < all.len() { all.subrange(0, limit as int) } else { all }),
{
    let q = SearchQuery { query: None, category: None, tags: Vec::new(), sort_by: SortBy::Downloads, page: 1, page_size: 1 };
    let all = ordered_matches(ls, &q);
    let mut r: Vec<usize> = Vec::new();
    let mut k: usize = 0;
    while k < all.len() && k < limit
        invariant
            k <= all@.len(),
            k <= limit,
            r@ == all@.subrange(0, k as int),
        decreases all.len() - k,
    {
        r.push(all[k]);
        k = k + 1;
        assert(r@ =~= all@.subrange(0, k as int));
    }
    proof {
        if limit >= all@.len() {
            assert(all@.subrange(0, all@.len() as int) =~= all@);
        }
        assert forall|i: int| 0 <= i < ls@.len() implies #[trigger] lists_position(all@, i) by {
            assert(listing_matches(ls@[i], q));
        }
        assert(is_full_ranking(SortBy::Downloads, ls@, all@));
    }
    r
}

} // verus!
