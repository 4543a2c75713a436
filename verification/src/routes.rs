//! Registry of the HTTP routes that plugins contribute, with conflict
//! detection between plugins and bulk removal per plugin.
use vstd::prelude::*;
use crate::host_types::RouteDefinition;
use crate::keyed::{
    entry_for, find_key, lemma_entry_none, lemma_entry_push, lemma_entry_remove, lemma_entry_set,
    lemma_entry_unique, unique_keys,
};
use crate::text::{push_str, str_equal, unicode_uppercase, uppercase};

verus! {

/// Canonical key of a route: the upper-cased method, a space, the path.
pub open spec fn route_key(method: Seq<char>, path: Seq<char>) -> Seq<char> {
    unicode_uppercase(method) + " "@ + path
}

/// Message of a refused registration.
pub open spec fn conflict_message(method: Seq<char>, path: Seq<char>, owner: Seq<char>) -> Seq<char> {
    "route conflict: "@ + method + " "@ + path + " is already owned by plugin '"@ + owner + "'"@
}

/// Registry of plugin routes.
pub struct RouteRegistry {
    /// Route key to its definition.
    routes: Vec<(String, RouteDefinition)>,
    /// Plugin id to the keys it registered, in order, each once.
    plugin_routes: Vec<(String, Vec<String>)>,
}

fn route_key_of(method: &str, path: &str) -> (k: String)
    ensures
        k@ == route_key(method@, path@),
{
    let mut k = uppercase(method);
    push_str(&mut k, " ");
    push_str(&mut k, path);
    k
}

impl RouteRegistry {
    /// No key or plugin listed twice, and no plugin lists a key twice.
    pub closed spec fn wf(self) -> bool {
        &&& unique_keys(self.routes@)
        &&& unique_keys(self.plugin_routes@)
        &&& forall|p: Seq<char>| #[trigger] self.keys_of(p).no_duplicates()
    }

    /// The route registered under `key`, if any.
    pub closed spec fn route_at(self, key: Seq<char>) -> Option<RouteDefinition> {
        entry_for(self.routes@, key)
    }

    /// The keys registered by `plugin`, in order.
    pub closed spec fn keys_of(self, plugin: Seq<char>) -> Seq<Seq<char>> {
        match entry_for(self.plugin_routes@, plugin) {
            Some(v) => v@.map_values(|s: String| s@),
            None => Seq::empty(),
        }
    }

    /// The routes still registered under `names`, in the order of `names`
    /// (names with no route are skipped).
    pub open spec fn present_routes(self, names: Seq<Seq<char>>) -> Seq<RouteDefinition>
        decreases names.len(),
    {
        if names.len() == 0 {
            Seq::empty()
        } else {
            let before = self.present_routes(names.drop_last());
            match self.route_at(names.last()) {
                Some(d) => before.push(d),
                None => before,
            }
        }
    }

    /// The registered routes, in registration order of their keys.
    pub closed spec fn definitions(self) -> Seq<RouteDefinition> {
        self.routes@.map_values(|e: (String, RouteDefinition)| e.1)
    }

    /// Distinct key lists stay distinct when only `plugin`'s list changes
    /// and it stays distinct.
    proof fn lemma_keys_distinct(before: Self, after: Self, plugin: Seq<char>)
        requires
            forall|p: Seq<char>| #[trigger] before.keys_of(p).no_duplicates(),
            forall|p: Seq<char>| p != plugin ==> #[trigger] after.keys_of(p) == before.keys_of(p),
            after.keys_of(plugin).no_duplicates(),
        ensures
            forall|p: Seq<char>| #[trigger] after.keys_of(p).no_duplicates(),
    {
        assert forall|p: Seq<char>| #[trigger] after.keys_of(p).no_duplicates() by {
            if p != plugin {
                assert(after.keys_of(p) == before.keys_of(p));
                assert(before.keys_of(p).no_duplicates());
            }
        }
    }

    /// Dropping every `x` from a list without repeats leaves a list without
    /// repeats, of items the list had.
    proof fn lemma_without_distinct(v: Seq<Seq<char>>, x: Seq<char>)
        requires
            v.no_duplicates(),
        ensures
            crate::channel::without(v, x).no_duplicates(),
            forall|y: Seq<char>| #[trigger] crate::channel::without(v, x).contains(y) ==> v.contains(y),
        decreases v.len(),
    {
        if v.len() > 0 {
            let d = v.drop_last();
            assert(d.no_duplicates()) by {
                assert forall|a: int, b: int| 0 <= a < d.len() && 0 <= b < d.len() && a != b implies d[a] != d[b] by {
                    assert(d[a] == v[a] && d[b] == v[b]);
                }
            }
            Self::lemma_without_distinct(d, x);
            let w = crate::channel::without(d, x);
            assert forall|y: Seq<char>| #[trigger] w.contains(y) implies v.contains(y) by {
                let q = choose|q: int| 0 <= q < d.len() && d[q] == y;
                assert(v[q] == y);
            }
            if v.last() != x {
                assert(!w.contains(v.last())) by {
                    if w.contains(v.last()) {
                        let q = choose|q: int| 0 <= q < d.len() && d[q] == v.last();
                        assert(v[q] == v[v.len() - 1]);
                    }
                }
                let wp = w.push(v.last());
                assert forall|a: int, b: int| 0 <= a < wp.len() && 0 <= b < wp.len() && a != b implies wp[a] != wp[b] by {
                    if a == w.len() {
                        assert(w.contains(w[b]));
                    } else if b == w.len() {
                        assert(w.contains(w[a]));
                    }
                }
                assert forall|y: Seq<char>| #[trigger] wp.contains(y) implies v.contains(y) by {
                    let q = choose|q: int| 0 <= q < wp.len() && wp[q] == y;
                    if q < w.len() {
                        assert(w.contains(y));
                    } else {
                        assert(v[v.len() - 1] == y);
                    }
                }
            }
        }
    }

    /// The listed routes are exactly the routes registered under some key:
    /// every listed route is the one of its key, every registered route is
    /// listed, and the list is empty exactly when no key has a route.
    pub proof fn lemma_definitions_are_routes(self)
        requires
            self.wf(),
        ensures
            forall|d: RouteDefinition| #[trigger] self.definitions().contains(d) ==> exists|k: Seq<char>| self.route_at(k) == Some(d),
            forall|k: Seq<char>| #[trigger] self.route_at(k) is Some ==> self.definitions().contains(self.route_at(k)->Some_0),
            self.definitions().len() == 0 <==> forall|k: Seq<char>| #[trigger] self.route_at(k) is None,
    {
        let v = self.routes@;
        let defs = self.definitions();
        assert forall|d: RouteDefinition| #[trigger] defs.contains(d) implies exists|k: Seq<char>| self.route_at(k) == Some(d) by {
            let i = choose|i: int| 0 <= i < defs.len() && defs[i] == d;
            lemma_entry_unique(v, i);
            assert(self.route_at(v[i].0@) == Some(d));
        }
        assert forall|k: Seq<char>| #[trigger] self.route_at(k) is Some implies defs.contains(self.route_at(k)->Some_0) by {
            {
                let i = choose|i: int| 0 <= i < v.len() && (#[trigger] v[i]).0@ == k && forall|m: int| 0 <= m < i ==> (#[trigger] v[m]).0@ != k;
                assert(defs[i] == v[i].1);
            }
        }
        if defs.len() > 0 {
            lemma_entry_unique(v, 0);
            assert(self.route_at(v[0].0@) is Some);
        }
        if defs.len() == 0 {
            assert forall|k: Seq<char>| #[trigger] self.route_at(k) is None by {
                assert(v.len() == 0);
            }
        }
    }

    /// An empty registry.
    pub fn new() -> (r: Self)
        ensures
            r.wf(),
            forall|k: Seq<char>| r.route_at(k) is None,
            forall|p: Seq<char>| r.keys_of(p).len() == 0,
            r.definitions().len() == 0,
    {
        let r = RouteRegistry { routes: Vec::new(), plugin_routes: Vec::new() };
        assert(r.definitions() =~= Seq::<RouteDefinition>::empty());
        r
    }

    /// Registers `definition` for `plugin_id`. Another plugin owning the same
    /// method and path is a conflict; the same plugin re-registering
    /// replaces the definition and keeps the key listed once.
    pub fn register(&mut self, plugin_id: &str, definition: RouteDefinition) -> (r: Result<(), String>)
        requires
            old(self).wf(),
        ensures
            final(self).wf(),
            ({
                let k = route_key(definition.method@, definition.path@);
                match old(self).route_at(k) {
                    Some(existing) if existing.plugin_id@ != plugin_id@ => {
                        &&& r matches Err(m) && m@ == conflict_message(definition.method@, definition.path@, existing.plugin_id@)
                        &&& *final(self) == *old(self)
                    },
                    _ => {
                        &&& r is Ok
                        &&& final(self).route_at(k) == Some(definition)
                        &&& forall|j: Seq<char>| j != k ==> final(self).route_at(j) == old(self).route_at(j)
                        &&& final(self).keys_of(plugin_id@) == if old(self).keys_of(plugin_id@).contains(k) {
                            old(self).keys_of(plugin_id@)
                        } else {
                            old(self).keys_of(plugin_id@).push(k)
                        }
                        &&& forall|p: Seq<char>| p != plugin_id@ ==> final(self).keys_of(p) == old(self).keys_of(p)
                    },
                }
            }),
    {
        let k = route_key_of(definition.method.as_str(), definition.path.as_str());
        let ghost rv = self.routes@;
        let ghost pv = self.plugin_routes@;
        let found = find_key(&self.routes, k.as_str());
        match found {
            Some(i) => {
                proof {
                    lemma_entry_unique(rv, i as int);
                }
                if !str_equal(self.routes[i].1.plugin_id.as_str(), plugin_id) {
                    let mut m = String::new();
                    push_str(&mut m, "route conflict: ");
                    push_str(&mut m, definition.method.as_str());
                    push_str(&mut m, " ");
                    push_str(&mut m, definition.path.as_str());
                    push_str(&mut m, " is already owned by plugin '");
                    push_str(&mut m, self.routes[i].1.plugin_id.as_str());
                    push_str(&mut m, "'");
                    return Err(m);
                }
                let key = self.routes[i].0.clone();
                let ghost d = definition;
                self.routes.set(i, (key, definition));
                proof {
                    assert(self.routes@ == rv.update(i as int, (rv[i as int].0, d)));
                    lemma_entry_set(rv, i as int, d);
                }
            },
            None => {
                proof {
                    lemma_entry_none(rv, k@);
                }
                let key = k.clone();
                let ghost kk = key;
                let ghost d = definition;
                self.routes.push((key, definition));
                proof {
                    lemma_entry_push(rv, kk, d);
                }
            },
        }
        match find_key(&self.plugin_routes, plugin_id) {
            Some(j) => {
                proof {
                    lemma_entry_unique(pv, j as int);
                }
                let (p, mut keys) = self.plugin_routes.remove(j);
                let ghost before = keys@;
                let ghost names = before.map_values(|s: String| s@);
                assert(names == old(self).keys_of(plugin_id@));
                let listed = crate::channel::position_of(&keys, k.as_str());
                proof {
                    if names.contains(k@) {
                        let q = choose|q: int| 0 <= q < names.len() && names[q] == k@;
                        assert(crate::channel::id_set(before).contains(before[q]@));
                    }
                    if crate::channel::id_set(before).contains(k@) {
                        let q = choose|q: int| 0 <= q < before.len() && (#[trigger] before[q])@ == k@;
                        assert(names[q] == k@);
                    }
                }
                if listed.is_none() {
                    keys.push(k);
                }
                let ghost kv = keys;
                self.plugin_routes.insert(j, (p, keys));
                proof {
                    assert(self.plugin_routes@ =~= pv.update(j as int, (pv[j as int].0, kv)));
                    lemma_entry_set(pv, j as int, kv);
                    if !names.contains(k@) {
                        assert(kv@.map_values(|s: String| s@) =~= names.push(k@));
                    } else {
                        assert(kv@.map_values(|s: String| s@) =~= names);
                    }
                }
            },
            None => {
                proof {
                    lemma_entry_none(pv, plugin_id@);
                }
                let p = plugin_id.to_string();
                let ghost pp = p;
                let keys = vec![k];
                let ghost kv = keys;
                self.plugin_routes.push((p, keys));
                proof {
                    lemma_entry_push(pv, pp, kv);
                    assert(kv@.map_values(|s: String| s@) =~= Seq::<Seq<char>>::empty().push(k@));
                }
            },
        }
        proof {
            let ok = old(self).keys_of(plugin_id@);
            assert(ok.no_duplicates());
            if !ok.contains(k@) {
                assert(self.keys_of(plugin_id@) =~= ok.push(k@));
                assert forall|a: int, b: int| 0 <= a < ok.len() + 1 && 0 <= b < ok.len() + 1 && a != b implies
                    ok.push(k@)[a] != ok.push(k@)[b] by {
                    if a == ok.len() {
                        assert(ok[b] != k@);
                    } else if b == ok.len() {
                        assert(ok[a] != k@);
                    }
                }
            }
            Self::lemma_keys_distinct(*old(self), *self, plugin_id@);
        }
        Ok(())
    }

    /// The route registered for `method` (any case) and `path`, if any.
    pub fn find_route(&self, method: &str, path: &str) -> (r: Option<RouteDefinition>)
        requires
            self.wf(),
        ensures
            r == self.route_at(route_key(method@, path@)),
    {
        let k = route_key_of(method, path);
        match find_key(&self.routes, k.as_str()) {
            Some(i) => {
                proof {
                    lemma_entry_unique(self.routes@, i as int);
                }
                Some(self.routes[i].1.duplicate())
            },
            None => {
                proof {
                    lemma_entry_none(self.routes@, k@);
                }
                None
            },
        }
    }

    /// Whether a route is registered for `method` (any case) and `path`.
    pub fn has_conflict(&self, method: &str, path: &str) -> (b: bool)
        requires
            self.wf(),
        ensures
            b == self.route_at(route_key(method@, path@)) is Some,
    {
        let k = route_key_of(method, path);
        let r = find_key(&self.routes, k.as_str());
        proof {
            match r {
                Some(i) => lemma_entry_unique(self.routes@, i as int),
                None => lemma_entry_none(self.routes@, k@),
            }
        }
        r.is_some()
    }

    /// Removes the route for `method` and `path` if `plugin_id` owns it;
    /// `true` when it did.
    pub fn unregister(&mut self, plugin_id: &str, method: &str, path: &str) -> (removed: bool)
        requires
            old(self).wf(),
        ensures
            final(self).wf(),
            ({
                let k = route_key(method@, path@);
                &&& removed == (old(self).route_at(k) matches Some(d) && d.plugin_id@ == plugin_id@)
                &&& removed ==> final(self).route_at(k) is None
                &&& removed ==> final(self).keys_of(plugin_id@) == crate::channel::without(old(self).keys_of(plugin_id@), k)
                &&& !removed ==> *final(self) == *old(self)
                &&& forall|j: Seq<char>| j != k ==> final(self).route_at(j) == old(self).route_at(j)
                &&& forall|p: Seq<char>| p != plugin_id@ ==> final(self).keys_of(p) == old(self).keys_of(p)
            }),
    {
        let k = route_key_of(method, path);
        let ghost rv = self.routes@;
        let ghost pv = self.plugin_routes@;
        let i = match find_key(&self.routes, k.as_str()) {
            Some(i) => i,
            None => {
                proof {
                    lemma_entry_none(rv, k@);
                }
                return false;
            },
        };
        proof {
            lemma_entry_unique(rv, i as int);
        }
        if !str_equal(self.routes[i].1.plugin_id.as_str(), plugin_id) {
            return false;
        }
        self.routes.remove(i);
        proof {
            lemma_entry_remove(rv, i as int);
        }
        match find_key(&self.plugin_routes, plugin_id) {
            Some(j) => {
                proof {
                    lemma_entry_unique(pv, j as int);
                }
                let (p, keys) = self.plugin_routes.remove(j);
                let ghost names = keys@.map_values(|s: String| s@);
                let mut kept: Vec<String> = Vec::new();
                let mut m: usize = 0;
                while m < keys.len()
                    invariant
                        m <= keys@.len(),
                        names == keys@.map_values(|s: String| s@),
                        kept@.map_values(|s: String| s@) == crate::channel::without(names.take(m as int), k@),
                    decreases keys.len() - m,
                {
                    proof {
                        assert(names.take(m + 1).drop_last() =~= names.take(m as int));
                        assert(names.take(m + 1).last() == keys@[m as int]@);
                    }
                    if !str_equal(keys[m].as_str(), k.as_str()) {
                        let ghost kb = kept@;
                        kept.push(keys[m].clone());
                        assert(kept@.map_values(|s: String| s@) =~= kb.map_values(|s: String| s@).push(keys@[m as int]@));
                    }
                    m = m + 1;
                }
                assert(names.take(names.len() as int) =~= names);
                let ghost kv = kept;
                self.plugin_routes.insert(j, (p, kept));
                proof {
                    assert(self.plugin_routes@ =~= pv.update(j as int, (pv[j as int].0, kv)));
                    lemma_entry_set(pv, j as int, kv);
                }
            },
            None => {
                proof {
                    lemma_entry_none(pv, plugin_id@);
                    assert(crate::channel::without(Seq::<Seq<char>>::empty(), k@) =~= Seq::<Seq<char>>::empty());
                }
            },
        }
        proof {
            Self::lemma_without_distinct(old(self).keys_of(plugin_id@), k@);
            Self::lemma_keys_distinct(*old(self), *self, plugin_id@);
        }
        true
    }

    /// Removes every route `plugin_id` registered; returns how many it had
    /// (each key counted once).
    pub fn unregister_all(&mut self, plugin_id: &str) -> (n: usize)
        requires
            old(self).wf(),
        ensures
            final(self).wf(),
            n == old(self).keys_of(plugin_id@).len(),
            old(self).keys_of(plugin_id@).no_duplicates(),
            final(self).keys_of(plugin_id@).len() == 0,
            final(self).present_routes(final(self).keys_of(plugin_id@)).len() == 0,
            forall|p: Seq<char>| p != plugin_id@ ==> final(self).keys_of(p) == old(self).keys_of(p),
            forall|j: Seq<char>| old(self).keys_of(plugin_id@).contains(j) ==> final(self).route_at(j) is None,
            forall|j: Seq<char>| !old(self).keys_of(plugin_id@).contains(j) ==> final(self).route_at(j) == old(self).route_at(j),
            final(self).definitions().len() == 0 <==> forall|j: Seq<char>| !old(self).keys_of(plugin_id@).contains(j) ==> #[trigger] old(self).route_at(j) is None,
    {
        let ghost pv = self.plugin_routes@;
        let keys = match find_key(&self.plugin_routes, plugin_id) {
            Some(j) => {
                proof {
                    lemma_entry_unique(pv, j as int);
                }
                let (_, keys) = self.plugin_routes.remove(j);
                proof {
                    lemma_entry_remove(pv, j as int);
                    assert(keys@.map_values(|s: String| s@) == old(self).keys_of(plugin_id@));
                }
                keys
            },
            None => {
                proof {
                    lemma_entry_none(pv, plugin_id@);
                    self.lemma_definitions_are_routes();
                    assert(old(self).keys_of(plugin_id@).len() == 0);
                    assert(forall|j: Seq<char>| !old(self).keys_of(plugin_id@).contains(j));
                }
                return 0;
            },
        };
        let ghost names = keys@.map_values(|s: String| s@);
        let ghost r0 = self.routes@;
        let ghost p1 = self.plugin_routes@;
        assert(names == old(self).keys_of(plugin_id@));
        let mut m: usize = 0;
        while m < keys.len()
            invariant
                m <= keys@.len(),
                names == keys@.map_values(|s: String| s@),
                unique_keys(self.routes@),
                unique_keys(self.plugin_routes@),
                self.plugin_routes@ == p1,
                forall|j: Seq<char>| names.take(m as int).contains(j) ==> entry_for(self.routes@, j) is None,
                forall|j: Seq<char>| !names.take(m as int).contains(j) ==> entry_for(self.routes@, j) == entry_for(r0, j),
            decreases keys.len() - m,
        {
            let ghost rb = self.routes@;
            let km = keys[m].as_str();
            match find_key(&self.routes, km) {
                Some(i) => {
                    self.routes.remove(i);
                    proof {
                        lemma_entry_remove(rb, i as int);
                    }
                },
                None => {
                    proof {
                        lemma_entry_none(rb, km@);
                    }
                },
            }
            proof {
                let t0 = names.take(m as int);
                let t1 = names.take(m + 1);
                assert(t1 =~= t0.push(km@));
                assert forall|j: Seq<char>| t1.contains(j) implies entry_for(self.routes@, j) is None by {
                    if j != km@ {
                        let q = choose|q: int| 0 <= q < t1.len() && t1[q] == j;
                        if q < m {
                            assert(t0[q] == j);
                            assert(t0.contains(j));
                        }
                    }
                }
                assert forall|j: Seq<char>| !t1.contains(j) implies entry_for(self.routes@, j) == entry_for(r0, j) by {
                    assert(j != km@) by {
                        assert(t1[m as int] == km@);
                    }
                    if t0.contains(j) {
                        let q = choose|q: int| 0 <= q < t0.len() && t0[q] == j;
                        assert(t1[q] == j);
                    }
                }
            }
            m = m + 1;
        }
        assert(names.take(names.len() as int) =~= names);
        proof {
            assert(old(self).keys_of(plugin_id@).no_duplicates());
            assert(self.keys_of(plugin_id@) =~= Seq::<Seq<char>>::empty());
            Self::lemma_keys_distinct(*old(self), *self, plugin_id@);
            self.lemma_definitions_are_routes();
            assert(forall|j: Seq<char>| old(self).keys_of(plugin_id@).contains(j) ==> #[trigger] self.route_at(j) is None);
            assert(forall|j: Seq<char>| !old(self).keys_of(plugin_id@).contains(j) ==> #[trigger] self.route_at(j) == old(self).route_at(j));
        }
        keys.len()
    }

    /// The routes `plugin_id` registered, in registration order (keys whose
    /// route is gone are skipped).
    pub fn get_routes(&self, plugin_id: &str) -> (r: Vec<RouteDefinition>)
        requires
            self.wf(),
        ensures
            r@ == self.present_routes(self.keys_of(plugin_id@)),
    {
        let keys = match find_key(&self.plugin_routes, plugin_id) {
            Some(j) => {
                proof {
                    lemma_entry_unique(self.plugin_routes@, j as int);
                }
                &self.plugin_routes[j].1
            },
            None => {
                proof {
                    lemma_entry_none(self.plugin_routes@, plugin_id@);
                    assert(self.keys_of(plugin_id@) =~= Seq::<Seq<char>>::empty());
                }
                return Vec::new();
            },
        };
        let ghost names = keys@.map_values(|s: String| s@);
        assert(names == self.keys_of(plugin_id@));
        let mut r: Vec<RouteDefinition> = Vec::new();
        let mut m: usize = 0;
        while m < keys.len()
            invariant
                m <= keys@.len(),
                self.wf(),
                names == keys@.map_values(|s: String| s@),
                r@ == self.present_routes(names.take(m as int)),
            decreases keys.len() - m,
        {
            proof {
                assert(names.take(m + 1).drop_last() =~= names.take(m as int));
                assert(names.take(m + 1).last() == keys@[m as int]@);
            }
            match find_key(&self.routes, keys[m].as_str()) {
                Some(i) => {
                    proof {
                        lemma_entry_unique(self.routes@, i as int);
                    }
                    r.push(self.routes[i].1.duplicate());
                },
                None => {
                    proof {
                        lemma_entry_none(self.routes@, keys@[m as int]@);
                    }
                },
            }
            m = m + 1;
        }
        assert(names.take(names.len() as int) =~= names);
        r
    }

    /// Every registered route.
    pub fn all_routes(&self) -> (r: Vec<RouteDefinition>)
        ensures
            r@ == self.definitions(),
    {
        let mut r: Vec<RouteDefinition> = Vec::new();
        let mut m: usize = 0;
        while m < self.routes.len()
            invariant
                m <= self.routes@.len(),
                r@ == self.definitions().take(m as int),
            decreases self.routes.len() - m,
        {
            r.push(self.routes[m].1.duplicate());
            m = m + 1;
            assert(r@ =~= self.definitions().take(m as int));
        }
        assert(self.definitions().take(self.routes@.len() as int) =~= self.definitions());
        r
    }
}

} // verus!
