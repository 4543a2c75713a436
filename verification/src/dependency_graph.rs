//! Directed acyclic graph of plugin dependencies, with cycle detection and
//! activation ordering (dependencies first).
use vstd::prelude::*;
use vstd::set_lib::{lemma_int_range, lemma_len_subset, set_int_range};
use crate::text::push_str;

verus! {

/// Identifier of a plugin (reverse-domain string, e.g. `io.draox.clans`).
pub type PluginId = String;

/// Errors of the dependency graph.
#[derive(Debug, Clone)]
pub enum DependencyError {
    /// Adding the edge would close a cycle; `path` walks the cycle.
    CycleDetected { path: Vec<PluginId> },
    /// The named plugin is not in the graph.
    PluginNotFound(PluginId),
}

impl DependencyError {
    /// Human-readable message (`"cycle detected: A -> B -> A"` or
    /// `"plugin not found: X"`).
    pub fn message(&self) -> (s: String)
        ensures
            match self {
                DependencyError::PluginNotFound(id) => s@ == "plugin not found: "@ + id@,
                DependencyError::CycleDetected { path } => s@ == "cycle detected: "@ + join_arrow(
                    path@.map_values(|p: PluginId| p@),
                ),
            },
    {
        let mut s = String::new();
        match self {
            DependencyError::PluginNotFound(id) => {
                push_str(&mut s, "plugin not found: ");
                push_str(&mut s, id.as_str());
            },
            DependencyError::CycleDetected { path } => {
                push_str(&mut s, "cycle detected: ");
                let ghost start = s@;
                let ghost names = path@.map_values(|p: PluginId| p@);
                let mut i: usize = 0;
                while i < path.len()
                    invariant
                        i <= path@.len(),
                        names == path@.map_values(|p: PluginId| p@),
                        s@ == start + join_arrow(names.take(i as int)),
                    decreases path.len() - i,
                {
                    if i > 0 {
                        push_str(&mut s, " -> ");
                    }
                    push_str(&mut s, path[i].as_str());
                    assert(names.take(i + 1).drop_last() =~= names.take(i as int));
                    i = i + 1;
                }
                assert(names.take(path@.len() as int) =~= names);
            },
        }
        s
    }
}

/// Names joined by `" -> "`.
pub open spec fn join_arrow(names: Seq<Seq<char>>) -> Seq<char>
    decreases names.len(),
{
    if names.len() == 0 {
        Seq::empty()
    } else if names.len() == 1 {
        names[0]
    } else {
        join_arrow(names.drop_last()) + " -> "@ + names.last()
    }
}

/// `s` holds the slot number `j`.
pub open spec fn holds_slot(s: Seq<usize>, j: int) -> bool {
    exists|k: int| 0 <= k < s.len() && s[k] as int == j
}

/// Plugin dependency graph.
///
/// Node `i` carries the id `ids[i]`; `present[i]` is false for a node that
/// was removed (its slot is reused if the id is added again).
/// `deps[i]` lists the nodes that `i` depends on, `dependents[j]` the nodes
/// that depend on `j`.
pub struct DependencyGraph {
    ids: Vec<PluginId>,
    present: Vec<bool>,
    deps: Vec<Vec<usize>>,
    dependents: Vec<Vec<usize>>,
}

impl DependencyGraph {
    /// Number of node slots.
    pub closed spec fn slots(self) -> nat {
        self.ids@.len()
    }

    /// Slot `i` holds a node of the graph.
    pub closed spec fn live(self, i: int) -> bool {
        0 <= i < self.ids@.len() && self.present@[i]
    }

    /// Id of slot `i`.
    pub closed spec fn id_at(self, i: int) -> Seq<char> {
        self.ids@[i]@
    }

    /// Slot `i` depends on slot `j`.
    pub closed spec fn edge(self, i: int, j: int) -> bool {
        0 <= i < self.ids@.len() && 0 <= j < self.ids@.len() && holds_slot(self.deps@[i]@, j)
    }

    /// Step `k` of `q` follows a dependency edge.
    pub closed spec fn walk_step(self, q: Seq<int>, k: int) -> bool {
        self.edge(q[k], q[k + 1])
    }

    /// `q` follows dependency edges.
    pub closed spec fn is_walk(self, q: Seq<int>) -> bool {
        q.len() >= 1 && forall|k: int| 0 <= k < q.len() - 1 ==> #[trigger] self.walk_step(q, k)
    }

    /// A walk of at least one edge leads from slot `a` to slot `b`.
    pub closed spec fn reach_plus(self, a: int, b: int) -> bool {
        exists|q: Seq<int>| #[trigger] self.is_walk(q) && q.len() >= 2 && q[0] == a && q.last() == b
    }

    /// A walk of zero or more edges leads from slot `a` to slot `b`.
    pub closed spec fn reach_star(self, a: int, b: int) -> bool {
        exists|q: Seq<int>| #[trigger] self.is_walk(q) && q[0] == a && q.last() == b
    }

    pub closed spec fn acyclic(self) -> bool {
        forall|a: int| !self.reach_plus(a, a)
    }

    /// The representation invariant.
    pub closed spec fn wf(self) -> bool {
        let n = self.ids@.len();
        &&& self.present@.len() == n
        &&& self.deps@.len() == n
        &&& self.dependents@.len() == n
        &&& forall|i: int, j: int|
            0 <= i < n && 0 <= j < n && i != j ==> self.ids@[i]@ != self.ids@[j]@
        &&& forall|i: int| 0 <= i < n ==> (#[trigger] self.deps@[i])@.no_duplicates()
        &&& forall|i: int| 0 <= i < n ==> (#[trigger] self.dependents@[i])@.no_duplicates()
        &&& forall|i: int, k: int|
            0 <= i < n && 0 <= k < self.deps@[i]@.len() ==> {
                let j = #[trigger] self.deps@[i]@[k];
                j < n && self.present@[i] && self.present@[j as int]
            }
        &&& forall|j: int, k: int|
            0 <= j < n && 0 <= k < self.dependents@[j]@.len() ==> {
                let i = #[trigger] self.dependents@[j]@[k];
                i < n && self.present@[j] && self.present@[i as int]
            }
        &&& forall|i: int, j: int|
            0 <= i < n && 0 <= j < n ==> (holds_slot(self.deps@[i]@, j) <==> holds_slot(self.dependents@[j]@, i))
        &&& self.acyclic()
    }

    /// Well-formedness, established by `new` and kept by every operation.
    pub closed spec fn well_formed(self) -> bool {
        self.wf()
    }

    /// `id` names a plugin of the graph.
    pub closed spec fn contains_plugin(self, id: Seq<char>) -> bool {
        exists|i: int| self.live(i) && self.id_at(i) == id
    }

    /// Plugin `a` directly depends on plugin `b`.
    pub closed spec fn depends(self, a: Seq<char>, b: Seq<char>) -> bool {
        exists|i: int, j: int|
            self.live(i) && self.live(j) && self.id_at(i) == a && self.id_at(j) == b && self.edge(
                i,
                j,
            )
    }

    /// Plugin `a` depends on plugin `b` through a chain of one or more
    /// direct dependencies.
    pub closed spec fn reaches(self, a: Seq<char>, b: Seq<char>) -> bool {
        exists|i: int, j: int|
            self.live(i) && self.live(j) && self.id_at(i) == a && self.id_at(j) == b
                && self.reach_plus(i, j)
    }

    /// An empty graph.
    pub fn new() -> (g: Self)
        ensures
            g.well_formed(),
            forall|id: Seq<char>| !g.contains_plugin(id),
            forall|a: Seq<char>, b: Seq<char>| !g.depends(a, b) && !g.reaches(a, b),
    {
        let g = DependencyGraph {
            ids: Vec::new(),
            present: Vec::new(),
            deps: Vec::new(),
            dependents: Vec::new(),
        };
        assert forall|a: int| !g.reach_plus(a, a) by {
            if g.reach_plus(a, a) {
                let q = choose|q: Seq<int>|
                    #[trigger] g.is_walk(q) && q.len() >= 2 && q[0] == a && q.last() == a;
                assert(g.walk_step(q, 0));
            }
        }
        g
    }

    /// Slot of the node with the given id, live or not.
    fn slot_of(&self, id: &String) -> (r: Option<usize>)
        requires
            self.wf(),
        ensures
            match r {
                Some(i) => i < self.slots() && self.id_at(i as int) == id@,
                None => forall|i: int| 0 <= i < self.slots() ==> self.id_at(i) != id@,
            },
    {
        let mut i: usize = 0;
        while i < self.ids.len()
            invariant
                i <= self.ids@.len(),
                forall|k: int| 0 <= k < i ==> self.ids@[k]@ != id@,
            decreases self.ids.len() - i,
        {
            if self.ids[i] == *id {
                return Some(i);
            }
            i = i + 1;
        }
        None
    }

    /// Slot of the live node with the given id.
    fn live_slot(&self, id: &String) -> (r: Option<usize>)
        requires
            self.wf(),
        ensures
            match r {
                Some(i) => self.live(i as int) && self.id_at(i as int) == id@,
                None => !self.contains_plugin(id@),
            },
    {
        match self.slot_of(id) {
            Some(i) => {
                if self.present[i] {
                    Some(i)
                } else {
                    assert forall|k: int| self.live(k) implies self.id_at(k) != id@ by {
                        if k != i {
                        }
                    }
                    None
                }
            },
            None => None,
        }
    }

    proof fn lemma_live_slot_unique(self, i: int, j: int)
        requires
            self.wf(),
            0 <= i < self.slots(),
            0 <= j < self.slots(),
            self.id_at(i) == self.id_at(j),
        ensures
            i == j,
    {
    }

    /// The ids of the given slots.
    fn ids_of(&self, slots: &Vec<usize>) -> (r: Vec<PluginId>)
        requires
            self.wf(),
            forall|k: int| 0 <= k < slots@.len() ==> slots@[k] < self.slots(),
        ensures
            r@.len() == slots@.len(),
            forall|k: int| 0 <= k < slots@.len() ==> r@[k]@ == self.id_at(slots@[k] as int),
    {
        let mut r: Vec<PluginId> = Vec::new();
        let mut k: usize = 0;
        while k < slots.len()
            invariant
                self.wf(),
                k <= slots@.len(),
                forall|m: int| 0 <= m < slots@.len() ==> slots@[m] < self.slots(),
                r@.len() == k,
                forall|m: int| 0 <= m < k ==> r@[m]@ == self.id_at(slots@[m] as int),
            decreases slots.len() - k,
        {
            let id = self.ids[slots[k]].clone();
            r.push(id);
            k = k + 1;
        }
        r
    }

    /// Direct dependencies of a plugin (empty if it is not in the graph).
    pub fn dependencies_of(&self, id: &PluginId) -> (r: Vec<PluginId>)
        requires
            self.well_formed(),
        ensures
            forall|k: int| 0 <= k < r@.len() ==> self.depends(id@, #[trigger] r@[k]@),
            forall|b: Seq<char>| self.depends(id@, b) ==> exists|k: int| 0 <= k < r@.len() && #[trigger] r@[k]@ == b,
            forall|k: int, m: int| 0 <= k < m < r@.len() ==> r@[k]@ != r@[m]@,
    {
        match self.live_slot(id) {
            None => {
                assert forall|b: Seq<char>| !self.depends(id@, b) by {}
                Vec::new()
            },
            Some(i) => {
                let ds = &self.deps[i];
                let r = self.ids_of(ds);
                proof {
                    assert forall|k: int| 0 <= k < r@.len() implies self.depends(id@, #[trigger] r@[k]@) by {
                        let j = self.deps@[i as int]@[k] as int;
                        assert(self.edge(i as int, j));
                    }
                    assert forall|b: Seq<char>| self.depends(id@, b) implies exists|k: int| 0 <= k < r@.len() && #[trigger] r@[k]@ == b by {
                        let (i2, j) = choose|i2: int, j: int|
                            self.live(i2) && self.live(j) && self.id_at(i2) == id@ && self.id_at(j) == b
                                && self.edge(i2, j);
                        assert(i2 == i as int);
                        let k = choose|k: int| 0 <= k < self.deps@[i as int]@.len() && self.deps@[i as int]@[k] as int == j;
                        assert(r@[k]@ == b);
                    }
                    assert forall|k: int, m: int| 0 <= k < m < r@.len() implies r@[k]@ != r@[m]@ by {
                        assert(self.deps@[i as int]@[k] != self.deps@[i as int]@[m]);
                    }
                }
                r
            },
        }
    }

    /// Direct dependents of a plugin: the plugins that depend on it.
    pub fn dependents_of(&self, id: &PluginId) -> (r: Vec<PluginId>)
        requires
            self.well_formed(),
        ensures
            forall|k: int| 0 <= k < r@.len() ==> self.depends(#[trigger] r@[k]@, id@),
            forall|a: Seq<char>| self.depends(a, id@) ==> exists|k: int| 0 <= k < r@.len() && #[trigger] r@[k]@ == a,
            forall|k: int, m: int| 0 <= k < m < r@.len() ==> r@[k]@ != r@[m]@,
    {
        match self.live_slot(id) {
            None => {
                assert forall|a: Seq<char>| !self.depends(a, id@) by {}
                Vec::new()
            },
            Some(j) => {
                let ds = &self.dependents[j];
                let r = self.ids_of(ds);
                proof {
                    assert forall|k: int| 0 <= k < r@.len() implies self.depends(#[trigger] r@[k]@, id@) by {
                        let i = self.dependents@[j as int]@[k] as int;
                        assert(self.edge(i, j as int));
                    }
                    assert forall|a: Seq<char>| self.depends(a, id@) implies exists|k: int| 0 <= k < r@.len() && #[trigger] r@[k]@ == a by {
                        let (i, j2) = choose|i: int, j2: int|
                            self.live(i) && self.live(j2) && self.id_at(i) == a && self.id_at(j2) == id@
                                && self.edge(i, j2);
                        assert(j2 == j as int);
                        assert(holds_slot(self.dependents@[j as int]@, i));
                        let k = choose|k: int| 0 <= k < self.dependents@[j as int]@.len() && self.dependents@[j as int]@[k] as int == i;
                        assert(r@[k]@ == a);
                    }
                    assert forall|k: int, m: int| 0 <= k < m < r@.len() implies r@[k]@ != r@[m]@ by {
                        assert(self.dependents@[j as int]@[k] != self.dependents@[j as int]@[m]);
                    }
                }
                r
            },
        }
    }

    /// A plugin can be deactivated when none of its dependents is active.
    pub fn can_deactivate(&self, id: &PluginId, active_plugins: &Vec<PluginId>) -> (b: bool)
        requires
            self.well_formed(),
        ensures
            b == !exists|a: Seq<char>|
                self.depends(a, id@) && exists|k: int| 0 <= k < active_plugins@.len() && #[trigger] active_plugins@[k]@ == a,
    {
        let ds = self.dependents_of(id);
        let mut k: usize = 0;
        while k < ds.len()
            invariant
                k <= ds@.len(),
                forall|m: int| 0 <= m < ds@.len() ==> self.depends(#[trigger] ds@[m]@, id@),
                forall|m: int| 0 <= m < k ==> forall|t: int| 0 <= t < active_plugins@.len() ==> active_plugins@[t]@ != #[trigger] ds@[m]@,
            decreases ds.len() - k,
        {
            let mut t: usize = 0;
            while t < active_plugins.len()
                invariant
                    k < ds@.len(),
                    forall|m: int| 0 <= m < ds@.len() ==> self.depends(#[trigger] ds@[m]@, id@),
                    t <= active_plugins@.len(),
                    forall|u: int| 0 <= u < t ==> active_plugins@[u]@ != ds@[k as int]@,
                decreases active_plugins.len() - t,
            {
                if active_plugins[t] == ds[k] {
                    assert(self.depends(ds@[k as int]@, id@));
                    return false;
                }
                t = t + 1;
            }
            k = k + 1;
        }
        assert forall|a: Seq<char>| self.depends(a, id@) implies !exists|k: int| 0 <= k < active_plugins@.len() && #[trigger] active_plugins@[k]@ == a by {
            let m = choose|m: int| 0 <= m < ds@.len() && #[trigger] ds@[m]@ == a;
            assert(forall|t: int| 0 <= t < active_plugins@.len() ==> active_plugins@[t]@ != #[trigger] ds@[m]@);
        }
        true
    }
}


/// Slot numbers as integers.
pub open spec fn as_ints(s: Seq<usize>) -> Seq<int> {
    s.map_values(|u: usize| u as int)
}

/// A sequence of distinct values below `n` has at most `n` elements.
proof fn lemma_distinct_bounded(s: Seq<int>, n: int)
    requires
        n >= 0,
        s.no_duplicates(),
        forall|i: int| 0 <= i < s.len() ==> 0 <= #[trigger] s[i] < n,
    ensures
        s.len() <= n,
{
    s.unique_seq_to_set();
    lemma_int_range(0, n);
    assert(s.to_set().subset_of(set_int_range(0, n)));
    lemma_len_subset(s.to_set(), set_int_range(0, n));
}

/// Pigeonhole: more than `n` values below `n` repeat one.
proof fn lemma_pigeonhole(s: Seq<int>, n: int) -> (r: (int, int))
    requires
        n >= 0,
        s.len() > n,
        forall|i: int| 0 <= i < s.len() ==> 0 <= #[trigger] s[i] < n,
    ensures
        0 <= r.0 < r.1 < s.len(),
        s[r.0] == s[r.1],
{
    if s.no_duplicates() {
        lemma_distinct_bounded(s, n);
    }
    let (i, j) = choose|i: int, j: int| 0 <= i < s.len() && 0 <= j < s.len() && i != j && s[i] == s[j];
    if i < j {
        (i, j)
    } else {
        (j, i)
    }
}

impl DependencyGraph {
    /// A direct dependency is a chain of one dependency.
    pub proof fn lemma_depends_reaches(self, a: Seq<char>, b: Seq<char>)
        requires
            self.well_formed(),
            self.depends(a, b),
        ensures
            self.reaches(a, b),
    {
        let (i, j) = choose|i: int, j: int| self.live(i) && self.live(j) && self.id_at(i) == a && self.id_at(j) == b && self.edge(i, j);
        let w = seq![i, j];
        assert(self.walk_step(w, 0));
        assert(self.is_walk(w));
        assert(self.reach_plus(i, j));
    }

    /// Chains of dependencies compose.
    pub proof fn lemma_reaches_transitive(self, a: Seq<char>, b: Seq<char>, c: Seq<char>)
        requires
            self.well_formed(),
            self.reaches(a, b),
            self.reaches(b, c),
        ensures
            self.reaches(a, c),
    {
        let (i, j) = choose|i: int, j: int| self.live(i) && self.live(j) && self.id_at(i) == a && self.id_at(j) == b && self.reach_plus(i, j);
        let (j2, k) = choose|i: int, j: int| self.live(i) && self.live(j) && self.id_at(i) == b && self.id_at(j) == c && self.reach_plus(i, j);
        self.lemma_live_slot_unique(j, j2);
        let w1 = choose|q: Seq<int>| #[trigger] self.is_walk(q) && q.len() >= 2 && q[0] == i && q.last() == j;
        let w2 = choose|q: Seq<int>| #[trigger] self.is_walk(q) && q.len() >= 2 && q[0] == j2 && q.last() == k;
        self.lemma_walk_concat(w1, w2);
        let w = w1 + w2.drop_first();
        assert(self.is_walk(w) && w.len() >= 2 && w[0] == i && w.last() == k);
        assert(self.reach_plus(i, k));
    }

    /// No plugin depends on itself, directly or through a chain.
    pub proof fn lemma_reaches_irreflexive(self, a: Seq<char>)
        requires
            self.well_formed(),
        ensures
            !self.reaches(a, a),
    {
        if self.reaches(a, a) {
            let (i, j) = choose|i: int, j: int| self.live(i) && self.live(j) && self.id_at(i) == a && self.id_at(j) == a && self.reach_plus(i, j);
            self.lemma_live_slot_unique(i, j);
            assert(!self.reach_plus(i, i));
        }
    }

    proof fn lemma_walk_concat(self, w1: Seq<int>, w2: Seq<int>)
        requires
            self.is_walk(w1),
            self.is_walk(w2),
            w1.last() == w2[0],
        ensures
            self.is_walk(w1 + w2.drop_first()),
            (w1 + w2.drop_first())[0] == w1[0],
            (w1 + w2.drop_first()).last() == w2.last(),
            (w1 + w2.drop_first()).len() == w1.len() + w2.len() - 1,
    {
        let w = w1 + w2.drop_first();
        assert forall|k: int| 0 <= k < w.len() - 1 implies #[trigger] self.walk_step(w, k) by {
            if k < w1.len() - 1 {
                assert(self.walk_step(w1, k));
            } else if k == w1.len() - 1 {
                assert(self.walk_step(w2, 0));
            } else {
                assert(self.walk_step(w2, k - w1.len() + 1));
            }
        }
    }

    proof fn lemma_walk_sub(self, w: Seq<int>, lo: int, hi: int)
        requires
            self.is_walk(w),
            0 <= lo < hi <= w.len(),
        ensures
            self.is_walk(w.subrange(lo, hi)),
    {
        let v = w.subrange(lo, hi);
        assert forall|k: int| 0 <= k < v.len() - 1 implies #[trigger] self.walk_step(v, k) by {
            assert(self.walk_step(w, k + lo));
        }
    }

    proof fn lemma_walk_push(self, w: Seq<int>, x: int)
        requires
            self.is_walk(w),
            self.edge(w.last(), x),
        ensures
            self.is_walk(w.push(x)),
    {
        let v = w.push(x);
        assert forall|k: int| 0 <= k < v.len() - 1 implies #[trigger] self.walk_step(v, k) by {
            if k < w.len() - 1 {
                assert(self.walk_step(w, k));
            }
        }
    }

    /// A walk in a graph with fewer edges is a walk in this one.
    proof fn lemma_walk_mono(self, other: Self, w: Seq<int>)
        requires
            other.is_walk(w),
            forall|i: int, j: int| other.edge(i, j) ==> self.edge(i, j),
        ensures
            self.is_walk(w),
    {
        assert forall|k: int| 0 <= k < w.len() - 1 implies #[trigger] self.walk_step(w, k) by {
            assert(other.walk_step(w, k));
        }
    }

    /// A walk of `self` that uses the edge `p -> d` besides the edges of
    /// `old_g` splits into old walks around the new edge.
    proof fn lemma_new_edge_walk(self, old_g: Self, p: int, d: int, q: Seq<int>)
        requires
            self.is_walk(q),
            forall|i: int, j: int| self.edge(i, j) ==> old_g.edge(i, j) || (i == p && j == d),
        ensures
            old_g.is_walk(q) || (old_g.reach_star(q[0], p) && old_g.reach_star(d, q.last())),
        decreases q.len(),
    {
        if q.len() == 1 {
            assert forall|k: int| 0 <= k < q.len() - 1 implies #[trigger] old_g.walk_step(q, k) by {}
        } else {
            let q2 = q.drop_last();
            self.lemma_walk_sub(q, 0, q.len() - 1);
            assert(q.subrange(0, q.len() - 1) =~= q2);
            self.lemma_new_edge_walk(old_g, p, d, q2);
            let a = q[q.len() - 2];
            let b = q.last();
            assert(self.walk_step(q, q.len() - 2));
            if old_g.edge(a, b) {
                if old_g.is_walk(q2) {
                    assert forall|k: int| 0 <= k < q.len() - 1 implies #[trigger] old_g.walk_step(q, k) by {
                        if k < q.len() - 2 {
                            assert(old_g.walk_step(q2, k));
                        }
                    }
                } else {
                    let w = choose|w: Seq<int>| #[trigger] old_g.is_walk(w) && w[0] == d && w.last() == q2.last();
                    old_g.lemma_walk_push(w, b);
                    assert(old_g.is_walk(w.push(b)) && w.push(b)[0] == d && w.push(b).last() == q.last());
                }
            } else {
                assert(a == p && b == d);
                let single = seq![d];
                assert forall|k: int| 0 <= k < single.len() - 1 implies #[trigger] old_g.walk_step(single, k) by {}
                assert(old_g.is_walk(single));
                if old_g.is_walk(q2) {
                    assert(q2.last() == p);
                    assert(old_g.is_walk(q2) && q2[0] == q[0]);
                }
            }
        }
    }

    /// Every walk from `start` stays inside a set that contains `start`
    /// and is closed under edges.
    proof fn lemma_closed_set(self, vis: Seq<bool>, start: int, w: Seq<int>)
        requires
            self.is_walk(w),
            w[0] == start,
            0 <= start < vis.len(),
            vis[start],
            forall|x: int, y: int| 0 <= x < vis.len() && vis[x] && #[trigger] self.edge(x, y) ==> 0 <= y < vis.len() && vis[y],
        ensures
            0 <= w.last() < vis.len() && vis[w.last()],
        decreases w.len(),
    {
        if w.len() > 1 {
            let w2 = w.drop_last();
            self.lemma_walk_sub(w, 0, w.len() - 1);
            assert(w.subrange(0, w.len() - 1) =~= w2);
            self.lemma_closed_set(vis, start, w2);
            assert(self.walk_step(w, w.len() - 2));
        }
    }

    /// Breadth-first search along dependency edges: a walk from `start`
    /// to `target`, or `None` when there is none.
    fn find_walk(&self, start: usize, target: usize) -> (r: Option<Vec<usize>>)
        requires
            self.wf(),
            start < self.slots(),
            target < self.slots(),
        ensures
            match r {
                Some(w) => self.is_walk(as_ints(w@)) && w@[0] == start && w@.last() == target
                    && forall|k: int| 0 <= k < w@.len() ==> #[trigger] w@[k] < self.slots(),
                None => !self.reach_star(start as int, target as int),
            },
    {
        let n = self.ids.len();
        let mut visited: Vec<bool> = Vec::new();
        let mut walks: Vec<Vec<usize>> = Vec::new();
        let mut t: usize = 0;
        while t < n
            invariant
                t <= n,
                visited@.len() == t,
                walks@.len() == t,
                forall|x: int| 0 <= x < t ==> !visited@[x],
            decreases n - t,
        {
            visited.push(false);
            walks.push(Vec::new());
            t = t + 1;
        }
        visited.set(start, true);
        walks.set(start, vec![start]);
        let mut queue: Vec<usize> = vec![start];
        let mut head: usize = 0;
        assert(self.is_walk(as_ints(walks@[start as int]@))) by {
            let w = as_ints(walks@[start as int]@);
            assert forall|k: int| 0 <= k < w.len() - 1 implies #[trigger] self.walk_step(w, k) by {}
        }
        while head < queue.len()
            invariant
                self.wf(),
                n == self.slots(),
                start < n,
                visited@.len() == n,
                walks@.len() == n,
                head <= queue@.len(),
                queue@.no_duplicates(),
                forall|k: int| 0 <= k < queue@.len() ==> #[trigger] queue@[k] < n,
                forall|x: int| 0 <= x < n ==> (visited@[x] <==> holds_slot(queue@, x)),
                visited@[start as int],
                forall|x: int| 0 <= x < n && #[trigger] visited@[x] ==> {
                    let w = walks@[x]@;
                    &&& self.is_walk(as_ints(w))
                    &&& w[0] == start
                    &&& w.last() == x
                    &&& forall|k: int| 0 <= k < w.len() ==> #[trigger] w[k] < n
                },
                forall|i: int, y: int|
                    0 <= i < head && #[trigger] self.edge(queue@[i] as int, y) ==> 0 <= y < n && visited@[y],
            decreases n - head,
        {
            proof {
                lemma_distinct_bounded(as_ints(queue@), n as int);
            }
            let x = queue[head];
            let ds = &self.deps[x];
            let mut k: usize = 0;
            let ghost q0 = queue@;
            while k < ds.len()
                invariant
                    self.wf(),
                    n == self.slots(),
                    start < n,
                    x < n,
                    ds@ == self.deps@[x as int]@,
                    head < queue@.len(),
                    queue@[head as int] == x,
                    queue@.subrange(0, q0.len() as int) == q0,
                    q0.len() <= queue@.len(),
                    visited@.len() == n,
                    walks@.len() == n,
                    k <= ds@.len(),
                    queue@.no_duplicates(),
                    forall|m: int| 0 <= m < queue@.len() ==> #[trigger] queue@[m] < n,
                    forall|z: int| 0 <= z < n ==> (visited@[z] <==> holds_slot(queue@, z)),
                    visited@[start as int],
                    visited@[x as int],
                    forall|z: int| 0 <= z < n && #[trigger] visited@[z] ==> {
                        let w = walks@[z]@;
                        &&& self.is_walk(as_ints(w))
                        &&& w[0] == start
                        &&& w.last() == z
                        &&& forall|m: int| 0 <= m < w.len() ==> #[trigger] w[m] < n
                    },
                    forall|i: int, y: int|
                        0 <= i < head && #[trigger] self.edge(queue@[i] as int, y) ==> 0 <= y < n && visited@[y],
                    forall|m: int| 0 <= m < k ==> visited@[#[trigger] ds@[m] as int],
                decreases ds.len() - k,
            {
                let y = ds[k];
                assert(self.deps@[x as int]@[k as int] == y);
                if !visited[y] {
                    let mut w = walks[x].clone();
                    assert(w@ == walks@[x as int]@);
                    w.push(y);
                    proof {
                        assert(holds_slot(self.deps@[x as int]@, y as int));
                        assert(as_ints(w@) =~= as_ints(walks@[x as int]@).push(y as int));
                        self.lemma_walk_push(as_ints(walks@[x as int]@), y as int);
                    }
                    let ghost vb = visited@;
                    visited.set(y, true);
                    walks.set(y, w);
                    let ghost before = queue@;
                    queue.push(y);
                    proof {
                        assert forall|z: int| 0 <= z < n implies (visited@[z] <==> holds_slot(queue@, z)) by {
                            if z == y as int {
                                assert(queue@[before.len() as int] == y);
                            } else {
                                assert(visited@[z] == vb[z]);
                            }
                            if holds_slot(before, z) {
                                let m = choose|m: int| 0 <= m < before.len() && before[m] as int == z;
                                assert(queue@[m] == before[m]);
                            }
                            if holds_slot(queue@, z) {
                                let m = choose|m: int| 0 <= m < queue@.len() && queue@[m] as int == z;
                                if m < before.len() {
                                    assert(queue@[m] == before[m]);
                                }
                            }
                        }
                        assert(!holds_slot(before, y as int));
                        assert forall|a: int, b: int| 0 <= a < queue@.len() && 0 <= b < queue@.len() && a != b implies queue@[a] != queue@[b] by {
                            if a < before.len() && b < before.len() {
                            } else if a < before.len() {
                                assert(queue@[a] == before[a]);
                            } else if b < before.len() {
                                assert(queue@[b] == before[b]);
                            }
                        }
                        assert(queue@.subrange(0, q0.len() as int) =~= before.subrange(0, q0.len() as int));
                        assert forall|i: int, yy: int| 0 <= i < head && #[trigger] self.edge(queue@[i] as int, yy) implies 0 <= yy < n && visited@[yy] by {
                            assert(queue@[i] == before[i]);
                        }
                    }
                }
                k = k + 1;
            }
            proof {
                assert forall|i: int, y: int| 0 <= i < head + 1 && #[trigger] self.edge(queue@[i] as int, y) implies 0 <= y < n && visited@[y] by {
                    if i == head {
                        let m = choose|m: int| 0 <= m < ds@.len() && ds@[m] as int == y;
                        assert(visited@[ds@[m] as int]);
                    }
                }
            }
            head = head + 1;
        }
        if visited[target] {
            let w = walks[target].clone();
            Some(w)
        } else {
            proof {
                assert forall|x: int, y: int| 0 <= x < visited@.len() && visited@[x] && #[trigger] self.edge(x, y) implies 0 <= y < visited@.len() && visited@[y] by {
                    let m = choose|m: int| 0 <= m < queue@.len() && queue@[m] as int == x;
                    assert(self.edge(queue@[m] as int, y));
                }
                if self.reach_star(start as int, target as int) {
                    let w = choose|w: Seq<int>| #[trigger] self.is_walk(w) && w[0] == start as int && w.last() == target as int;
                    self.lemma_closed_set(visited@, start as int, w);
                }
            }
            None
        }
    }
}


/// Whether `v` holds the slot `x`.
fn contains_slot(v: &Vec<usize>, x: usize) -> (r: bool)
    ensures
        r == holds_slot(v@, x as int),
{
    let mut k: usize = 0;
    while k < v.len()
        invariant
            k <= v@.len(),
            forall|m: int| 0 <= m < k ==> v@[m] != x,
        decreases v.len() - k,
    {
        if v[k] == x {
            return true;
        }
        k = k + 1;
    }
    false
}

/// `v` without the slot `x`.
fn without_slot(v: &Vec<usize>, x: usize) -> (r: Vec<usize>)
    requires
        v@.no_duplicates(),
    ensures
        r@.no_duplicates(),
        forall|y: int| holds_slot(r@, y) <==> holds_slot(v@, y) && y != x,
        forall|k: int| 0 <= k < r@.len() ==> holds_slot(v@, #[trigger] r@[k] as int),
{
    let mut r: Vec<usize> = Vec::new();
    let mut k: usize = 0;
    while k < v.len()
        invariant
            k <= v@.len(),
            v@.no_duplicates(),
            r@.no_duplicates(),
            forall|y: int| holds_slot(r@, y) <==> holds_slot(v@.subrange(0, k as int), y) && y != x,
            forall|m: int| 0 <= m < r@.len() ==> holds_slot(v@, #[trigger] r@[m] as int),
        decreases v.len() - k,
    {
        let y = v[k];
        let ghost before = r@;
        if y != x {
            r.push(y);
            proof {
                assert(!holds_slot(before, y as int)) by {
                    if holds_slot(before, y as int) {
                        let vk = v@.subrange(0, k as int);
                        let m = choose|m: int| 0 <= m < vk.len() && vk[m] as int == y as int;
                        assert(v@[m] == v@[k as int]);
                    }
                }
                assert forall|a: int, b: int| 0 <= a < r@.len() && 0 <= b < r@.len() && a != b implies r@[a] != r@[b] by {
                    if a < before.len() && b < before.len() {
                        assert(r@[a] == before[a] && r@[b] == before[b]);
                    } else if a < before.len() {
                        assert(r@[a] == before[a]);
                        assert(holds_slot(before, r@[a] as int));
                    } else if b < before.len() {
                        assert(r@[b] == before[b]);
                        assert(holds_slot(before, r@[b] as int));
                    }
                }
                assert forall|m: int| 0 <= m < r@.len() implies holds_slot(v@, #[trigger] r@[m] as int) by {
                    if m < before.len() {
                        assert(r@[m] == before[m]);
                    } else {
                        assert(v@[k as int] == r@[m]);
                    }
                }
            }
        }
        proof {
            let vk1 = v@.subrange(0, k + 1);
            let vk = v@.subrange(0, k as int);
            assert forall|z: int| holds_slot(r@, z) <==> holds_slot(vk1, z) && z != x by {
                if holds_slot(r@, z) {
                    let m = choose|m: int| 0 <= m < r@.len() && r@[m] as int == z;
                    if m < before.len() {
                        assert(r@[m] == before[m]);
                        assert(holds_slot(before, z));
                        let m2 = choose|m2: int| 0 <= m2 < k && vk[m2] as int == z;
                        assert(vk1[m2] as int == z);
                    } else {
                        assert(vk1[k as int] as int == z);
                    }
                }
                if holds_slot(vk1, z) && z != x {
                    let m = choose|m: int| 0 <= m < vk1.len() && vk1[m] as int == z;
                    if m < k {
                        assert(vk[m] as int == z);
                        assert(holds_slot(before, z));
                        let m2 = choose|m2: int| 0 <= m2 < before.len() && before[m2] as int == z;
                        assert(r@[m2] == before[m2]);
                    } else {
                        assert(r@[r@.len() - 1] as int == z);
                    }
                }
            }
        }
        k = k + 1;
    }
    assert(v@.subrange(0, v@.len() as int) =~= v@);
    r
}

impl DependencyGraph {
    proof fn lemma_acyclic_sub(self, old_g: Self)
        requires
            old_g.acyclic(),
            forall|i: int, j: int| self.edge(i, j) ==> old_g.edge(i, j),
        ensures
            self.acyclic(),
    {
        assert forall|a: int| !self.reach_plus(a, a) by {
            if self.reach_plus(a, a) {
                let q = choose|q: Seq<int>| #[trigger] self.is_walk(q) && q.len() >= 2 && q[0] == a && q.last() == a;
                old_g.lemma_walk_mono(self, q);
                assert(old_g.reach_plus(a, a));
            }
        }
    }

    proof fn lemma_acyclic_add(self, old_g: Self, p: int, d: int)
        requires
            old_g.acyclic(),
            !old_g.reach_star(d, p),
            forall|i: int, j: int| self.edge(i, j) ==> old_g.edge(i, j) || (i == p && j == d),
        ensures
            self.acyclic(),
    {
        assert forall|a: int| !self.reach_plus(a, a) by {
            if self.reach_plus(a, a) {
                let q = choose|q: Seq<int>| #[trigger] self.is_walk(q) && q.len() >= 2 && q[0] == a && q.last() == a;
                self.lemma_new_edge_walk(old_g, p, d, q);
                if old_g.is_walk(q) {
                    assert(old_g.reach_plus(a, a));
                } else {
                    let w1 = choose|w: Seq<int>| #[trigger] old_g.is_walk(w) && w[0] == d && w.last() == a;
                    let w2 = choose|w: Seq<int>| #[trigger] old_g.is_walk(w) && w[0] == a && w.last() == p;
                    old_g.lemma_walk_concat(w1, w2);
                    assert(old_g.reach_star(d, p));
                }
            }
        }
    }

    /// Adds a plugin with no dependencies; an id already present is kept
    /// as it is.
    #[verifier::spinoff_prover]
    #[verifier::rlimit(30)]
    pub fn add_plugin(&mut self, id: PluginId)
        requires
            old(self).well_formed(),
        ensures
            final(self).well_formed(),
            forall|x: Seq<char>| final(self).contains_plugin(x) <==> old(self).contains_plugin(x) || x == id@,
            forall|a: Seq<char>, b: Seq<char>| final(self).depends(a, b) <==> old(self).depends(a, b),
            forall|a: Seq<char>, b: Seq<char>| final(self).reaches(a, b) <==> old(self).reaches(a, b),
    {
        let ghost g0 = *self;
        match self.slot_of(&id) {
            Some(i) => {
                if !self.present[i] {
                    proof {
                        assert forall|j: int| 0 <= j < self.slots() implies !#[trigger] self.edge(i as int, j) && !self.edge(j, i as int) by {
                            if self.edge(i as int, j) {
                                let k = choose|k: int| 0 <= k < self.deps@[i as int]@.len() && self.deps@[i as int]@[k] as int == j;
                                assert(self.present@[i as int]);
                            }
                            if self.edge(j, i as int) {
                                let k = choose|k: int| 0 <= k < self.deps@[j]@.len() && self.deps@[j]@[k] as int == i as int;
                                assert(self.present@[i as int]);
                            }
                        }
                    }
                    self.present.set(i, true);
                    proof {
                        assert(forall|a: int, b: int| self.edge(a, b) == g0.edge(a, b));
                        self.lemma_acyclic_sub(g0);
                        assert forall|a: int, b: int| self.reach_plus(a, b) == g0.reach_plus(a, b) by {
                            if self.reach_plus(a, b) {
                                let q = choose|q: Seq<int>| #[trigger] self.is_walk(q) && q.len() >= 2 && q[0] == a && q.last() == b;
                                g0.lemma_walk_mono(*self, q);
                            }
                            if g0.reach_plus(a, b) {
                                let q = choose|q: Seq<int>| #[trigger] g0.is_walk(q) && q.len() >= 2 && q[0] == a && q.last() == b;
                                self.lemma_walk_mono(g0, q);
                            }
                        }
                        assert forall|x: Seq<char>| self.contains_plugin(x) <==> g0.contains_plugin(x) || x == id@ by {
                            if self.contains_plugin(x) {
                                let k = choose|k: int| self.live(k) && self.id_at(k) == x;
                                if k != i as int {
                                    assert(g0.live(k));
                                }
                            }
                            if g0.contains_plugin(x) {
                                let k = choose|k: int| g0.live(k) && g0.id_at(k) == x;
                                assert(self.live(k));
                            }
                            if x == id@ {
                                assert(self.live(i as int));
                            }
                        }
                        assert forall|a: Seq<char>, b: Seq<char>| self.depends(a, b) <==> g0.depends(a, b) by {
                            if self.depends(a, b) {
                                let (x, y) = choose|x: int, y: int| self.live(x) && self.live(y) && self.id_at(x) == a && self.id_at(y) == b && self.edge(x, y);
                                assert(g0.edge(x, y));
                                assert(x != i as int && y != i as int);
                                assert(g0.live(x) && g0.live(y));
                            }
                            if g0.depends(a, b) {
                                let (x, y) = choose|x: int, y: int| g0.live(x) && g0.live(y) && g0.id_at(x) == a && g0.id_at(y) == b && g0.edge(x, y);
                                assert(self.live(x) && self.live(y) && self.edge(x, y));
                            }
                        }
                        assert forall|a: Seq<char>, b: Seq<char>| self.reaches(a, b) <==> g0.reaches(a, b) by {
                            if self.reaches(a, b) {
                                let (x, y) = choose|x: int, y: int| self.live(x) && self.live(y) && self.id_at(x) == a && self.id_at(y) == b && self.reach_plus(x, y);
                                let q = choose|q: Seq<int>| #[trigger] self.is_walk(q) && q.len() >= 2 && q[0] == x && q.last() == y;
                                assert(self.walk_step(q, 0));
                                assert(self.walk_step(q, q.len() - 2));
                                assert(g0.edge(q[0], q[1]));
                                assert(g0.edge(q[q.len() - 2], q[q.len() - 1]));
                                assert(x != i as int && y != i as int);
                                assert(g0.live(x) && g0.live(y));
                                assert(g0.reach_plus(x, y));
                            }
                            if g0.reaches(a, b) {
                                let (x, y) = choose|x: int, y: int| g0.live(x) && g0.live(y) && g0.id_at(x) == a && g0.id_at(y) == b && g0.reach_plus(x, y);
                                assert(self.live(x) && self.live(y) && self.reach_plus(x, y));
                            }
                        }
                    }
                } else {
                    assert forall|x: Seq<char>| self.contains_plugin(x) <==> g0.contains_plugin(x) || x == id@ by {
                        if x == id@ {
                            assert(self.live(i as int));
                        }
                    }
                }
            },
            None => {
                let n = self.ids.len();
                self.ids.push(id);
                self.present.push(true);
                self.deps.push(Vec::new());
                self.dependents.push(Vec::new());
                proof {
                    assert forall|a: int, b: int| self.edge(a, b) == g0.edge(a, b) by {
                        if 0 <= a < n && 0 <= b < n {
                            assert(self.deps@[a] == g0.deps@[a]);
                        }
                        if g0.edge(a, b) {
                            assert(self.deps@[a] == g0.deps@[a]);
                        }
                        if self.edge(a, b) {
                            if a == n as int {
                                assert(self.deps@[a]@.len() == 0);
                            } else {
                                assert(self.deps@[a] == g0.deps@[a]);
                                let k = choose|k: int| 0 <= k < self.deps@[a]@.len() && self.deps@[a]@[k] as int == b;
                                assert(g0.deps@[a]@[k] < n);
                            }
                        }
                    }
                    self.lemma_acyclic_sub(g0);
                    assert forall|i: int, j: int| 0 <= i < n + 1 && 0 <= j < n + 1 && i != j implies self.ids@[i]@ != self.ids@[j]@ by {
                        if i == n as int {
                            assert(g0.id_at(j) != id@);
                        } else if j == n as int {
                            assert(g0.id_at(i) != id@);
                        }
                    }
                    assert forall|i: int| 0 <= i < n + 1 implies (#[trigger] self.deps@[i])@.no_duplicates() by {
                        if i < n {
                            assert(self.deps@[i] == g0.deps@[i]);
                        }
                    }
                    assert forall|i: int| 0 <= i < n + 1 implies (#[trigger] self.dependents@[i])@.no_duplicates() by {
                        if i < n {
                            assert(self.dependents@[i] == g0.dependents@[i]);
                        }
                    }
                    assert forall|i: int, k: int| 0 <= i < n + 1 && 0 <= k < self.deps@[i]@.len() implies {
                        let j = #[trigger] self.deps@[i]@[k];
                        j < n + 1 && self.present@[i] && self.present@[j as int]
                    } by {
                        assert(i < n);
                        assert(self.deps@[i] == g0.deps@[i]);
                        assert(g0.deps@[i]@[k] < n);
                    }
                    assert forall|j: int, k: int| 0 <= j < n + 1 && 0 <= k < self.dependents@[j]@.len() implies {
                        let i = #[trigger] self.dependents@[j]@[k];
                        i < n + 1 && self.present@[j] && self.present@[i as int]
                    } by {
                        assert(j < n);
                        assert(self.dependents@[j] == g0.dependents@[j]);
                        assert(g0.dependents@[j]@[k] < n);
                    }
                    assert forall|i: int, j: int| 0 <= i < n + 1 && 0 <= j < n + 1 implies (holds_slot(self.deps@[i]@, j) <==> holds_slot(self.dependents@[j]@, i)) by {
                        if i < n && j < n {
                            assert(self.deps@[i] == g0.deps@[i]);
                            assert(self.dependents@[j] == g0.dependents@[j]);
                        } else if i == n as int && j < n {
                            assert(self.dependents@[j] == g0.dependents@[j]);
                            if holds_slot(g0.dependents@[j]@, i) {
                                let k = choose|k: int| 0 <= k < g0.dependents@[j]@.len() && g0.dependents@[j]@[k] as int == i;
                                assert(g0.dependents@[j]@[k] < n);
                            }
                        } else if j == n as int && i < n {
                            assert(self.deps@[i] == g0.deps@[i]);
                            if holds_slot(g0.deps@[i]@, j) {
                                let k = choose|k: int| 0 <= k < g0.deps@[i]@.len() && g0.deps@[i]@[k] as int == j;
                                assert(g0.deps@[i]@[k] < n);
                            }
                        }
                    }
                    assert forall|x: Seq<char>| self.contains_plugin(x) <==> g0.contains_plugin(x) || x == id@ by {
                        if self.contains_plugin(x) {
                            let k = choose|k: int| self.live(k) && self.id_at(k) == x;
                            if k < n {
                                assert(g0.live(k));
                            }
                        }
                        if g0.contains_plugin(x) {
                            let k = choose|k: int| g0.live(k) && g0.id_at(k) == x;
                            assert(self.live(k) && self.id_at(k) == x);
                        }
                        if x == id@ {
                            assert(self.live(n as int) && self.id_at(n as int) == x);
                        }
                    }
                    assert forall|a: int, b: int| self.reach_plus(a, b) == g0.reach_plus(a, b) by {
                        if self.reach_plus(a, b) {
                            let q = choose|q: Seq<int>| #[trigger] self.is_walk(q) && q.len() >= 2 && q[0] == a && q.last() == b;
                            g0.lemma_walk_mono(*self, q);
                        }
                        if g0.reach_plus(a, b) {
                            let q = choose|q: Seq<int>| #[trigger] g0.is_walk(q) && q.len() >= 2 && q[0] == a && q.last() == b;
                            self.lemma_walk_mono(g0, q);
                        }
                    }
                    assert forall|a: Seq<char>, b: Seq<char>| self.depends(a, b) <==> g0.depends(a, b) by {
                        if self.depends(a, b) {
                            let (x, y) = choose|x: int, y: int| self.live(x) && self.live(y) && self.id_at(x) == a && self.id_at(y) == b && self.edge(x, y);
                            assert(g0.edge(x, y));
                            assert(g0.live(x) && g0.live(y));
                        }
                        if g0.depends(a, b) {
                            let (x, y) = choose|x: int, y: int| g0.live(x) && g0.live(y) && g0.id_at(x) == a && g0.id_at(y) == b && g0.edge(x, y);
                            assert(self.live(x) && self.live(y) && self.id_at(x) == a && self.id_at(y) == b);
                        }
                    }
                    assert forall|a: Seq<char>, b: Seq<char>| self.reaches(a, b) <==> g0.reaches(a, b) by {
                        if self.reaches(a, b) {
                            let (x, y) = choose|x: int, y: int| self.live(x) && self.live(y) && self.id_at(x) == a && self.id_at(y) == b && self.reach_plus(x, y);
                            assert(g0.reach_plus(x, y));
                            let q = choose|q: Seq<int>| #[trigger] g0.is_walk(q) && q.len() >= 2 && q[0] == x && q.last() == y;
                            assert(g0.walk_step(q, 0));
                            assert(g0.walk_step(q, q.len() - 2));
                            assert(x < n && y < n);
                            assert(g0.live(x) && g0.live(y));
                        }
                        if g0.reaches(a, b) {
                            let (x, y) = choose|x: int, y: int| g0.live(x) && g0.live(y) && g0.id_at(x) == a && g0.id_at(y) == b && g0.reach_plus(x, y);
                            assert(self.live(x) && self.live(y) && self.id_at(x) == a && self.id_at(y) == b);
                        }
                    }
                }
            },
        }
    }
}


/// `path` walks a cycle that the edge `plugin -> dependency` would close:
/// it starts and ends at `plugin`, its second element is `dependency`, and
/// from there it follows dependencies back to `plugin`.
pub open spec fn is_cycle_path(
    g: DependencyGraph,
    path: Seq<Seq<char>>,
    plugin: Seq<char>,
    dependency: Seq<char>,
) -> bool {
    &&& path.len() >= 3
    &&& path[0] == plugin
    &&& path[1] == dependency
    &&& path[path.len() - 2] == plugin
    &&& path.last() == plugin
    &&& forall|k: int| 1 <= k < path.len() - 2 ==> g.depends(#[trigger] path[k], path[k + 1])
}

impl DependencyGraph {
    proof fn lemma_single_walk(self, x: int)
        ensures
            self.is_walk(seq![x]),
    {
        let q = seq![x];
        assert forall|k: int| 0 <= k < q.len() - 1 implies #[trigger] self.walk_step(q, k) by {}
    }

    /// Adds the dependency `plugin -> dependency`.
    ///
    /// Fails with `PluginNotFound` for the first of the two that is not in
    /// the graph, and with `CycleDetected` when `dependency` already depends
    /// (transitively) on `plugin` or is `plugin` itself; the graph is then
    /// unchanged.
    #[verifier::spinoff_prover]
    #[verifier::rlimit(40)]
    pub fn add_dependency(&mut self, plugin: &PluginId, dependency: &PluginId) -> (r: Result<(), DependencyError>)
        requires
            old(self).well_formed(),
        ensures
            final(self).well_formed(),
            match r {
                Err(DependencyError::PluginNotFound(x)) => {
                    &&& *final(self) == *old(self)
                    &&& if !old(self).contains_plugin(plugin@) {
                        x@ == plugin@
                    } else {
                        !old(self).contains_plugin(dependency@) && x@ == dependency@
                    }
                },
                Err(DependencyError::CycleDetected { path }) => {
                    &&& *final(self) == *old(self)
                    &&& old(self).contains_plugin(plugin@)
                    &&& old(self).contains_plugin(dependency@)
                    &&& (plugin@ == dependency@ || old(self).reaches(dependency@, plugin@))
                    &&& is_cycle_path(*old(self), path@.map_values(|p: PluginId| p@), plugin@, dependency@)
                },
                Ok(()) => {
                    &&& old(self).contains_plugin(plugin@)
                    &&& old(self).contains_plugin(dependency@)
                    &&& plugin@ != dependency@
                    &&& !old(self).reaches(dependency@, plugin@)
                    &&& forall|x: Seq<char>| final(self).contains_plugin(x) <==> old(self).contains_plugin(x)
                    &&& forall|a: Seq<char>, b: Seq<char>|
                        final(self).depends(a, b) <==> old(self).depends(a, b) || (a == plugin@ && b == dependency@)
                },
            },
    {
        let ghost g0 = *self;
        let p = match self.live_slot(plugin) {
            Some(p) => p,
            None => {
                return Err(DependencyError::PluginNotFound(plugin.clone()));
            },
        };
        let d = match self.live_slot(dependency) {
            Some(d) => d,
            None => {
                return Err(DependencyError::PluginNotFound(dependency.clone()));
            },
        };
        match self.find_walk(d, p) {
            Some(w) => {
                let mid = self.ids_of(&w);
                let mut path: Vec<PluginId> = Vec::new();
                path.push(self.ids[p].clone());
                let mut k: usize = 0;
                while k < mid.len()
                    invariant
                        k <= mid@.len(),
                        path@.len() == k + 1,
                        path@[0]@ == self.id_at(p as int),
                        forall|m: int| 0 <= m < k ==> path@[m + 1] == mid@[m],
                    decreases mid.len() - k,
                {
                    path.push(mid[k].clone());
                    k = k + 1;
                }
                path.push(self.ids[p].clone());
                proof {
                    let pv = path@.map_values(|q: PluginId| q@);
                    let wi = as_ints(w@);
                    assert(wi.len() >= 1);
                    assert(pv.len() == w@.len() + 2);
                    assert(pv[1] == self.id_at(d as int));
                    assert(pv[pv.len() - 2] == mid@[w@.len() - 1]@);
                    assert forall|k: int| 1 <= k < pv.len() - 2 implies self.depends(#[trigger] pv[k], pv[k + 1]) by {
                        assert(self.walk_step(wi, k - 1));
                        let x = w@[k - 1] as int;
                        let y = w@[k] as int;
                        assert(self.edge(x, y));
                        let kk = choose|kk: int| 0 <= kk < self.deps@[x]@.len() && self.deps@[x]@[kk] as int == y;
                        assert(self.live(x) && self.live(y));
                        assert(pv[k] == self.id_at(x) && pv[k + 1] == self.id_at(y));
                    }
                    if p != d {
                        assert(wi[0] != wi.last());
                        assert(wi.len() >= 2);
                        assert(self.reach_plus(d as int, p as int));
                    }
                }
                Err(DependencyError::CycleDetected { path })
            },
            None => {
                proof {
                    self.lemma_single_walk(d as int);
                    assert(p != d);
                    if self.reaches(dependency@, plugin@) {
                        let (i, j) = choose|i: int, j: int| self.live(i) && self.live(j) && self.id_at(i) == dependency@ && self.id_at(j) == plugin@ && self.reach_plus(i, j);
                        assert(i == d as int && j == p as int);
                    }
                }
                if !contains_slot(&self.deps[p], d) {
                    proof {
                        assert(!holds_slot(self.dependents@[d as int]@, p as int));
                    }
                    let mut dp = self.deps[p].clone();
                    assert(dp@ == self.deps@[p as int]@);
                    dp.push(d);
                    self.deps.set(p, dp);
                    let mut rd = self.dependents[d].clone();
                    assert(rd@ == self.dependents@[d as int]@);
                    rd.push(p);
                    self.dependents.set(d, rd);
                    proof {
                        let n = self.slots();
                        assert forall|i: int, j: int| #[trigger] self.edge(i, j) <==> g0.edge(i, j) || (i == p as int && j == d as int) by {
                            if i == p as int && 0 <= j < n {
                                if holds_slot(self.deps@[i]@, j) {
                                    let k = choose|k: int| 0 <= k < self.deps@[i]@.len() && self.deps@[i]@[k] as int == j;
                                    if k < g0.deps@[i]@.len() {
                                        assert(g0.deps@[i]@[k] == self.deps@[i]@[k]);
                                    }
                                }
                                if holds_slot(g0.deps@[i]@, j) {
                                    let k = choose|k: int| 0 <= k < g0.deps@[i]@.len() && g0.deps@[i]@[k] as int == j;
                                    assert(self.deps@[i]@[k] == g0.deps@[i]@[k]);
                                }
                                if j == d as int {
                                    assert(self.deps@[i]@[g0.deps@[i]@.len() as int] == d);
                                }
                            }
                        }
                        self.lemma_acyclic_add(g0, p as int, d as int);
                        assert forall|i: int| 0 <= i < n implies (#[trigger] self.deps@[i])@.no_duplicates() by {
                            if i == p as int {
                                let s0 = g0.deps@[i]@;
                                let s1 = self.deps@[i]@;
                                assert forall|a: int, b: int| 0 <= a < s1.len() && 0 <= b < s1.len() && a != b implies s1[a] != s1[b] by {
                                    if a < s0.len() && b < s0.len() {
                                        assert(s1[a] == s0[a] && s1[b] == s0[b]);
                                    } else if a < s0.len() {
                                        assert(s1[a] == s0[a]);
                                        assert(!holds_slot(s0, d as int));
                                    } else if b < s0.len() {
                                        assert(s1[b] == s0[b]);
                                        assert(!holds_slot(s0, d as int));
                                    }
                                }
                            }
                        }
                        assert forall|i: int| 0 <= i < n implies (#[trigger] self.dependents@[i])@.no_duplicates() by {
                            if i == d as int {
                                let s0 = g0.dependents@[i]@;
                                let s1 = self.dependents@[i]@;
                                assert forall|a: int, b: int| 0 <= a < s1.len() && 0 <= b < s1.len() && a != b implies s1[a] != s1[b] by {
                                    if a < s0.len() && b < s0.len() {
                                        assert(s1[a] == s0[a] && s1[b] == s0[b]);
                                    } else if a < s0.len() {
                                        assert(s1[a] == s0[a]);
                                        assert(!holds_slot(s0, p as int));
                                    } else if b < s0.len() {
                                        assert(s1[b] == s0[b]);
                                        assert(!holds_slot(s0, p as int));
                                    }
                                }
                            }
                        }
                        assert forall|i: int, k: int| 0 <= i < n && 0 <= k < self.deps@[i]@.len() implies {
                            let j = #[trigger] self.deps@[i]@[k];
                            j < n && self.present@[i] && self.present@[j as int]
                        } by {
                            if i == p as int && k < g0.deps@[i]@.len() {
                                assert(self.deps@[i]@[k] == g0.deps@[i]@[k]);
                            }
                        }
                        assert forall|j: int, k: int| 0 <= j < n && 0 <= k < self.dependents@[j]@.len() implies {
                            let i = #[trigger] self.dependents@[j]@[k];
                            i < n && self.present@[j] && self.present@[i as int]
                        } by {
                            if j == d as int && k < g0.dependents@[j]@.len() {
                                assert(self.dependents@[j]@[k] == g0.dependents@[j]@[k]);
                            }
                        }
                        assert forall|i: int, j: int| 0 <= i < n && 0 <= j < n implies (holds_slot(self.deps@[i]@, j) <==> holds_slot(self.dependents@[j]@, i)) by {
                            assert(self.edge(i, j) <==> g0.edge(i, j) || (i == p as int && j == d as int));
                            if j == d as int {
                                let s0 = g0.dependents@[j]@;
                                let s1 = self.dependents@[j]@;
                                if holds_slot(s1, i) {
                                    let k = choose|k: int| 0 <= k < s1.len() && s1[k] as int == i;
                                    if k < s0.len() {
                                        assert(s0[k] == s1[k]);
                                    }
                                }
                                if holds_slot(s0, i) {
                                    let k = choose|k: int| 0 <= k < s0.len() && s0[k] as int == i;
                                    assert(s1[k] == s0[k]);
                                }
                                if i == p as int {
                                    assert(s1[s0.len() as int] == p);
                                }
                            }
                        }
                        assert forall|x: Seq<char>| self.contains_plugin(x) <==> g0.contains_plugin(x) by {
                            if self.contains_plugin(x) {
                                let k = choose|k: int| self.live(k) && self.id_at(k) == x;
                                assert(g0.live(k));
                            }
                            if g0.contains_plugin(x) {
                                let k = choose|k: int| g0.live(k) && g0.id_at(k) == x;
                                assert(self.live(k));
                            }
                        }
                        assert forall|a: Seq<char>, b: Seq<char>| self.depends(a, b) <==> g0.depends(a, b) || (a == plugin@ && b == dependency@) by {
                            if self.depends(a, b) {
                                let (x, y) = choose|x: int, y: int| self.live(x) && self.live(y) && self.id_at(x) == a && self.id_at(y) == b && self.edge(x, y);
                                assert(g0.live(x) && g0.live(y));
                            }
                            if g0.depends(a, b) {
                                let (x, y) = choose|x: int, y: int| g0.live(x) && g0.live(y) && g0.id_at(x) == a && g0.id_at(y) == b && g0.edge(x, y);
                                assert(self.live(x) && self.live(y) && self.edge(x, y));
                            }
                            if a == plugin@ && b == dependency@ {
                                assert(self.live(p as int) && self.live(d as int) && self.edge(p as int, d as int));
                            }
                        }
                    }
                } else {
                    proof {
                        assert forall|a: Seq<char>, b: Seq<char>| self.depends(a, b) <==> g0.depends(a, b) || (a == plugin@ && b == dependency@) by {
                            if a == plugin@ && b == dependency@ {
                                assert(self.live(p as int) && self.live(d as int) && self.edge(p as int, d as int));
                            }
                        }
                    }
                }
                Ok(())
            },
        }
    }

    /// Removes a plugin and every edge to or from it (no-op when absent).
    pub fn remove_plugin(&mut self, id: &PluginId)
        requires
            old(self).well_formed(),
        ensures
            final(self).well_formed(),
            forall|x: Seq<char>| final(self).contains_plugin(x) <==> old(self).contains_plugin(x) && x != id@,
            forall|a: Seq<char>, b: Seq<char>|
                final(self).depends(a, b) <==> old(self).depends(a, b) && a != id@ && b != id@,
    {
        let ghost g0 = *self;
        let i = match self.live_slot(id) {
            Some(i) => i,
            None => {
                proof {
                    assert forall|a: Seq<char>, b: Seq<char>| self.depends(a, b) implies a != id@ && b != id@ by {}
                }
                return;
            },
        };
        let n = self.ids.len();
        let mut nd: Vec<Vec<usize>> = Vec::new();
        let mut nr: Vec<Vec<usize>> = Vec::new();
        let mut t: usize = 0;
        while t < n
            invariant
                *self == g0,
                g0.wf(),
                n == g0.slots(),
                i < n,
                t <= n,
                nd@.len() == t,
                nr@.len() == t,
                forall|j: int| 0 <= j < t ==> (#[trigger] nd@[j])@.no_duplicates(),
                forall|j: int| 0 <= j < t ==> (#[trigger] nr@[j])@.no_duplicates(),
                forall|j: int, y: int| 0 <= j < t ==> (#[trigger] holds_slot(nd@[j]@, y) <==> holds_slot(g0.deps@[j]@, y) && j != i && y != i),
                forall|j: int, y: int| 0 <= j < t ==> (#[trigger] holds_slot(nr@[j]@, y) <==> holds_slot(g0.dependents@[j]@, y) && j != i && y != i),
                forall|j: int, k: int| 0 <= j < t && 0 <= k < nd@[j]@.len() ==> holds_slot(g0.deps@[j]@, #[trigger] nd@[j]@[k] as int),
                forall|j: int, k: int| 0 <= j < t && 0 <= k < nr@[j]@.len() ==> holds_slot(g0.dependents@[j]@, #[trigger] nr@[j]@[k] as int),
            decreases n - t,
        {
            if t == i {
                nd.push(Vec::new());
                nr.push(Vec::new());
            } else {
                nd.push(without_slot(&self.deps[t], i));
                nr.push(without_slot(&self.dependents[t], i));
            }
            t = t + 1;
        }
        self.deps = nd;
        self.dependents = nr;
        self.present.set(i, false);
        proof {
            assert forall|a: int, b: int| #[trigger] self.edge(a, b) <==> g0.edge(a, b) && a != i as int && b != i as int by {
                if 0 <= a < n {
                    assert(holds_slot(self.deps@[a]@, b) <==> holds_slot(g0.deps@[a]@, b) && a != i && b != i);
                }
            }
            self.lemma_acyclic_sub(g0);
            assert forall|j: int, k: int| 0 <= j < n && 0 <= k < self.deps@[j]@.len() implies {
                let y = #[trigger] self.deps@[j]@[k];
                y < n && self.present@[j] && self.present@[y as int]
            } by {
                let y = self.deps@[j]@[k];
                assert(holds_slot(self.deps@[j]@, y as int));
                assert(holds_slot(g0.deps@[j]@, y as int));
                let kk = choose|kk: int| 0 <= kk < g0.deps@[j]@.len() && g0.deps@[j]@[kk] as int == y as int;
                assert(g0.present@[j] && g0.present@[y as int]);
            }
            assert forall|j: int, k: int| 0 <= j < n && 0 <= k < self.dependents@[j]@.len() implies {
                let y = #[trigger] self.dependents@[j]@[k];
                y < n && self.present@[j] && self.present@[y as int]
            } by {
                let y = self.dependents@[j]@[k];
                assert(holds_slot(self.dependents@[j]@, y as int));
                assert(holds_slot(g0.dependents@[j]@, y as int));
                let kk = choose|kk: int| 0 <= kk < g0.dependents@[j]@.len() && g0.dependents@[j]@[kk] as int == y as int;
                assert(g0.present@[j] && g0.present@[y as int]);
            }
            assert forall|a: int, b: int| 0 <= a < n && 0 <= b < n implies (holds_slot(self.deps@[a]@, b) <==> holds_slot(self.dependents@[b]@, a)) by {
                assert(holds_slot(self.deps@[a]@, b) <==> holds_slot(g0.deps@[a]@, b) && a != i && b != i);
                assert(holds_slot(self.dependents@[b]@, a) <==> holds_slot(g0.dependents@[b]@, a) && b != i && a != i);
            }
            assert forall|x: Seq<char>| self.contains_plugin(x) <==> g0.contains_plugin(x) && x != id@ by {
                if self.contains_plugin(x) {
                    let k = choose|k: int| self.live(k) && self.id_at(k) == x;
                    assert(k != i as int);
                    assert(g0.live(k));
                }
                if g0.contains_plugin(x) && x != id@ {
                    let k = choose|k: int| g0.live(k) && g0.id_at(k) == x;
                    assert(k != i as int);
                    assert(self.live(k));
                }
            }
            assert forall|a: Seq<char>, b: Seq<char>| self.depends(a, b) <==> g0.depends(a, b) && a != id@ && b != id@ by {
                if self.depends(a, b) {
                    let (x, y) = choose|x: int, y: int| self.live(x) && self.live(y) && self.id_at(x) == a && self.id_at(y) == b && self.edge(x, y);
                    assert(g0.live(x) && g0.live(y) && g0.edge(x, y));
                    assert(x != i as int && y != i as int);
                }
                if g0.depends(a, b) && a != id@ && b != id@ {
                    let (x, y) = choose|x: int, y: int| g0.live(x) && g0.live(y) && g0.id_at(x) == a && g0.id_at(y) == b && g0.edge(x, y);
                    assert(x != i as int && y != i as int);
                    assert(self.live(x) && self.live(y) && self.edge(x, y));
                }
            }
        }
    }
}


/// Code-point lexicographic order of two ids (the order of `str::cmp`).
fn id_less(a: &String, b: &String) -> (r: bool)
    ensures
        r == crate::search::seq_less(a@, b@),
{
    let ca = crate::text::chars_of(a.as_str());
    let cb = crate::text::chars_of(b.as_str());
    crate::search::chars_less(&ca, &cb)
}

impl DependencyGraph {
    /// Slot `z` is a node that has not been ordered yet.
    spec fn stuck(self, popped: Seq<bool>, z: int) -> bool {
        0 <= z < self.slots() && self.present@[z] && !popped[z]
    }

    spec fn stuck_succ(self, popped: Seq<bool>, z: int) -> int {
        choose|y: int| self.edge(z, y) && self.stuck(popped, y)
    }

    spec fn stuck_chain(self, popped: Seq<bool>, u: int, k: nat) -> Seq<int>
        decreases k,
    {
        if k == 0 {
            seq![u]
        } else {
            let c = self.stuck_chain(popped, u, (k - 1) as nat);
            c.push(self.stuck_succ(popped, c.last()))
        }
    }

    proof fn lemma_stuck_chain(self, popped: Seq<bool>, u: int, k: nat)
        requires
            self.stuck(popped, u),
            forall|z: int| #[trigger] self.stuck(popped, z) ==> exists|y: int| self.edge(z, y) && self.stuck(popped, y),
        ensures
            self.is_walk(self.stuck_chain(popped, u, k)),
            self.stuck_chain(popped, u, k).len() == k + 1,
            self.stuck_chain(popped, u, k)[0] == u,
            forall|m: int| 0 <= m <= k ==> self.stuck(popped, #[trigger] self.stuck_chain(popped, u, k)[m]),
        decreases k,
    {
        if k == 0 {
            self.lemma_single_walk(u);
        } else {
            let c = self.stuck_chain(popped, u, (k - 1) as nat);
            self.lemma_stuck_chain(popped, u, (k - 1) as nat);
            assert(self.stuck(popped, c[k - 1]));
            assert(c.last() == c[k - 1]);
            let y = self.stuck_succ(popped, c.last());
            assert(self.edge(c.last(), y) && self.stuck(popped, y));
            self.lemma_walk_push(c, y);
            let c2 = c.push(y);
            assert forall|m: int| 0 <= m <= k implies self.stuck(popped, #[trigger] c2[m]) by {
                if m < k {
                    assert(c2[m] == c[m]);
                }
            }
        }
    }

    /// In an acyclic graph, if every unordered node had an unordered
    /// dependency, there would be no unordered node at all.
    proof fn lemma_no_stuck(self, popped: Seq<bool>)
        requires
            self.wf(),
            forall|z: int| #[trigger] self.stuck(popped, z) ==> exists|y: int| self.edge(z, y) && self.stuck(popped, y),
        ensures
            forall|u: int| !self.stuck(popped, u),
    {
        assert forall|u: int| !self.stuck(popped, u) by {
            if self.stuck(popped, u) {
                let n = self.slots();
                let c = self.stuck_chain(popped, u, n);
                self.lemma_stuck_chain(popped, u, n);
                assert forall|m: int| 0 <= m < c.len() implies 0 <= #[trigger] c[m] < n by {
                    assert(self.stuck(popped, c[m]));
                }
                let (i, j) = lemma_pigeonhole(c, n as int);
                self.lemma_walk_sub(c, i, j + 1);
                let w = c.subrange(i, j + 1);
                assert(w[0] == c[i] && w.last() == c[j]);
                assert(self.reach_plus(c[i], c[i]));
            }
        }
    }

    /// Whether every dependency of slot `x` is marked in `popped`.
    fn all_deps_popped(&self, x: usize, popped: &Vec<bool>) -> (r: bool)
        requires
            self.wf(),
            x < self.slots(),
            popped@.len() == self.slots(),
        ensures
            r == forall|y: int| #[trigger] self.edge(x as int, y) ==> popped@[y],
    {
        let ds = &self.deps[x];
        let mut k: usize = 0;
        while k < ds.len()
            invariant
                self.wf(),
                x < self.slots(),
                popped@.len() == self.slots(),
                ds@ == self.deps@[x as int]@,
                k <= ds@.len(),
                forall|m: int| 0 <= m < k ==> popped@[#[trigger] ds@[m] as int],
            decreases ds.len() - k,
        {
            assert(self.deps@[x as int]@[k as int] < self.slots());
            if !popped[ds[k]] {
                assert(self.edge(x as int, ds@[k as int] as int));
                return false;
            }
            k = k + 1;
        }
        assert forall|y: int| #[trigger] self.edge(x as int, y) implies popped@[y] by {
            let m = choose|m: int| 0 <= m < ds@.len() && ds@[m] as int == y;
            assert(popped@[ds@[m] as int]);
        }
        true
    }

    /// The ids of the slots `r` strictly ascend (code-point order).
    pub closed spec fn ids_ascending(self, r: Seq<usize>) -> bool {
        forall|a: int, b: int| 0 <= a < b < r.len() ==> crate::search::seq_less(self.id_at(#[trigger] r[a] as int), self.id_at(#[trigger] r[b] as int))
    }

    proof fn lemma_ids_differ(self, i: int, j: int)
        requires
            self.wf(),
            0 <= i < self.slots(),
            0 <= j < self.slots(),
            i != j,
        ensures
            self.id_at(i) != self.id_at(j),
    {
    }

    /// The given slots ordered by id.
    fn sort_by_id(&self, v: &Vec<usize>) -> (r: Vec<usize>)
        requires
            self.wf(),
            v@.no_duplicates(),
            forall|k: int| 0 <= k < v@.len() ==> #[trigger] v@[k] < self.slots(),
        ensures
            r@.len() == v@.len(),
            r@.no_duplicates(),
            forall|y: int| holds_slot(r@, y) <==> holds_slot(v@, y),
            forall|k: int| 0 <= k < r@.len() ==> #[trigger] r@[k] < self.slots(),
            self.ids_ascending(r@),
    {
        let mut r: Vec<usize> = Vec::new();
        let mut k: usize = 0;
        while k < v.len()
            invariant
                self.wf(),
                v@.no_duplicates(),
                forall|m: int| 0 <= m < v@.len() ==> #[trigger] v@[m] < self.slots(),
                k <= v@.len(),
                r@.len() == k,
                r@.no_duplicates(),
                forall|y: int| holds_slot(r@, y) <==> holds_slot(v@.take(k as int), y),
                forall|m: int| 0 <= m < r@.len() ==> #[trigger] r@[m] < self.slots(),
                self.ids_ascending(r@),
            decreases v.len() - k,
        {
            let x = v[k];
            proof {
                assert(!holds_slot(r@, x as int)) by {
                    if holds_slot(r@, x as int) {
                        let vt = v@.take(k as int);
                        assert(holds_slot(vt, x as int));
                        let m = choose|m: int| 0 <= m < vt.len() && vt[m] as int == x as int;
                        assert(v@[m] == v@[k as int]);
                    }
                }
            }
            let mut pos: usize = 0;
            while pos < r.len() && !id_less(&self.ids[x], &self.ids[r[pos]])
                invariant
                    self.wf(),
                    x < self.slots(),
                    pos <= r@.len(),
                    !holds_slot(r@, x as int),
                    forall|m: int| 0 <= m < r@.len() ==> #[trigger] r@[m] < self.slots(),
                    forall|q: int| 0 <= q < pos ==> crate::search::seq_less(self.id_at(#[trigger] r@[q] as int), self.id_at(x as int)),
                decreases r.len() - pos,
            {
                proof {
                    let rp = r@[pos as int] as int;
                    assert(rp != x as int) by {
                        if rp == x as int {
                            assert(holds_slot(r@, x as int));
                        }
                    }
                    self.lemma_ids_differ(rp, x as int);
                    crate::search::lemma_seq_less_total(self.id_at(x as int), self.id_at(rp));
                }
                pos = pos + 1;
            }
            let ghost before = r@;
            proof {
                if pos < before.len() {
                    assert forall|q: int| pos <= q < before.len() implies crate::search::seq_less(self.id_at(x as int), self.id_at(#[trigger] before[q] as int)) by {
                        if q > pos {
                            crate::search::lemma_seq_less_transitive(self.id_at(x as int), self.id_at(before[pos as int] as int), self.id_at(before[q] as int));
                        }
                    }
                }
            }
            r.insert(pos, x);
            proof {
                let n = r@;
                assert forall|a: int, b: int| 0 <= a < b < n.len() implies crate::search::seq_less(self.id_at(#[trigger] n[a] as int), self.id_at(#[trigger] n[b] as int)) by {
                    if b < pos {
                        assert(n[a] == before[a] && n[b] == before[b]);
                    } else if b == pos {
                        assert(n[a] == before[a]);
                    } else if a < pos {
                        assert(n[a] == before[a] && n[b] == before[b - 1]);
                        crate::search::lemma_seq_less_transitive(self.id_at(before[a] as int), self.id_at(x as int), self.id_at(before[b - 1] as int));
                    } else if a == pos {
                        assert(n[b] == before[b - 1]);
                    } else {
                        assert(n[a] == before[a - 1] && n[b] == before[b - 1]);
                    }
                }
            }
            proof {
                let vt1 = v@.take(k + 1);
                let vt = v@.take(k as int);
                assert forall|y: int| holds_slot(r@, y) <==> holds_slot(vt1, y) by {
                    if holds_slot(r@, y) {
                        let m = choose|m: int| 0 <= m < r@.len() && r@[m] as int == y;
                        if m < pos {
                            assert(r@[m] == before[m]);
                            assert(holds_slot(before, y));
                        } else if m > pos {
                            assert(r@[m] == before[m - 1]);
                            assert(holds_slot(before, y));
                        } else {
                            assert(vt1[k as int] == x);
                        }
                        if holds_slot(before, y) {
                            let m2 = choose|m2: int| 0 <= m2 < vt.len() && vt[m2] as int == y;
                            assert(vt1[m2] == vt[m2]);
                        }
                    }
                    if holds_slot(vt1, y) {
                        let m = choose|m: int| 0 <= m < vt1.len() && vt1[m] as int == y;
                        if m < k {
                            assert(vt[m] == vt1[m]);
                            assert(holds_slot(before, y));
                            let m2 = choose|m2: int| 0 <= m2 < before.len() && before[m2] as int == y;
                            if m2 < pos {
                                assert(r@[m2] == before[m2]);
                            } else {
                                assert(r@[m2 + 1] == before[m2]);
                            }
                        } else {
                            assert(r@[pos as int] == x);
                        }
                    }
                }
                assert forall|a: int, b: int| 0 <= a < r@.len() && 0 <= b < r@.len() && a != b implies r@[a] != r@[b] by {
                    let fa = if a < pos { a } else if a > pos { a - 1 } else { -1 };
                    let fb = if b < pos { b } else if b > pos { b - 1 } else { -1 };
                    if fa >= 0 {
                        assert(r@[a] == before[fa]);
                    }
                    if fb >= 0 {
                        assert(r@[b] == before[fb]);
                    }
                    if fa >= 0 && fb < 0 {
                        assert(holds_slot(before, r@[a] as int));
                    }
                    if fb >= 0 && fa < 0 {
                        assert(holds_slot(before, r@[b] as int));
                    }
                }
                assert forall|m: int| 0 <= m < r@.len() implies #[trigger] r@[m] < self.slots() by {
                    if m < pos {
                        assert(r@[m] == before[m]);
                    } else if m > pos {
                        assert(r@[m] == before[m - 1]);
                    }
                }
            }
            k = k + 1;
        }
        assert(v@.take(v@.len() as int) =~= v@);
        r
    }

    /// `order` names every plugin of the graph exactly once, and each plugin
    /// after all of its dependencies.
    pub open spec fn is_activation_order(self, order: Seq<Seq<char>>) -> bool {
        &&& forall|k: int, m: int| 0 <= k < m < order.len() ==> order[k] != order[m]
        &&& forall|k: int| 0 <= k < order.len() ==> self.contains_plugin(#[trigger] order[k])
        &&& forall|x: Seq<char>| self.contains_plugin(x) ==> exists|k: int| 0 <= k < order.len() && #[trigger] order[k] == x
        &&& forall|k: int, m: int|
            0 <= k < order.len() && 0 <= m < order.len() && self.depends(#[trigger] order[k], #[trigger] order[m])
                ==> m < k
    }

    /// `x` depends on no plugin.
    pub open spec fn is_root(self, x: Seq<char>) -> bool {
        forall|y: Seq<char>| !self.depends(x, y)
    }

    /// `order` starts with the plugins that depend on nothing, in ascending
    /// id order: whatever comes before such a plugin is such a plugin with
    /// a smaller id.
    pub open spec fn roots_first(self, order: Seq<PluginId>) -> bool {
        forall|a: int, b: int| 0 <= a < b < order.len() && self.is_root((#[trigger] order[b])@)
            ==> self.is_root((#[trigger] order[a])@) && crate::search::seq_less(order[a]@, order[b]@)
    }

    /// `p` is the position in `order` of the dependency of the plugin at
    /// position `i` that comes last.
    pub open spec fn latest_dependency(self, order: Seq<PluginId>, i: int, p: int) -> bool {
        &&& 0 <= i < order.len()
        &&& 0 <= p < order.len()
        &&& self.depends(order[i]@, order[p]@)
        &&& forall|j: int| 0 <= j < order.len() && #[trigger] self.depends(order[i]@, order[j]@) ==> j <= p
    }

    /// A plugin with dependencies comes as soon as the last of them has
    /// come: such plugins follow the order of their latest dependencies,
    /// and those that share it come in ascending id order.
    pub open spec fn ready_order(self, order: Seq<PluginId>) -> bool {
        forall|i: int, i2: int, p: int, p2: int|
            i < i2 && #[trigger] self.latest_dependency(order, i, p) && #[trigger] self.latest_dependency(order, i2, p2)
                ==> p < p2 || (p == p2 && crate::search::seq_less(order[i]@, order[i2]@))
    }

    /// The slot at position `i` of `q` was queued while the slot at
    /// position `p` was taken: it depends on it, and on nothing after it.
    spec fn enqueued_by(self, q: Seq<usize>, i: int, p: int) -> bool {
        &&& 0 <= p < i < q.len()
        &&& self.edge(q[i] as int, q[p] as int)
        &&& forall|y: int| #[trigger] self.edge(q[i] as int, y) ==> holds_slot(q.take(p + 1), y)
    }

    /// The latest dependency of a queued slot is the slot it was queued by.
    proof fn lemma_latest_is_source(self, q: Seq<usize>, order: Seq<PluginId>, i: int, s: int, p: int)
        requires
            self.wf(),
            order.len() == q.len(),
            q.no_duplicates(),
            forall|k: int| 0 <= k < q.len() ==> #[trigger] q[k] < self.slots() && self.present@[q[k] as int],
            forall|k: int| 0 <= k < q.len() ==> (#[trigger] order[k])@ == self.id_at(q[k] as int),
            self.enqueued_by(q, i, s),
            self.latest_dependency(order, i, p),
        ensures
            p == s,
    {
        let (a, b) = choose|a: int, b: int|
            self.live(a) && self.live(b) && self.id_at(a) == order[i]@ && self.id_at(b) == order[p]@ && self.edge(a, b);
        assert(order[i]@ == self.id_at(q[i] as int));
        assert(order[p]@ == self.id_at(q[p] as int));
        self.lemma_live_slot_unique(a, q[i] as int);
        self.lemma_live_slot_unique(b, q[p] as int);
        let t = q.take(s + 1);
        assert(holds_slot(t, q[p] as int));
        let mm = choose|mm: int| 0 <= mm < t.len() && t[mm] as int == q[p] as int;
        assert(q[mm] == q[p]);
        assert(order[s]@ == self.id_at(q[s] as int));
        assert(self.live(q[i] as int) && self.live(q[s] as int));
        assert(self.depends(order[i]@, order[s]@));
    }

    /// A plugin that depends on something is no root.
    proof fn lemma_dependent_not_root(self, x: Seq<char>, y: Seq<char>)
        requires
            self.depends(x, y),
        ensures
            !self.is_root(x),
    {
    }

    /// Activation order: every plugin of the graph exactly once, each after
    /// all of its dependencies (Kahn's algorithm). The plugins without
    /// dependencies come first, in ascending id order; every other plugin
    /// comes when the last of its dependencies has come, and plugins that
    /// become ready together come in ascending id order.
    #[verifier::spinoff_prover]
    #[verifier::rlimit(60)]
    pub fn activation_order(&self) -> (r: Result<Vec<PluginId>, DependencyError>)
        requires
            self.well_formed(),
        ensures
            r is Ok,
            r is Ok ==> self.is_activation_order(r->Ok_0@.map_values(|p: PluginId| p@)),
            r is Ok ==> self.roots_first(r->Ok_0@),
            r is Ok ==> self.ready_order(r->Ok_0@),
    {
        let n = self.ids.len();
        let mut popped: Vec<bool> = Vec::new();
        let mut enq: Vec<bool> = Vec::new();
        let mut init: Vec<usize> = Vec::new();
        let mut t: usize = 0;
        while t < n
            invariant
                self.wf(),
                n == self.slots(),
                t <= n,
                popped@.len() == t,
                enq@.len() == t,
                forall|z: int| 0 <= z < t ==> !popped@[z] && !enq@[z],
                init@.no_duplicates(),
                forall|k: int| 0 <= k < init@.len() ==> #[trigger] init@[k] < t,
                forall|z: int| 0 <= z < t ==> (holds_slot(init@, z) <==> self.present@[z] && self.deps@[z]@.len() == 0),
            decreases n - t,
        {
            popped.push(false);
            enq.push(false);
            if self.present[t] && self.deps[t].len() == 0 {
                let ghost before = init@;
                init.push(t);
                proof {
                    assert forall|z: int| 0 <= z < t + 1 implies (holds_slot(init@, z) <==> self.present@[z] && self.deps@[z]@.len() == 0) by {
                        if holds_slot(init@, z) {
                            let m = choose|m: int| 0 <= m < init@.len() && init@[m] as int == z;
                            if m < before.len() {
                                assert(init@[m] == before[m]);
                                assert(holds_slot(before, z));
                            }
                        }
                        if z < t && holds_slot(before, z) {
                            let m = choose|m: int| 0 <= m < before.len() && before[m] as int == z;
                            assert(init@[m] == before[m]);
                        }
                        if z == t {
                            assert(init@[before.len() as int] == t);
                        }
                    }
                    assert forall|a: int, b: int| 0 <= a < init@.len() && 0 <= b < init@.len() && a != b implies init@[a] != init@[b] by {
                        if a < before.len() {
                            assert(init@[a] == before[a]);
                        }
                        if b < before.len() {
                            assert(init@[b] == before[b]);
                        }
                    }
                }
            } else {
                proof {
                    assert forall|z: int| 0 <= z < t + 1 implies (holds_slot(init@, z) <==> self.present@[z] && self.deps@[z]@.len() == 0) by {
                        if z == t && holds_slot(init@, z) {
                            let m = choose|m: int| 0 <= m < init@.len() && init@[m] as int == z;
                        }
                    }
                }
            }
            t = t + 1;
        }
        let init = self.sort_by_id(&init);
        let mut queue: Vec<usize> = Vec::new();
        let mut k: usize = 0;
        while k < init.len()
            invariant
                self.wf(),
                n == self.slots(),
                popped@.len() == n,
                enq@.len() == n,
                forall|z: int| 0 <= z < n ==> !popped@[z],
                init@.no_duplicates(),
                forall|m: int| 0 <= m < init@.len() ==> #[trigger] init@[m] < n,
                forall|z: int| 0 <= z < n ==> (holds_slot(init@, z) <==> self.present@[z] && self.deps@[z]@.len() == 0),
                k <= init@.len(),
                queue@ == init@.take(k as int),
                forall|z: int| 0 <= z < n ==> (enq@[z] <==> holds_slot(queue@, z)),
            decreases init.len() - k,
        {
            let x = init[k];
            let ghost eb = enq@;
            enq.set(x, true);
            queue.push(x);
            proof {
                assert(queue@ =~= init@.take(k + 1));
                assert forall|z: int| 0 <= z < n implies (enq@[z] <==> holds_slot(queue@, z)) by {
                    let it = init@.take(k as int);
                    if z == x as int {
                        assert(queue@[k as int] == x);
                    } else {
                        assert(enq@[z] == eb[z]);
                        if holds_slot(queue@, z) {
                            let m = choose|m: int| 0 <= m < queue@.len() && queue@[m] as int == z;
                            assert(m < k);
                            assert(queue@[m] == it[m]);
                        }
                        if holds_slot(it, z) {
                            let m = choose|m: int| 0 <= m < it.len() && it[m] as int == z;
                            assert(queue@[m] == it[m]);
                        }
                    }
                }
            }
            k = k + 1;
        }
        assert(queue@ =~= init@);
        let ghost iq = queue@;
        let mut head: usize = 0;
        proof {
            assert forall|m: int| 0 <= m < queue@.len() implies #[trigger] queue@[m] < n && self.present@[queue@[m] as int] by {
                assert(holds_slot(init@, init@[m] as int));
            }
            assert forall|i: int, y: int| 0 <= i < queue@.len() && #[trigger] self.edge(queue@[i] as int, y) implies holds_slot(queue@.take(i), y) by {
                let x = queue@[i] as int;
                assert(holds_slot(init@, x));
                let m = choose|m: int| 0 <= m < self.deps@[x]@.len() && self.deps@[x]@[m] as int == y;
            }
            assert forall|z: int| #[trigger] self.stuck(popped@, z) && !enq@[z] implies exists|y: int| self.edge(z, y) && !popped@[y] by {
                assert(!holds_slot(init@, z));
                assert(self.deps@[z]@.len() > 0);
                let y = self.deps@[z]@[0] as int;
                assert(self.edge(z, y));
            }
        }
        let ghost mut src: Seq<int> = Seq::new(queue@.len(), |i: int| -1int);
        while head < queue.len()
            invariant
                src.len() == queue@.len(),
                forall|i: int| 0 <= i < queue@.len() ==> #[trigger] src[i] < head,
                forall|i: int| iq.len() <= i < queue@.len() ==> self.enqueued_by(queue@, i, #[trigger] src[i]),
                forall|i: int, i2: int| iq.len() <= i < i2 < queue@.len() ==> #[trigger] src[i] <= #[trigger] src[i2],
                forall|i: int, i2: int| iq.len() <= i < i2 < queue@.len() && #[trigger] src[i] == #[trigger] src[i2]
                    ==> crate::search::seq_less(self.id_at(queue@[i] as int), self.id_at(queue@[i2] as int)),
                self.wf(),
                n == self.slots(),
                popped@.len() == n,
                enq@.len() == n,
                head <= queue@.len(),
                queue@.no_duplicates(),
                forall|m: int| 0 <= m < queue@.len() ==> #[trigger] queue@[m] < n && self.present@[queue@[m] as int],
                forall|z: int| 0 <= z < n ==> (enq@[z] <==> holds_slot(queue@, z)),
                forall|z: int| 0 <= z < n ==> (popped@[z] <==> holds_slot(queue@.take(head as int), z)),
                forall|i: int, y: int| 0 <= i < queue@.len() && #[trigger] self.edge(queue@[i] as int, y) ==> holds_slot(queue@.take(i), y),
                forall|z: int| #[trigger] self.stuck(popped@, z) && !enq@[z] ==> exists|y: int| self.edge(z, y) && !popped@[y],
                iq.len() <= queue@.len(),
                queue@.take(iq.len() as int) == iq,
            decreases n - head,
        {
            proof {
                lemma_distinct_bounded(as_ints(queue@), n as int);
            }
            let v = queue[head];
            let ghost pb = popped@;
            popped.set(v, true);
            head = head + 1;
            proof {
                assert forall|z: int| 0 <= z < n implies (popped@[z] <==> holds_slot(queue@.take(head as int), z)) by {
                    let t0 = queue@.take(head - 1);
                    let t1 = queue@.take(head as int);
                    if z == v as int {
                        assert(t1[head - 1] == v);
                    } else {
                        assert(popped@[z] == pb[z]);
                        if holds_slot(t1, z) {
                            let m = choose|m: int| 0 <= m < t1.len() && t1[m] as int == z;
                            assert(m < head - 1);
                            assert(t0[m] == t1[m]);
                        }
                        if holds_slot(t0, z) {
                            let m = choose|m: int| 0 <= m < t0.len() && t0[m] as int == z;
                            assert(t1[m] == t0[m]);
                        }
                    }
                }
            }
            let ds = self.sort_by_id(&self.dependents[v]);
            let mut k: usize = 0;
            let ghost q0 = queue@;
            proof {
                assert(ds@.skip(0) =~= ds@);
                assert forall|z: int| #[trigger] self.stuck(popped@, z) && !enq@[z] implies
                    (exists|y: int| self.edge(z, y) && !popped@[y]) || holds_slot(ds@.skip(0), z) by {
                    assert(self.stuck(pb, z));
                    let y = choose|y: int| self.edge(z, y) && !pb[y];
                    if y == v as int {
                        assert(holds_slot(self.dependents@[v as int]@, z));
                        assert(holds_slot(ds@, z));
                    } else {
                        assert(!popped@[y]);
                    }
                }
            }
            while k < ds.len()
                invariant
                    src.len() == queue@.len(),
                    q0[head - 1] == v,
                    forall|i: int| 0 <= i < q0.len() ==> #[trigger] src[i] < head - 1,
                    forall|i: int| q0.len() <= i < queue@.len() ==> #[trigger] src[i] == head - 1,
                    forall|i: int| q0.len() <= i < queue@.len() ==> exists|m: int| 0 <= m < k && ds@[m] == #[trigger] queue@[i],
                    forall|i: int| iq.len() <= i < queue@.len() ==> self.enqueued_by(queue@, i, #[trigger] src[i]),
                    forall|i: int, i2: int| iq.len() <= i < i2 < queue@.len() ==> #[trigger] src[i] <= #[trigger] src[i2],
                    forall|i: int, i2: int| iq.len() <= i < i2 < queue@.len() && #[trigger] src[i] == #[trigger] src[i2]
                        ==> crate::search::seq_less(self.id_at(queue@[i] as int), self.id_at(queue@[i2] as int)),
                    self.ids_ascending(ds@),
                    self.wf(),
                    n == self.slots(),
                    popped@.len() == n,
                    enq@.len() == n,
                    v < n,
                    popped@[v as int],
                    0 < head <= q0.len(),
                    q0.len() <= queue@.len(),
                    queue@.take(q0.len() as int) == q0,
                    iq.len() <= q0.len(),
                    q0.take(iq.len() as int) == iq,
                    queue@.no_duplicates(),
                    forall|m: int| 0 <= m < queue@.len() ==> #[trigger] queue@[m] < n && self.present@[queue@[m] as int],
                    forall|z: int| 0 <= z < n ==> (enq@[z] <==> holds_slot(queue@, z)),
                    forall|z: int| 0 <= z < n ==> (popped@[z] <==> holds_slot(queue@.take(head as int), z)),
                    forall|i: int, y: int| 0 <= i < queue@.len() && #[trigger] self.edge(queue@[i] as int, y) ==> holds_slot(queue@.take(i), y),
                    forall|y: int| holds_slot(ds@, y) <==> holds_slot(self.dependents@[v as int]@, y),
                    forall|m: int| 0 <= m < ds@.len() ==> #[trigger] ds@[m] < n,
                    k <= ds@.len(),
                    forall|z: int| #[trigger] self.stuck(popped@, z) && !enq@[z] ==>
                        (exists|y: int| self.edge(z, y) && !popped@[y]) || holds_slot(ds@.skip(k as int), z),
                decreases ds.len() - k,
            {
                let x = ds[k];
                let ghost qb = queue@;
                let ghost eb = enq@;
                if !enq[x] && self.all_deps_popped(x, &popped) {
                    proof {
                        lemma_distinct_bounded(as_ints(queue@), n as int);
                        assert(holds_slot(self.dependents@[v as int]@, x as int)) by {
                            assert(holds_slot(ds@, x as int));
                        }
                        let kk = choose|kk: int| 0 <= kk < self.dependents@[v as int]@.len() && self.dependents@[v as int]@[kk] as int == x as int;
                        assert(self.present@[x as int]);
                    }
                    enq.set(x, true);
                    queue.push(x);
                    proof {
                        assert forall|z: int| 0 <= z < n implies (enq@[z] <==> holds_slot(queue@, z)) by {
                            if z == x as int {
                                assert(queue@[qb.len() as int] == x);
                            } else {
                                assert(enq@[z] == eb[z]);
                                if holds_slot(queue@, z) {
                                    let m = choose|m: int| 0 <= m < queue@.len() && queue@[m] as int == z;
                                    assert(queue@[m] == qb[m]);
                                }
                                if holds_slot(qb, z) {
                                    let m = choose|m: int| 0 <= m < qb.len() && qb[m] as int == z;
                                    assert(queue@[m] == qb[m]);
                                }
                            }
                        }
                        assert forall|a: int, b: int| 0 <= a < queue@.len() && 0 <= b < queue@.len() && a != b implies queue@[a] != queue@[b] by {
                            if a < qb.len() {
                                assert(queue@[a] == qb[a]);
                            }
                            if b < qb.len() {
                                assert(queue@[b] == qb[b]);
                            }
                            if a == qb.len() && b < qb.len() {
                                assert(holds_slot(qb, queue@[b] as int));
                            }
                            if b == qb.len() && a < qb.len() {
                                assert(holds_slot(qb, queue@[a] as int));
                            }
                        }
                        assert(queue@.take(q0.len() as int) =~= qb.take(q0.len() as int));
                        assert(queue@.take(head as int) =~= qb.take(head as int));
                        assert forall|i: int, y: int| 0 <= i < queue@.len() && #[trigger] self.edge(queue@[i] as int, y) implies holds_slot(queue@.take(i), y) by {
                            if i < qb.len() {
                                assert(queue@[i] == qb[i]);
                                assert(queue@.take(i) =~= qb.take(i));
                            } else {
                                assert(queue@[i] == x);
                                assert(popped@[y]);
                                assert(holds_slot(queue@.take(head as int), y));
                                let m = choose|m: int| 0 <= m < head && queue@.take(head as int)[m] as int == y;
                                assert(queue@.take(i)[m] == queue@[m]);
                            }
                        }
                    }
                    proof {
                        let sb = src;
                        let l = qb.len() as int;
                        src = src.push(head - 1);
                        assert(queue@[l] == x);
                        assert(queue@[head - 1] == v) by {
                            assert(queue@.take(q0.len() as int)[head - 1] == q0[head - 1]);
                        }
                        assert(self.edge(x as int, v as int)) by {
                            assert(holds_slot(ds@, x as int));
                            assert(holds_slot(self.dependents@[v as int]@, x as int));
                        }
                        assert forall|y: int| #[trigger] self.edge(queue@[l] as int, y) implies holds_slot(queue@.take(head as int), y) by {
                            assert(popped@[y]);
                        }
                        assert(self.enqueued_by(queue@, l, src[l]));
                        assert forall|i: int| iq.len() <= i < queue@.len() implies self.enqueued_by(queue@, i, #[trigger] src[i]) by {
                            if i < l {
                                assert(src[i] == sb[i]);
                                assert(self.enqueued_by(qb, i, sb[i]));
                                assert(queue@[i] == qb[i]);
                                assert(queue@[sb[i]] == qb[sb[i]]);
                                assert(queue@.take(sb[i] + 1) =~= qb.take(sb[i] + 1));
                            }
                        }
                        assert forall|i: int| q0.len() <= i < queue@.len() implies exists|m: int| 0 <= m < k + 1 && ds@[m] == #[trigger] queue@[i] by {
                            if i < l {
                                assert(queue@[i] == qb[i]);
                                let m = choose|m: int| 0 <= m < k && ds@[m] == qb[i];
                                assert(ds@[m] == queue@[i]);
                            } else {
                                assert(ds@[k as int] == queue@[i]);
                            }
                        }
                        assert forall|i: int, i2: int| iq.len() <= i < i2 < queue@.len() && #[trigger] src[i] == #[trigger] src[i2]
                            implies crate::search::seq_less(self.id_at(queue@[i] as int), self.id_at(queue@[i2] as int)) by {
                            if i2 < l {
                                assert(queue@[i] == qb[i] && queue@[i2] == qb[i2]);
                                assert(src[i] == sb[i] && src[i2] == sb[i2]);
                            } else {
                                assert(queue@[i] == qb[i]);
                                assert(src[i] == sb[i]);
                                assert(i >= q0.len());
                                let m = choose|m: int| 0 <= m < k && ds@[m] == qb[i];
                                assert(ds@[k as int] == x);
                            }
                        }
                    }
                }
                proof {
                    let s0 = ds@.skip(k as int);
                    let s1 = ds@.skip(k + 1);
                    assert forall|z: int| #[trigger] self.stuck(popped@, z) && !enq@[z] implies
                        (exists|y: int| self.edge(z, y) && !popped@[y]) || holds_slot(s1, z) by {
                        if z == x as int {
                            assert(eb[z] == false);
                        } else {
                            assert(enq@[z] == eb[z]);
                            if !(exists|y: int| self.edge(z, y) && !popped@[y]) {
                                assert(holds_slot(s0, z));
                                let m = choose|m: int| 0 <= m < s0.len() && s0[m] as int == z;
                                assert(m != 0);
                                assert(s1[m - 1] == s0[m]);
                            }
                        }
                    }
                }
                k = k + 1;
            }
            proof {
                assert forall|z: int| #[trigger] self.stuck(popped@, z) && !enq@[z] implies exists|y: int| self.edge(z, y) && !popped@[y] by {
                    assert(ds@.skip(k as int).len() == 0);
                }
            }
            assert(queue@.take(iq.len() as int) =~= q0.take(iq.len() as int));
        }
        proof {
            assert(queue@.take(head as int) =~= queue@);
            assert forall|z: int| #[trigger] self.stuck(popped@, z) implies exists|y: int| self.edge(z, y) && self.stuck(popped@, y) by {
                assert(!enq@[z]);
                let y = choose|y: int| self.edge(z, y) && !popped@[y];
                let m = choose|m: int| 0 <= m < self.deps@[z]@.len() && self.deps@[z]@[m] as int == y;
                assert(self.present@[y]);
            }
            self.lemma_no_stuck(popped@);
            assert forall|z: int| 0 <= z < n && self.present@[z] implies popped@[z] by {
                assert(!self.stuck(popped@, z));
            }
        }
        let order = self.ids_of(&queue);
        proof {
            let names = order@.map_values(|p: PluginId| p@);
            assert forall|k: int, m: int| 0 <= k < m < names.len() implies names[k] != names[m] by {
                assert(queue@[k] != queue@[m]);
            }
            assert forall|k: int| 0 <= k < names.len() implies self.contains_plugin(#[trigger] names[k]) by {
                assert(self.live(queue@[k] as int));
            }
            assert forall|x: Seq<char>| self.contains_plugin(x) implies exists|k: int| 0 <= k < names.len() && #[trigger] names[k] == x by {
                let i = choose|i: int| self.live(i) && self.id_at(i) == x;
                assert(popped@[i]);
                let k = choose|k: int| 0 <= k < queue@.len() && queue@[k] as int == i;
                assert(names[k] == x);
            }
            assert forall|k: int, m: int|
                0 <= k < names.len() && 0 <= m < names.len() && self.depends(#[trigger] names[k], #[trigger] names[m])
                implies m < k by {
                let (a, b) = choose|a: int, b: int| self.live(a) && self.live(b) && self.id_at(a) == names[k] && self.id_at(b) == names[m] && self.edge(a, b);
                assert(a == queue@[k] as int);
                assert(b == queue@[m] as int);
                assert(holds_slot(queue@.take(k), b));
                let mm = choose|mm: int| 0 <= mm < k && queue@.take(k)[mm] as int == b;
                assert(queue@[mm] == queue@[m]);
            }
            assert(self.is_activation_order(names));
            let c = iq.len() as int;
            assert forall|k: int| 0 <= k < names.len() implies (k < c <==> #[trigger] self.is_root(order@[k]@)) by {
                assert(order@[k]@ == names[k]);
                let z = queue@[k] as int;
                assert(names[k] == self.id_at(z));
                if k < c {
                    assert(queue@.take(c)[k] == iq[k]);
                    assert(holds_slot(init@, z)) by {
                        assert(init@[k] as int == z);
                    }
                    assert forall|y: Seq<char>| !self.depends(names[k], y) by {
                        if self.depends(names[k], y) {
                            let (a, b) = choose|a: int, b: int| self.live(a) && self.live(b) && self.id_at(a) == names[k] && self.id_at(b) == y && self.edge(a, b);
                            self.lemma_live_slot_unique(a, z);
                            assert(holds_slot(self.deps@[z]@, b));
                        }
                    }
                } else {
                    assert(!holds_slot(init@, z)) by {
                        if holds_slot(init@, z) {
                            let m = choose|m: int| 0 <= m < init@.len() && init@[m] as int == z;
                            assert(queue@.take(c)[m] == iq[m]);
                            assert(queue@[m] == queue@[k]);
                        }
                    }
                    assert(self.present@[z]);
                    assert(self.deps@[z]@.len() > 0);
                    let y = self.deps@[z]@[0] as int;
                    assert(self.edge(z, y));
                    assert(self.live(z) && self.live(y));
                    assert(self.depends(names[k], self.id_at(y)));
                }
            }
            assert forall|a: int, b: int| 0 <= a < b < c implies #[trigger] crate::search::seq_less(order@[a]@, order@[b]@) by {
                assert(order@[a]@ == names[a] && order@[b]@ == names[b]);
                assert(queue@.take(c)[a] == iq[a]);
                assert(queue@.take(c)[b] == iq[b]);
                assert(names[a] == self.id_at(init@[a] as int));
                assert(names[b] == self.id_at(init@[b] as int));
            }
            assert(self.roots_first(order@));
            assert forall|i: int, i2: int, p: int, p2: int|
                i < i2 && #[trigger] self.latest_dependency(order@, i, p) && #[trigger] self.latest_dependency(order@, i2, p2)
                implies p < p2 || (p == p2 && crate::search::seq_less(order@[i]@, order@[i2]@)) by {
                self.lemma_dependent_not_root(order@[i]@, order@[p]@);
                self.lemma_dependent_not_root(order@[i2]@, order@[p2]@);
                assert(i >= c);
                assert(i2 >= c);
                self.lemma_latest_is_source(queue@, order@, i, src[i], p);
                self.lemma_latest_is_source(queue@, order@, i2, src[i2], p2);
                assert(src[i] <= src[i2]);
            }
            assert(self.ready_order(order@));
        }

        Ok(order)
    }
}

impl Default for DependencyGraph {
    /// An empty graph.
    fn default() -> (g: Self)
        ensures
            g.well_formed(),
            forall|id: Seq<char>| !g.contains_plugin(id),
    {
        Self::new()
    }
}

} // verus!
