//! Resolution of a marketplace plugin's dependencies: a depth-first walk
//! over the newest release of each plugin that lists every transitive
//! dependency after its own dependencies, refusing missing plugins,
//! unsatisfiable requirements and cycles.
use vstd::prelude::*;
use crate::marketplace::{same_version, PluginDependency};
use crate::marketplace_registry::MarketplaceRegistry;
use crate::text::{push_str, str_equal};
use crate::version::{is_candidate, VersionResolver};

verus! {

/// The dependencies of the newest release of `id`, if it has a release.
pub open spec fn newest_deps(reg: MarketplaceRegistry, id: Seq<char>) -> Option<Seq<PluginDependency>> {
    let vs = reg.versions_of(id);
    if vs.len() > 0 {
        Some(vs.last().dependencies@)
    } else {
        None
    }
}

/// Some release of `dep` satisfies `req`.
pub open spec fn satisfiable(reg: MarketplaceRegistry, dep: Seq<char>, req: Seq<char>) -> bool {
    exists|i: int| 0 <= i < reg.versions_of(dep).len() && is_candidate(#[trigger] reg.versions_of(dep)[i].version@, req)
}

/// Message of a dependency cycle through `id`.
pub open spec fn cycle_message(id: Seq<char>) -> Seq<char> {
    "circular dependency detected involving '"@ + id + "'"@
}

/// Message of a plugin without releases.
pub open spec fn no_version_message(id: Seq<char>) -> Seq<char> {
    "no version found for plugin '"@ + id + "'"@
}

/// Message of a dependency that is not in the registry.
pub open spec fn missing_dependency_message(dep: Seq<char>, parent: Seq<char>) -> Seq<char> {
    "dependency '"@ + dep + "' of '"@ + parent + "' not found in registry"@
}

/// Message of a requirement that no release meets.
pub open spec fn unsatisfiable_message(dep: Seq<char>, req: Seq<char>) -> Seq<char> {
    "no version of '"@ + dep + "' satisfies requirement '"@ + req + "'"@
}

/// Visiting `id` with the plugins of `path` being visited and `done`
/// already listed: a plugin on the path closes a cycle, a listed one is
/// skipped, otherwise its newest release's dependencies are visited in
/// order and the plugin is listed after them.
pub open spec fn visit(reg: MarketplaceRegistry, id: Seq<char>, path: Seq<Seq<char>>, done: Seq<Seq<char>>) -> Result<Seq<Seq<char>>, Seq<char>>
    decreases 2 * (reg.release_bound() - path.len()) + 1, 0nat,
{
    if path.contains(id) {
        Err(cycle_message(id))
    } else if done.contains(id) {
        Ok(done)
    } else {
        match newest_deps(reg, id) {
            None => Err(no_version_message(id)),
            Some(deps) => if path.len() >= reg.release_bound() {
                Err(cycle_message(id))
            } else {
                match visit_deps(reg, id, deps, 0, path.push(id), done) {
                    Ok(d) => Ok(d.push(id)),
                    Err(e) => Err(e),
                }
            },
        }
    }
}

/// Visiting the dependencies of `parent` from the `i`-th on: each must
/// have a release and one that meets its requirement.
pub open spec fn visit_deps(
    reg: MarketplaceRegistry,
    parent: Seq<char>,
    deps: Seq<PluginDependency>,
    i: nat,
    path: Seq<Seq<char>>,
    done: Seq<Seq<char>>,
) -> Result<Seq<Seq<char>>, Seq<char>>
    decreases 2 * (reg.release_bound() - path.len()) + 2, deps.len() - i,
{
    if i >= deps.len() || path.len() > reg.release_bound() {
        Ok(done)
    } else {
        let dep = deps[i as int];
        if reg.versions_of(dep.plugin_id@).len() == 0 {
            Err(missing_dependency_message(dep.plugin_id@, parent))
        } else if !satisfiable(reg, dep.plugin_id@, dep.version_requirement@) {
            Err(unsatisfiable_message(dep.plugin_id@, dep.version_requirement@))
        } else {
            match visit(reg, dep.plugin_id@, path, done) {
                Ok(d) => visit_deps(reg, parent, deps, i + 1, path, d),
                Err(e) => Err(e),
            }
        }
    }
}

/// `s` without the occurrences of `x`.
pub open spec fn without_id(s: Seq<Seq<char>>, x: Seq<char>) -> Seq<Seq<char>>
    decreases s.len(),
{
    if s.len() == 0 {
        s
    } else if s.last() == x {
        without_id(s.drop_last(), x)
    } else {
        without_id(s.drop_last(), x).push(s.last())
    }
}

/// The ids viewed as text.
pub open spec fn ids_of(v: Seq<String>) -> Seq<Seq<char>> {
    v.map_values(|s: String| s@)
}

fn contains_id(v: &Vec<String>, id: &str) -> (b: bool)
    ensures
        b == ids_of(v@).contains(id@),
{
    let mut i: usize = 0;
    while i < v.len()
        invariant
            i <= v@.len(),
            forall|k: int| 0 <= k < i ==> (#[trigger] v@[k])@ != id@,
        decreases v.len() - i,
    {
        if str_equal(v[i].as_str(), id) {
            assert(ids_of(v@)[i as int] == id@);
            return true;
        }
        i = i + 1;
    }
    proof {
        if ids_of(v@).contains(id@) {
            let k = choose|k: int| 0 <= k < ids_of(v@).len() && ids_of(v@)[k] == id@;
            assert(v@[k]@ == id@);
        }
    }
    false
}

fn quoted(pre: &str, x: &str, post: &str) -> (s: String)
    ensures
        s@ == pre@ + x@ + post@,
{
    let mut s = String::new();
    push_str(&mut s, pre);
    push_str(&mut s, x);
    push_str(&mut s, post);
    s
}

/// The ids on a path are distinct plugins with releases.
pub open spec fn path_ok(reg: MarketplaceRegistry, path: Seq<Seq<char>>) -> bool {
    &&& path.no_duplicates()
    &&& forall|i: int| 0 <= i < path.len() ==> reg.versions_of(#[trigger] path[i]).len() > 0
}


/// Every plugin listed in `d` after the first `from` entries has a release,
/// and each dependency of its newest release is listed before it.
pub open spec fn deps_listed_first(reg: MarketplaceRegistry, d: Seq<Seq<char>>, from: int) -> bool {
    forall|k: int| from <= k < d.len() ==> #[trigger] listed_after_deps(reg, d, k)
}

/// The `k`-th listed plugin has a release and each dependency of its
/// newest release is listed before it.
pub open spec fn listed_after_deps(reg: MarketplaceRegistry, d: Seq<Seq<char>>, k: int) -> bool {
    match newest_deps(reg, d[k]) {
        Some(ds) => forall|j: int| 0 <= j < ds.len() ==> listed_before(d, k, (#[trigger] ds[j]).plugin_id@),
        None => false,
    }
}

/// `x` is listed in `d` before position `k`.
pub open spec fn listed_before(d: Seq<Seq<char>>, k: int, x: Seq<char>) -> bool {
    exists|m: int| 0 <= m < k && d[m] == x
}

proof fn lemma_listed_prefix(reg: MarketplaceRegistry, d0: Seq<Seq<char>>, d: Seq<Seq<char>>, k: int)
    requires
        d0.len() <= d.len(),
        d.subrange(0, d0.len() as int) == d0,
        0 <= k < d0.len(),
        listed_after_deps(reg, d0, k),
    ensures
        listed_after_deps(reg, d, k),
{
    assert(d[k] == d.subrange(0, d0.len() as int)[k]);
    assert(d[k] == d0[k]);
    let ds = newest_deps(reg, d0[k])->Some_0;
    assert(newest_deps(reg, d0[k]) == Some(ds));
    assert(newest_deps(reg, d[k]) == Some(ds));
    assert forall|j: int| 0 <= j < ds.len() implies listed_before(d, k, (#[trigger] ds[j]).plugin_id@) by {
        assert(listed_before(d0, k, ds[j].plugin_id@));
        let m = choose|m: int| 0 <= m < k && d0[m] == ds[j].plugin_id@;
        assert(d[m] == d.subrange(0, d0.len() as int)[m]);
    }
}

/// What a successful visit keeps and adds: the listed plugins stay first,
/// nothing is listed twice, the visited plugin is listed, and each newly
/// listed plugin comes after its dependencies.
pub proof fn lemma_visit(reg: MarketplaceRegistry, id: Seq<char>, path: Seq<Seq<char>>, done: Seq<Seq<char>>)
    requires
        visit(reg, id, path, done) is Ok,
        done.no_duplicates(),
    ensures
        ({
            let d = visit(reg, id, path, done)->Ok_0;
            &&& done.len() <= d.len()
            &&& d.subrange(0, done.len() as int) == done
            &&& d.no_duplicates()
            &&& d.contains(id)
            &&& deps_listed_first(reg, d, done.len() as int)
        }),
    decreases 2 * (reg.release_bound() - path.len()) + 1, 0nat,
{
    if path.contains(id) {
    } else if done.contains(id) {
        assert(done.subrange(0, done.len() as int) =~= done);
    } else {
        let deps = newest_deps(reg, id)->Some_0;
        lemma_visit_deps(reg, id, deps, 0, path.push(id), done);
        let d0 = visit_deps(reg, id, deps, 0, path.push(id), done)->Ok_0;
        let d = d0.push(id);
        assert(d.subrange(0, done.len() as int) =~= d0.subrange(0, done.len() as int));
        assert(!d0.contains(id)) by {
            assert(path.push(id)[path.len() as int] == id);
            lemma_visit_deps_avoids(reg, id, deps, 0, path.push(id), done);
        }
        assert(d.no_duplicates()) by {
            assert forall|a: int, b: int| 0 <= a < d.len() && 0 <= b < d.len() && a != b implies d[a] != d[b] by {
                if a < d0.len() && b < d0.len() {
                    assert(d[a] == d0[a] && d[b] == d0[b]);
                } else if a < d0.len() {
                    assert(d0.contains(d0[a]));
                } else if b < d0.len() {
                    assert(d0.contains(d0[b]));
                }
            }
        }
        assert(d[d0.len() as int] == id);
        assert forall|k: int| done.len() <= k < d.len() implies #[trigger] listed_after_deps(reg, d, k) by {
            if k < d0.len() {
                assert(listed_after_deps(reg, d0, k));
                assert(d.subrange(0, d0.len() as int) =~= d0);
                lemma_listed_prefix(reg, d0, d, k);
            } else {
                assert(d[k] == id);
                assert(newest_deps(reg, d[k]) == Some(deps));
                assert forall|j: int| 0 <= j < deps.len() implies listed_before(d, k, (#[trigger] deps[j]).plugin_id@) by {
                    assert(d0.contains(deps[j].plugin_id@));
                    let m = choose|m: int| 0 <= m < d0.len() && d0[m] == deps[j].plugin_id@;
                    assert(d[m] == d0[m]);
                    assert(0 <= m < k);
                }
                assert(k == d0.len());
                assert(listed_after_deps(reg, d, k));
            }
        }
    }
}

/// A successful walk over dependencies from the `i`-th keeps and adds as a
/// visit does, and lists every one of those dependencies.
pub proof fn lemma_visit_deps(
    reg: MarketplaceRegistry,
    parent: Seq<char>,
    deps: Seq<PluginDependency>,
    i: nat,
    path: Seq<Seq<char>>,
    done: Seq<Seq<char>>,
)
    requires
        visit_deps(reg, parent, deps, i, path, done) is Ok,
        done.no_duplicates(),
        path.len() <= reg.release_bound(),
    ensures
        ({
            let d = visit_deps(reg, parent, deps, i, path, done)->Ok_0;
            &&& done.len() <= d.len()
            &&& d.subrange(0, done.len() as int) == done
            &&& d.no_duplicates()
            &&& forall|j: int| i <= j < deps.len() ==> d.contains((#[trigger] deps[j]).plugin_id@)
            &&& deps_listed_first(reg, d, done.len() as int)
        }),
    decreases 2 * (reg.release_bound() - path.len()) + 2, deps.len() - i,
{
    if i >= deps.len() || path.len() > reg.release_bound() {
        assert(done.subrange(0, done.len() as int) =~= done);
    } else {
        let dep = deps[i as int];
        lemma_visit(reg, dep.plugin_id@, path, done);
        let d1 = visit(reg, dep.plugin_id@, path, done)->Ok_0;
        lemma_visit_deps(reg, parent, deps, i + 1, path, d1);
        let d = visit_deps(reg, parent, deps, i + 1, path, d1)->Ok_0;
        assert(d.subrange(0, done.len() as int) =~= d.subrange(0, d1.len() as int).subrange(0, done.len() as int));
        assert forall|j: int| i <= j < deps.len() implies d.contains((#[trigger] deps[j]).plugin_id@) by {
            if j == i {
                let m = choose|m: int| 0 <= m < d1.len() && d1[m] == dep.plugin_id@;
                assert(d[m] == d1[m]) by {
                    assert(d.subrange(0, d1.len() as int)[m] == d1[m]);
                }
            }
        }
        assert forall|k: int| done.len() <= k < d.len() implies #[trigger] listed_after_deps(reg, d, k) by {
            if k < d1.len() {
                assert(listed_after_deps(reg, d1, k));
                lemma_listed_prefix(reg, d1, d, k);
            } else {
                assert(deps_listed_first(reg, d, d1.len() as int));
                assert(listed_after_deps(reg, d, k));
            }
        }
        assert(done.len() <= d.len());
        assert(d.subrange(0, done.len() as int) =~= done);
        assert(d.no_duplicates());
        assert(deps_listed_first(reg, d, done.len() as int));
        assert(d == visit_deps(reg, parent, deps, i, path, done)->Ok_0);
    }
}

/// A successful walk never lists a plugin that is on the path.
proof fn lemma_visit_avoids(reg: MarketplaceRegistry, id: Seq<char>, path: Seq<Seq<char>>, done: Seq<Seq<char>>, x: Seq<char>)
    requires
        visit(reg, id, path, done) is Ok,
        path.contains(x),
        !done.contains(x),
    ensures
        !visit(reg, id, path, done)->Ok_0.contains(x),
    decreases 2 * (reg.release_bound() - path.len()) + 1, 0nat,
{
    if path.contains(id) {
    } else if done.contains(id) {
    } else {
        let deps = newest_deps(reg, id)->Some_0;
        let w = choose|w: int| 0 <= w < path.len() && path[w] == x;
        assert(path.push(id)[w] == x);
        lemma_visit_deps_avoids_x(reg, id, deps, 0, path.push(id), done, x);
        assert(x != id);
    }
}

proof fn lemma_visit_deps_avoids_x(
    reg: MarketplaceRegistry,
    parent: Seq<char>,
    deps: Seq<PluginDependency>,
    i: nat,
    path: Seq<Seq<char>>,
    done: Seq<Seq<char>>,
    x: Seq<char>,
)
    requires
        visit_deps(reg, parent, deps, i, path, done) is Ok,
        path.contains(x),
        !done.contains(x),
    ensures
        !visit_deps(reg, parent, deps, i, path, done)->Ok_0.contains(x),
    decreases 2 * (reg.release_bound() - path.len()) + 2, deps.len() - i,
{
    if i >= deps.len() || path.len() > reg.release_bound() {
    } else {
        let dep = deps[i as int];
        lemma_visit_avoids(reg, dep.plugin_id@, path, done, x);
        let d1 = visit(reg, dep.plugin_id@, path, done)->Ok_0;
        lemma_visit_deps_avoids_x(reg, parent, deps, i + 1, path, d1, x);
    }
}

/// The walk over a plugin's dependencies never lists the plugin itself,
/// which is on the path.
proof fn lemma_visit_deps_avoids(
    reg: MarketplaceRegistry,
    parent: Seq<char>,
    deps: Seq<PluginDependency>,
    i: nat,
    path: Seq<Seq<char>>,
    done: Seq<Seq<char>>,
)
    requires
        visit_deps(reg, parent, deps, i, path, done) is Ok,
        path.contains(parent),
        !done.contains(parent),
    ensures
        !visit_deps(reg, parent, deps, i, path, done)->Ok_0.contains(parent),
{
    lemma_visit_deps_avoids_x(reg, parent, deps, i, path, done, parent);
}

proof fn lemma_without_id(s: Seq<Seq<char>>, x: Seq<char>, y: Seq<char>)
    ensures
        without_id(s, x).contains(y) <==> (s.contains(y) && y != x),
    decreases s.len(),
{
    if s.len() > 0 {
        lemma_without_id(s.drop_last(), x, y);
        if s.contains(y) && y != x {
            let k = choose|k: int| 0 <= k < s.len() && s[k] == y;
            if k < s.len() - 1 {
                assert(s.drop_last()[k] == y);
            }
        }
        if s.drop_last().contains(y) {
            let k = choose|k: int| 0 <= k < s.drop_last().len() && s.drop_last()[k] == y;
            assert(s[k] == y);
        }
        let w = without_id(s.drop_last(), x);
        if s.last() != x {
            if w.push(s.last()).contains(y) && y != s.last() {
                let k = choose|k: int| 0 <= k < w.push(s.last()).len() && w.push(s.last())[k] == y;
                assert(w[k] == y);
            }
            if w.contains(y) {
                let k = choose|k: int| 0 <= k < w.len() && w[k] == y;
                assert(w.push(s.last())[k] == y);
            }
            assert(w.push(s.last())[w.len() as int] == s.last());
        }
    }
}

/// A resolution walks each plugin once, lists the root last, lists every
/// plugin after the dependencies of its newest release, and returns every
/// walked plugin but the root.
pub proof fn lemma_resolution_order(reg: MarketplaceRegistry, id: Seq<char>)
    requires
        visit(reg, id, Seq::empty(), Seq::empty()) is Ok,
    ensures
        ({
            let d = visit(reg, id, Seq::empty(), Seq::empty())->Ok_0;
            &&& d.no_duplicates()
            &&& d.contains(id)
            &&& deps_listed_first(reg, d, 0)
            &&& forall|x: Seq<char>| #[trigger] without_id(d, id).contains(x) <==> (d.contains(x) && x != id)
        }),
{
    lemma_visit(reg, id, Seq::empty(), Seq::empty());
    let d = visit(reg, id, Seq::empty(), Seq::empty())->Ok_0;
    assert forall|x: Seq<char>| #[trigger] without_id(d, id).contains(x) <==> (d.contains(x) && x != id) by {
        lemma_without_id(d, id, x);
    }
}

impl VersionResolver {
    fn resolve_recursive(
        plugin_id: &str,
        registry: &MarketplaceRegistry,
        ordered: &mut Vec<String>,
        in_stack: &mut Vec<String>,
    ) -> (r: Result<(), String>)
        requires
            registry.wf(),
            path_ok(*registry, ids_of(old(in_stack)@)),
        ensures
            match visit(*registry, plugin_id@, ids_of(old(in_stack)@), ids_of(old(ordered)@)) {
                Ok(d) => r is Ok && ids_of(final(ordered)@) == d && final(in_stack)@ == old(in_stack)@,
                Err(m) => r matches Err(e) && e@ == m,
            },
        decreases registry.release_bound() - old(in_stack)@.len(), 1nat,
    {
        if contains_id(in_stack, plugin_id) {
            return Err(quoted("circular dependency detected involving '", plugin_id, "'"));
        }
        if contains_id(ordered, plugin_id) {
            return Ok(());
        }
        let latest = match registry.get_latest_version(plugin_id) {
            Some(v) => v,
            None => {
                return Err(quoted("no version found for plugin '", plugin_id, "'"));
            },
        };
        let ghost deps = latest.dependencies@;
        let ghost path0 = ids_of(in_stack@);
        let ghost done0 = ids_of(ordered@);
        in_stack.push(plugin_id.to_string());
        proof {
            assert(ids_of(in_stack@) =~= path0.push(plugin_id@));
            assert(ids_of(in_stack@).no_duplicates()) by {
                assert forall|i: int, j: int| 0 <= i < ids_of(in_stack@).len() && 0 <= j < ids_of(in_stack@).len() && i != j
                    implies ids_of(in_stack@)[i] != ids_of(in_stack@)[j] by {
                    if i < path0.len() && j < path0.len() {
                        assert(ids_of(in_stack@)[i] == path0[i] && ids_of(in_stack@)[j] == path0[j]);
                    } else if i < path0.len() {
                        assert(path0.contains(path0[i]));
                    } else if j < path0.len() {
                        assert(path0.contains(path0[j]));
                    }
                }
            }
            registry.lemma_released_bounded(ids_of(in_stack@));
            assert(path0 == ids_of(old(in_stack)@));
            assert(done0 == ids_of(old(ordered)@));
            assert(newest_deps(*registry, plugin_id@) == Some(deps));
            assert(!path0.contains(plugin_id@));
            assert(!done0.contains(plugin_id@));
            assert(path0.len() < registry.release_bound());
            assert(visit(*registry, plugin_id@, path0, done0) == match visit_deps(*registry, plugin_id@, deps, 0, path0.push(plugin_id@), done0) {
                Ok(d) => Ok(d.push(plugin_id@)),
                Err(e) => Err(e),
            });
            assert(path_ok(*registry, ids_of(in_stack@))) by {
                assert forall|i: int, j: int| 0 <= i < ids_of(in_stack@).len() && 0 <= j < ids_of(in_stack@).len() && i != j
                    implies ids_of(in_stack@)[i] != ids_of(in_stack@)[j] by {
                    if i < path0.len() && j < path0.len() {
                        assert(ids_of(in_stack@)[i] == path0[i] && ids_of(in_stack@)[j] == path0[j]);
                    }
                }
            }
        }
        let ghost stack1 = in_stack@;
        proof {
            assert(stack1.drop_last() =~= old(in_stack)@);
        }
        let mut i: usize = 0;
        while i < latest.dependencies.len()
            invariant
                registry.wf(),
                in_stack@ == stack1,
                stack1.drop_last() == old(in_stack)@,
                path0 == ids_of(old(in_stack)@),
                done0 == ids_of(old(ordered)@),
                visit(*registry, plugin_id@, path0, done0) == match visit_deps(*registry, plugin_id@, deps, 0, path0.push(plugin_id@), done0) {
                    Ok(d) => Ok(d.push(plugin_id@)),
                    Err(e) => Err(e),
                },
                deps == latest.dependencies@,
                i <= deps.len(),
                ids_of(in_stack@) == path0.push(plugin_id@),
                path_ok(*registry, ids_of(in_stack@)),
                path0.len() < registry.release_bound(),
                visit_deps(*registry, plugin_id@, deps, 0, path0.push(plugin_id@), done0)
                    == visit_deps(*registry, plugin_id@, deps, i as nat, path0.push(plugin_id@), ids_of(ordered@)),
            decreases latest.dependencies.len() - i,
        {
            let dep = &latest.dependencies[i];
            let versions = registry.get_versions(dep.plugin_id.as_str());
            if versions.len() == 0 {
                let mut m = quoted("dependency '", dep.plugin_id.as_str(), "' of '");
                push_str(&mut m, plugin_id);
                push_str(&mut m, "' not found in registry");
                proof {
                    assert(m@ == missing_dependency_message(dep.plugin_id@, plugin_id@));
                    assert(registry.versions_of(dep.plugin_id@).len() == 0);
                    assert(deps[i as int] == *dep);
                    assert(visit_deps(*registry, plugin_id@, deps, i as nat, path0.push(plugin_id@), ids_of(ordered@))
                        == Err::<Seq<Seq<char>>, Seq<char>>(m@));
                }
                return Err(m);
            }
            let mut available: Vec<&str> = Vec::new();
            let mut k: usize = 0;
            while k < versions.len()
                invariant
                    k <= versions@.len(),
                    available@.len() == k,
                    forall|m: int| 0 <= m < k ==> (#[trigger] available@[m])@ == versions@[m].version@,
                decreases versions.len() - k,
            {
                available.push(versions[k].version.as_str());
                k = k + 1;
            }
            proof {
                let vs = registry.versions_of(dep.plugin_id@);
                assert forall|m: int| 0 <= m < available@.len() implies (#[trigger] available@[m])@ == vs[m].version@ by {
                    assert(same_version(versions@[m], vs[m]));
                }
            }
            if VersionResolver::resolve_best(available.as_slice(), dep.version_requirement.as_str()).is_none() {
                proof {
                    let vs = registry.versions_of(dep.plugin_id@);
                    if satisfiable(*registry, dep.plugin_id@, dep.version_requirement@) {
                        let w = choose|w: int| 0 <= w < vs.len() && is_candidate(#[trigger] vs[w].version@, dep.version_requirement@);
                        assert(available@[w]@ == vs[w].version@);
                    }
                }
                let mut m = quoted("no version of '", dep.plugin_id.as_str(), "' satisfies requirement '");
                push_str(&mut m, dep.version_requirement.as_str());
                push_str(&mut m, "'");
                proof {
                    assert(m@ == unsatisfiable_message(dep.plugin_id@, dep.version_requirement@));
                    assert(deps[i as int] == *dep);
                    assert(visit_deps(*registry, plugin_id@, deps, i as nat, path0.push(plugin_id@), ids_of(ordered@))
                        == Err::<Seq<Seq<char>>, Seq<char>>(m@));
                }
                return Err(m);
            }
            proof {
                let vs = registry.versions_of(dep.plugin_id@);
                let w = choose|w: int| 0 <= w < available@.len() && is_candidate(#[trigger] available@[w]@, dep.version_requirement@);
                assert(vs[w].version@ == available@[w]@);
            }
            let sub = VersionResolver::resolve_recursive(dep.plugin_id.as_str(), registry, ordered, in_stack);
            if sub.is_err() {
                return sub;
            }
            i = i + 1;
        }
        let ghost full = in_stack@;
        in_stack.pop();
        proof {
            assert(in_stack@ =~= full.drop_last());
            assert(in_stack@ == old(in_stack)@);
            assert(ids_of(full) == path0.push(plugin_id@));
            assert forall|k: int| 0 <= k < in_stack@.len() implies #[trigger] ids_of(in_stack@)[k] == path0[k] by {
                assert(ids_of(in_stack@)[k] == in_stack@[k]@);
                assert(in_stack@[k] == full[k]);
                assert(ids_of(full)[k] == full[k]@);
            }
            assert(ids_of(in_stack@) =~= path0);
            assert(visit_deps(*registry, plugin_id@, deps, i as nat, path0.push(plugin_id@), ids_of(ordered@)) == Ok::<Seq<Seq<char>>, Seq<char>>(ids_of(ordered@)));
        }
        let ghost before = ordered@;
        ordered.push(plugin_id.to_string());
        proof {
            assert(ids_of(ordered@) =~= ids_of(before).push(plugin_id@));
        }
        Ok(())
    }

    /// The transitive dependencies of `plugin_id`, each listed after its
    /// own dependencies, following the newest release of every plugin.
    /// Refused when a plugin has no release, a dependency is not in the
    /// registry, no release meets a requirement, or the dependencies
    /// form a cycle.
    pub fn resolve_dependencies(plugin_id: &str, registry: &MarketplaceRegistry) -> (r: Result<Vec<String>, String>)
        requires
            registry.wf(),
        ensures
            match visit(*registry, plugin_id@, Seq::empty(), Seq::empty()) {
                Ok(d) => r matches Ok(v) && ids_of(v@) == without_id(d, plugin_id@),
                Err(m) => r matches Err(e) && e@ == m,
            },
    {
        let mut ordered: Vec<String> = Vec::new();
        let mut in_stack: Vec<String> = Vec::new();
        proof {
            assert(ids_of(in_stack@) =~= Seq::<Seq<char>>::empty());
            assert(ids_of(ordered@) =~= Seq::<Seq<char>>::empty());
        }
        Self::resolve_recursive(plugin_id, registry, &mut ordered, &mut in_stack)?;
        let mut out: Vec<String> = Vec::new();
        let mut i: usize = 0;
        while i < ordered.len()
            invariant
                i <= ordered@.len(),
                ids_of(out@) == without_id(ids_of(ordered@).take(i as int), plugin_id@),
            decreases ordered.len() - i,
        {
            proof {
                assert(ids_of(ordered@).take(i + 1).drop_last() =~= ids_of(ordered@).take(i as int));
                assert(ids_of(ordered@).take(i + 1).last() == ordered@[i as int]@);
            }
            let ghost before = out@;
            if !str_equal(ordered[i].as_str(), plugin_id) {
                out.push(ordered[i].clone());
                proof {
                    assert(ids_of(out@) =~= ids_of(before).push(ordered@[i as int]@));
                }
            }
            i = i + 1;
        }
        proof {
            assert(ids_of(ordered@).take(ordered@.len() as int) =~= ids_of(ordered@));
        }
        Ok(out)
    }
}

} // verus!
