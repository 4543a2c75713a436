//! Update checks for installed plugins: which plugins are installed at
//! which version, and which release of each is the update to offer.
use vstd::prelude::*;
use crate::keyed::{entry_for, find_key, lemma_entry_at, lemma_entry_none, lemma_entry_push, lemma_entry_set, remove_entry, unique_keys};
use crate::marketplace::{same_version, PluginVersion};
use crate::text::{push_str, str_equal};
use crate::marketplace_client::RegistryClient;
use crate::marketplace_registry::MarketplaceRegistry;
use crate::version::{first_best, format_semver, format_version, is_candidate, semver_le, semver_parse, SemVer, VersionResolver};

verus! {

/// `best` is the newest of the versions `available` that meet
/// `requirement`, as `VersionResolver::resolve_best` renders it.
pub open spec fn is_best(available: Seq<Seq<char>>, requirement: Seq<char>, best: Seq<char>) -> bool {
    exists|i: int|
        0 <= i < available.len() && is_candidate(#[trigger] available[i], requirement) && best == format_semver(
            semver_parse(available[i])->0,
        ) && forall|j: int|
            0 <= j < available.len() && is_candidate(#[trigger] available[j], requirement) ==> semver_le(
                semver_parse(available[j])->0,
                semver_parse(available[i])->0,
            )
}

/// The version strings of the releases `vs`.
pub open spec fn version_names(vs: Seq<PluginVersion>) -> Seq<Seq<char>> {
    vs.map_values(|v: PluginVersion| v.version@)
}

/// Position of the first of the newest releases of `id` in `reg` that are
/// newer than `cur`, if any.
pub open spec fn newest_newer(reg: MarketplaceRegistry, id: Seq<char>, cur: Seq<char>) -> Option<int> {
    let names = version_names(reg.versions_of(id));
    let req = seq!['>'] + cur;
    if exists|k: int| #[trigger] first_best(names, req, k) {
        Some(choose|k: int| #[trigger] first_best(names, req, k))
    } else {
        None
    }
}

/// The updates a check over `installed` finds in `reg`, in order:
/// `(id, installed version, newest newer version as "major.minor.patch")`.
pub open spec fn updates_found(reg: Option<MarketplaceRegistry>, installed: Seq<(String, String)>) -> Seq<(Seq<char>, Seq<char>, Seq<char>)>
    decreases installed.len(),
{
    if installed.len() == 0 {
        Seq::empty()
    } else {
        let rest = updates_found(reg, installed.drop_last());
        let (id, cur) = installed.last();
        match reg {
            None => rest,
            Some(r) => match newest_newer(r, id@, cur@) {
                Some(k) => rest.push((id@, cur@, format_semver(semver_parse(version_names(r.versions_of(id@))[k])->0))),
                None => rest,
            },
        }
    }
}

/// The first of the newest releases is unique.
pub proof fn lemma_first_best_unique(names: Seq<Seq<char>>, req: Seq<char>, a: int, b: int)
    requires
        first_best(names, req, a),
        first_best(names, req, b),
    ensures
        a == b,
{
    if a < b {
        assert(crate::version::semver_lt(semver_parse(names[a])->0, semver_parse(names[b])->0));
        assert(semver_le(semver_parse(names[b])->0, semver_parse(names[a])->0));
    } else if b < a {
        assert(crate::version::semver_lt(semver_parse(names[b])->0, semver_parse(names[a])->0));
        assert(semver_le(semver_parse(names[a])->0, semver_parse(names[b])->0));
    }
}

/// The release offered as the update when the `k`-th is the first of the
/// newest: the first release written exactly as the newest version in
/// `"major.minor.patch"` form, or else the `k`-th itself.
#[verifier::opaque]
pub open spec fn offered(names: Seq<Seq<char>>, k: int) -> int {
    let b = format_semver(semver_parse(names[k])->0);
    if exists|j: int| 0 <= j < names.len() && #[trigger] names[j] == b {
        choose|j: int| 0 <= j < names.len() && #[trigger] names[j] == b && forall|m: int| 0 <= m < j ==> names[m] != b
    } else {
        k
    }
}

/// Position of the first release listed exactly as `text`.
fn first_named(versions: &Vec<PluginVersion>, text: &str) -> (r: Option<usize>)
    ensures
        match r {
            None => forall|m: int| 0 <= m < versions@.len() ==> (#[trigger] versions@[m]).version@ != text@,
            Some(j) => j < versions@.len() && versions@[j as int].version@ == text@
                && forall|m: int| 0 <= m < j ==> (#[trigger] versions@[m]).version@ != text@,
        },
{
    let mut j: usize = 0;
    while j < versions.len()
        invariant
            j <= versions@.len(),
            forall|m: int| 0 <= m < j ==> (#[trigger] versions@[m]).version@ != text@,
        decreases versions.len() - j,
    {
        if str_equal(versions[j].version.as_str(), text) {
            return Some(j);
        }
        j = j + 1;
    }
    None
}

/// The offered release is one of the listed ones.
pub proof fn lemma_offered_in_range(names: Seq<Seq<char>>, k: int)
    requires
        0 <= k < names.len(),
    ensures
        0 <= offered(names, k) < names.len(),
{
    reveal(offered);
    let b = format_semver(semver_parse(names[k])->0);
    if exists|j: int| 0 <= j < names.len() && #[trigger] names[j] == b {
        let j0 = choose|j: int| 0 <= j < names.len() && #[trigger] names[j] == b;
        lemma_first_witness(names, b, j0);
    }
}

proof fn lemma_first_witness(names: Seq<Seq<char>>, b: Seq<char>, j0: int)
    requires
        0 <= j0 < names.len(),
        names[j0] == b,
    ensures
        exists|j: int| 0 <= j < names.len() && #[trigger] names[j] == b && forall|m: int| 0 <= m < j ==> names[m] != b,
    decreases j0,
{
    if exists|m: int| 0 <= m < j0 && #[trigger] names[m] == b {
        let m = choose|m: int| 0 <= m < j0 && #[trigger] names[m] == b;
        lemma_first_witness(names, b, m);
    } else {
        assert(forall|m: int| 0 <= m < j0 ==> names[m] != b);
    }
}

/// Tracks installed plugin versions and the updates found for them.
pub struct UpdateChecker {
    installed: Vec<(String, String)>,
    available_updates: Vec<(String, PluginVersion)>,
    /// Time between automatic update checks, in seconds.
    pub check_interval_secs: u64,
}

impl UpdateChecker {
    /// The installed version of `id`, if it is tracked.
    pub closed spec fn installed_of(self, id: Seq<char>) -> Option<Seq<char>> {
        match entry_for(self.installed@, id) {
            Some(v) => Some(v@),
            None => None,
        }
    }

    /// The tracked plugins with their installed versions, in order.
    pub closed spec fn installed_list(self) -> Seq<(String, String)> {
        self.installed@
    }

    /// The update found for `id` by the last check, if any.
    pub closed spec fn update_of(self, id: Seq<char>) -> Option<PluginVersion> {
        entry_for(self.available_updates@, id)
    }

    /// The updates found, in the order they were found.
    pub closed spec fn update_list(self) -> Seq<(String, PluginVersion)> {
        self.available_updates@
    }

    /// Seconds between automatic checks.
    pub closed spec fn interval(self) -> u64 {
        self.check_interval_secs
    }

    /// The checker's invariant: one entry per plugin in each list.
    pub closed spec fn wf(self) -> bool {
        unique_keys(self.installed@) && unique_keys(self.available_updates@)
    }

    /// A checker that tracks nothing and checks every `interval_secs`
    /// seconds.
    pub fn new(interval_secs: u64) -> (c: Self)
        ensures
            c.wf(),
            c.interval() == interval_secs,
            forall|id: Seq<char>| #[trigger] c.installed_of(id) is None,
            forall|id: Seq<char>| #[trigger] c.update_of(id) is None,
            c.installed_list().len() == 0,
            c.update_list().len() == 0,
    {
        UpdateChecker { installed: Vec::new(), available_updates: Vec::new(), check_interval_secs: interval_secs }
    }

    /// Tracks `plugin_id` as installed at `version`, forgetting any update
    /// found for it.
    pub fn register_installed(&mut self, plugin_id: &str, version: &str)
        requires
            old(self).wf(),
        ensures
            final(self).wf(),
            final(self).installed_of(plugin_id@) == Some(version@),
            final(self).update_of(plugin_id@) is None,
            forall|u: Seq<char>| u != plugin_id@ ==> #[trigger] final(self).installed_of(u) == old(self).installed_of(u),
            forall|u: Seq<char>| u != plugin_id@ ==> #[trigger] final(self).update_of(u) == old(self).update_of(u),
            final(self).interval() == old(self).interval(),
    {
        let ghost before = self.installed@;
        match find_key(&self.installed, plugin_id) {
            Some(i) => {
                proof {
                    lemma_entry_at(before, plugin_id@, i as int);
                }
                let (k, _) = self.installed.remove(i);
                let v = version.to_string();
                let ghost g = v;
                self.installed.insert(i, (k, v));
                proof {
                    assert(self.installed@ =~= before.update(i as int, (before[i as int].0, g)));
                    lemma_entry_set(before, i as int, g);
                }
            },
            None => {
                proof {
                    lemma_entry_none(before, plugin_id@);
                }
                let k = plugin_id.to_string();
                let v = version.to_string();
                let ghost gk = k;
                let ghost gv = v;
                self.installed.push((k, v));
                proof {
                    lemma_entry_push(before, gk, gv);
                }
            },
        }
        remove_entry(&mut self.available_updates, plugin_id);
    }

    /// Stops tracking `plugin_id`.
    pub fn unregister(&mut self, plugin_id: &str)
        requires
            old(self).wf(),
        ensures
            final(self).wf(),
            final(self).installed_of(plugin_id@) is None,
            final(self).update_of(plugin_id@) is None,
            forall|u: Seq<char>| u != plugin_id@ ==> #[trigger] final(self).installed_of(u) == old(self).installed_of(u),
            forall|u: Seq<char>| u != plugin_id@ ==> #[trigger] final(self).update_of(u) == old(self).update_of(u),
            final(self).interval() == old(self).interval(),
    {
        let ghost before = self.installed@;
        remove_entry(&mut self.installed, plugin_id);
        proof {
            assert forall|u: Seq<char>| u != plugin_id@ implies #[trigger] self.installed_of(u) == old(self).installed_of(u) by {
                assert(entry_for(self.installed@, u) == entry_for(before, u));
            }
        }
        remove_entry(&mut self.available_updates, plugin_id);
    }

    /// The installed version of `plugin_id`, if tracked.
    pub fn installed_version(&self, plugin_id: &str) -> (r: Option<String>)
        requires
            self.wf(),
        ensures
            r matches Some(v) ==> self.installed_of(plugin_id@) == Some(v@),
            r is None ==> self.installed_of(plugin_id@) is None,
    {
        match find_key(&self.installed, plugin_id) {
            Some(i) => {
                proof {
                    lemma_entry_at(self.installed@, plugin_id@, i as int);
                }
                Some(self.installed[i].1.clone())
            },
            None => {
                proof {
                    lemma_entry_none(self.installed@, plugin_id@);
                }
                None
            },
        }
    }

    /// Copies of the tracked plugins with their installed versions (what a
    /// check walks through).
    pub fn installed_plugins(&self) -> (r: Vec<(String, String)>)
        ensures
            r@ == self.installed_list(),
    {
        let mut out: Vec<(String, String)> = Vec::new();
        let mut i: usize = 0;
        while i < self.installed.len()
            invariant
                i <= self.installed@.len(),
                out@ == self.installed@.take(i as int),
            decreases self.installed.len() - i,
        {
            out.push((self.installed[i].0.clone(), self.installed[i].1.clone()));
            i = i + 1;
            assert(out@ =~= self.installed@.take(i as int));
        }
        assert(self.installed@.take(self.installed@.len() as int) =~= self.installed@);
        out
    }

    /// Takes in the releases the registry lists for `plugin_id`, installed
    /// at `installed`: the newest version newer than it (`>installed`,
    /// compared as parsed versions) is returned as `"major.minor.patch"`,
    /// and the release listed exactly under that text (else the first of
    /// the newest releases) is recorded as the plugin's update. Nothing
    /// changes when no release is newer.
    pub fn apply_versions(&mut self, plugin_id: &str, installed: &str, versions: &Vec<PluginVersion>) -> (r: Option<String>)
        requires
            old(self).wf(),
        ensures
            final(self).wf(),
            ({
                let names = version_names(versions@);
                let req = seq!['>'] + installed@;
                &&& r is None <==> forall|k: int| 0 <= k < names.len() ==> !is_candidate(#[trigger] names[k], req)
                &&& r is None ==> *final(self) == *old(self)
                &&& r matches Some(best) ==> exists|k: int| #[trigger] first_best(names, req, k)
                    && best@ == format_semver(semver_parse(names[k])->0)
                    && (final(self).update_of(plugin_id@) matches Some(v) && same_version(v, versions@[offered(names, k)]))
                &&& r matches Some(best) ==> is_best(names, req, best@)
            }),
            forall|u: Seq<char>| u != plugin_id@ ==> #[trigger] final(self).update_of(u) == old(self).update_of(u),
            forall|u: Seq<char>| #[trigger] final(self).installed_of(u) == old(self).installed_of(u),
            final(self).installed_list() == old(self).installed_list(),
            final(self).interval() == old(self).interval(),
    {
        let mut names: Vec<&str> = Vec::new();
        let mut i: usize = 0;
        while i < versions.len()
            invariant
                self.wf(),
                *self == *old(self),
                i <= versions@.len(),
                names@.len() == i,
                forall|k: int| 0 <= k < i ==> (#[trigger] names@[k])@ == versions@[k].version@,
            decreases versions.len() - i,
        {
            names.push(versions[i].version.as_str());
            i = i + 1;
        }
        let mut req = String::new();
        push_str(&mut req, ">");
        push_str(&mut req, installed);
        let ghost vn = version_names(versions@);
        proof {
            reveal_strlit(">");
            assert(req@ =~= seq!['>'] + installed@);
            assert(names@.map_values(|s: &str| s@) =~= vn);
        }
        match VersionResolver::best_candidate(names.as_slice(), req.as_str()) {
            None => {
                proof {
                    assert forall|k: int| 0 <= k < vn.len() implies !is_candidate(#[trigger] vn[k], req@) by {
                        assert(vn[k] == names@[k]@);
                    }
                }
                None
            },
            Some(k) => {
                let best = match SemVer::parse(versions[k].version.as_str()) {
                    Some(p) => format_version(&p),
                    None => String::new(),
                };
                proof {
                    assert(first_best(vn, req@, k as int));
                    assert(is_best(vn, req@, best@));
                    assert(best@ == format_semver(semver_parse(vn[k as int])->0));
                }
                let pick = match first_named(versions, best.as_str()) {
                    Some(j) => j,
                    None => k,
                };
                proof {
                    reveal(offered);
                    assert forall|m: int| 0 <= m < vn.len() implies vn[m] == (#[trigger] versions@[m]).version@ by {}
                    let b = best@;
                    if exists|j: int| 0 <= j < vn.len() && #[trigger] vn[j] == b {
                        let c = choose|j: int| 0 <= j < vn.len() && #[trigger] vn[j] == b && forall|m: int| 0 <= m < j ==> vn[m] != b;
                        assert(vn[pick as int] == b);
                        if c < pick {
                            assert(vn[c] != b);
                        } else if pick < c {
                            assert(vn[pick as int] != b);
                        }
                        assert(offered(vn, k as int) == pick);
                    } else {
                        assert(offered(vn, k as int) == pick);
                    }
                }
                let v = versions[pick].duplicate();
                self.record_update(plugin_id, v);
                Some(best)
            },
        }
    }

    /// Checks every tracked plugin against the client's catalogue and
    /// records the newest newer release of each; returns `(id, installed
    /// version, newest version)` for each plugin that has one. A plugin
    /// whose releases cannot be fetched is skipped.
    #[verifier::rlimit(50)]
    pub fn check_updates(&mut self, client: &RegistryClient) -> (r: Vec<(String, String, String)>)
        requires
            old(self).wf(),
            client.wf(),
        ensures
            final(self).wf(),
            r@.map_values(|t: (String, String, String)| (t.0@, t.1@, t.2@)) == updates_found(client.local_state(), old(self).installed_list()),
            final(self).installed_list() == old(self).installed_list(),
            forall|u: Seq<char>| #[trigger] final(self).installed_of(u) == old(self).installed_of(u),
            final(self).interval() == old(self).interval(),
            forall|u: Seq<char>| final(self).update_of(u) != old(self).update_of(u) ==> (#[trigger] final(self).update_of(u) matches Some(v)
                && old(self).installed_of(u) matches Some(cur) && client.local_state() matches Some(reg)
                && newest_newer(reg, u, cur) matches Some(k) && same_version(v, reg.versions_of(u)[offered(version_names(reg.versions_of(u)), k)])),
    {
        let list = self.installed_plugins();
        let mut out: Vec<(String, String, String)> = Vec::new();
        let mut i: usize = 0;
        while i < list.len()
            invariant
                self.wf(),
                client.wf(),
                i <= list@.len(),
                list@ == old(self).installed_list(),
                self.installed_list() == old(self).installed_list(),
                forall|u: Seq<char>| #[trigger] self.installed_of(u) == old(self).installed_of(u),
                self.interval() == old(self).interval(),
                out@.map_values(|t: (String, String, String)| (t.0@, t.1@, t.2@)) == updates_found(client.local_state(), list@.take(i as int)),
                forall|u: Seq<char>| self.update_of(u) != old(self).update_of(u) ==> (#[trigger] self.update_of(u) matches Some(v)
                    && old(self).installed_of(u) matches Some(cur) && client.local_state() matches Some(reg)
                    && newest_newer(reg, u, cur) matches Some(k) && same_version(v, reg.versions_of(u)[offered(version_names(reg.versions_of(u)), k)])),
            decreases list.len() - i,
        {
            let ghost before = *self;
            let ghost out0 = out@;
            proof {
                assert(list@.take(i + 1).drop_last() =~= list@.take(i as int));
                assert(list@.take(i + 1).last() == list@[i as int]);
            }
            let id = list[i].0.as_str();
            let cur = list[i].1.as_str();
            proof {
                assert(old(self).installed_of(id@) == Some(cur@)) by {
                    crate::keyed::lemma_entry_unique(self.installed@, i as int);
                }
            }
            match client.get_versions(id) {
                Ok(vs) => {
                    let ghost reg = client.local_state()->Some_0;
                    let ghost names = version_names(vs@);
                    proof {
                        assert(names =~= version_names(reg.versions_of(id@)));
                    }
                    match self.apply_versions(id, cur, &vs) {
                        Some(best) => {
                            proof {
                                let k = choose|k: int| #[trigger] first_best(names, seq!['>'] + cur@, k)
                                    && best@ == format_semver(semver_parse(names[k])->0)
                                    && (self.update_of(id@) matches Some(v) && same_version(v, vs@[offered(names, k)]));
                                let c = newest_newer(reg, id@, cur@)->Some_0;
                                lemma_first_best_unique(names, seq!['>'] + cur@, k, c);
                                let o = offered(names, k);
                                lemma_offered_in_range(names, k);
                                assert(same_version(vs@[o], reg.versions_of(id@)[o]));
                            }
                            out.push((list[i].0.clone(), list[i].1.clone(), best));
                            proof {
                                assert(out@.map_values(|t: (String, String, String)| (t.0@, t.1@, t.2@)) =~=
                                    out0.map_values(|t: (String, String, String)| (t.0@, t.1@, t.2@)).push((id@, cur@, best@)));
                            }
                        },
                        None => {
                            proof {
                                if exists|k: int| #[trigger] first_best(names, seq!['>'] + cur@, k) {
                                    let k = choose|k: int| #[trigger] first_best(names, seq!['>'] + cur@, k);
                                    assert(is_candidate(names[k], seq!['>'] + cur@));
                                }
                            }
                        },
                    }
                },
                Err(_) => {},
            }
            i = i + 1;
        }
        assert(list@.take(list@.len() as int) =~= list@);
        out
    }

    /// Records `v` as the update found for `plugin_id`.
    fn record_update(&mut self, plugin_id: &str, v: PluginVersion)
        requires
            old(self).wf(),
        ensures
            final(self).wf(),
            final(self).update_of(plugin_id@) == Some(v),
            forall|u: Seq<char>| u != plugin_id@ ==> #[trigger] final(self).update_of(u) == old(self).update_of(u),
            final(self).installed == old(self).installed,
            final(self).interval() == old(self).interval(),
    {
        let ghost before = self.available_updates@;
        let ghost g = v;
        match find_key(&self.available_updates, plugin_id) {
            Some(i) => {
                proof {
                    lemma_entry_at(before, plugin_id@, i as int);
                }
                let (k, _) = self.available_updates.remove(i);
                self.available_updates.insert(i, (k, v));
                proof {
                    assert(self.available_updates@ =~= before.update(i as int, (before[i as int].0, g)));
                    lemma_entry_set(before, i as int, g);
                }
            },
            None => {
                proof {
                    lemma_entry_none(before, plugin_id@);
                }
                let key = plugin_id.to_string();
                let ghost gk = key;
                self.available_updates.push((key, v));
                proof {
                    lemma_entry_push(before, gk, g);
                }
            },
        }
    }

    /// Copies of the updates found, each with its plugin id.
    pub fn get_available_updates(&self) -> (r: Vec<(String, PluginVersion)>)
        ensures
            r@.len() == self.update_list().len(),
            forall|k: int| 0 <= k < r@.len() ==> (#[trigger] r@[k]).0 == self.update_list()[k].0 && same_version(r@[k].1, self.update_list()[k].1),
    {
        let mut out: Vec<(String, PluginVersion)> = Vec::new();
        let mut i: usize = 0;
        while i < self.available_updates.len()
            invariant
                i <= self.available_updates@.len(),
                out@.len() == i,
                forall|k: int| 0 <= k < i ==> (#[trigger] out@[k]).0 == self.available_updates@[k].0 && same_version(out@[k].1, self.available_updates@[k].1),
            decreases self.available_updates.len() - i,
        {
            out.push((self.available_updates[i].0.clone(), self.available_updates[i].1.duplicate()));
            i = i + 1;
        }
        out
    }

    /// Whether the last check found an update for `plugin_id`.
    pub fn has_update(&self, plugin_id: &str) -> (b: bool)
        requires
            self.wf(),
        ensures
            b == self.update_of(plugin_id@) is Some,
    {
        match find_key(&self.available_updates, plugin_id) {
            Some(i) => {
                proof {
                    lemma_entry_at(self.available_updates@, plugin_id@, i as int);
                }
                true
            },
            None => {
                proof {
                    lemma_entry_none(self.available_updates@, plugin_id@);
                }
                false
            },
        }
    }
}

/// The newest version meeting a requirement is unique.
pub proof fn lemma_best_unique(available: Seq<Seq<char>>, requirement: Seq<char>, a: Seq<char>, b: Seq<char>)
    requires
        is_best(available, requirement, a),
        is_best(available, requirement, b),
    ensures
        a == b,
{
    let i = choose|i: int| 0 <= i < available.len() && is_candidate(#[trigger] available[i], requirement) && a == format_semver(semver_parse(available[i])->0) && forall|j: int|
        0 <= j < available.len() && is_candidate(#[trigger] available[j], requirement) ==> semver_le(semver_parse(available[j])->0, semver_parse(available[i])->0);
    let k = choose|k: int| 0 <= k < available.len() && is_candidate(#[trigger] available[k], requirement) && b == format_semver(semver_parse(available[k])->0) && forall|j: int|
        0 <= j < available.len() && is_candidate(#[trigger] available[j], requirement) ==> semver_le(semver_parse(available[j])->0, semver_parse(available[k])->0);
    assert(semver_le(semver_parse(available[i])->0, semver_parse(available[k])->0));
    assert(semver_le(semver_parse(available[k])->0, semver_parse(available[i])->0));
}

} // verus!
