//! Run-time enforcement of the permissions plugins declare in their
//! manifests.
use vstd::prelude::*;
use crate::host_types::PluginPermission;

verus! {

/// What a grant table holds: plugin id to its granted permissions.
pub uninterp spec fn grant_table(m: dashmap::DashMap<String, Vec<PluginPermission>>) -> Map<Seq<char>, Seq<PluginPermission>>;

/// Calls `DashMap::new`. Claimed: the table is empty.
#[verifier::external_body]
fn grants_new() -> (r: dashmap::DashMap<String, Vec<PluginPermission>>)
    ensures
        forall|k: Seq<char>| !grant_table(r).contains_key(k),
{
    dashmap::DashMap::new()
}

/// Calls `DashMap::insert` with an owned copy of `key`. Claimed: the
/// entry of `key` becomes `v`, the others stay.
#[verifier::external_body]
fn grants_insert(m: &mut dashmap::DashMap<String, Vec<PluginPermission>>, key: &str, v: Vec<PluginPermission>)
    ensures
        grant_table(*final(m)) == grant_table(*old(m)).insert(key@, v@),
{
    m.insert(key.to_string(), v);
}

/// Calls `DashMap::get` and clones the value found. Claimed: the value is
/// the entry of `key`, `None` when there is none.
#[verifier::external_body]
fn grants_get(m: &dashmap::DashMap<String, Vec<PluginPermission>>, key: &str) -> (r: Option<Vec<PluginPermission>>)
    ensures
        r is Some <==> grant_table(*m).contains_key(key@),
        r matches Some(v) ==> v@ == grant_table(*m)[key@],
{
    m.get(key).map(|e| e.value().clone())
}

/// Calls `DashMap::remove`. Claimed: the entry of `key` is gone, the
/// others stay.
#[verifier::external_body]
fn grants_remove(m: &mut dashmap::DashMap<String, Vec<PluginPermission>>, key: &str)
    ensures
        grant_table(*final(m)) == grant_table(*old(m)).remove(key@),
{
    m.remove(key);
}

/// Grants of each plugin.
pub struct PermissionEnforcer {
    granted: dashmap::DashMap<String, Vec<PluginPermission>>,
}

fn holds(v: &Vec<PluginPermission>, p: PluginPermission) -> (b: bool)
    ensures
        b == v@.contains(p),
{
    let mut i: usize = 0;
    while i < v.len()
        invariant
            i <= v@.len(),
            forall|k: int| 0 <= k < i ==> v@[k] != p,
        decreases v.len() - i,
    {
        if v[i] == p {
            return true;
        }
        i = i + 1;
    }
    false
}

/// `perms` without `p`.
fn without_permission(perms: &Vec<PluginPermission>, p: PluginPermission) -> (kept: Vec<PluginPermission>)
    ensures
        kept@.to_set() == perms@.to_set().remove(p),
{
    let permission = &p;
    let mut kept: Vec<PluginPermission> = Vec::new();
    let mut k: usize = 0;
    while k < perms.len()
        invariant
            k <= perms@.len(),
            kept@.to_set() == perms@.take(k as int).to_set().remove(*permission),
        decreases perms.len() - k,
    {
            proof {
                assert(perms@.take(k + 1) =~= perms@.take(k as int).push(perms@[k as int]));
            }
            if perms[k] != *permission {
                let ghost kb = kept@;
                kept.push(perms[k]);
                proof {
                    let t0 = perms@.take(k as int);
                    let t1 = perms@.take(k + 1);
                    assert(kept@ == kb.push(perms@[k as int]));
                    assert forall|x: PluginPermission| kept@.to_set().contains(x) <==> t1.to_set().remove(*permission).contains(x) by {
                        if kept@.contains(x) {
                            let q = choose|q: int| 0 <= q < kept@.len() && kept@[q] == x;
                            if q < kb.len() {
                                assert(kb[q] == x);
                                assert(kb.to_set().contains(x));
                                let q2 = choose|q2: int| 0 <= q2 < t0.len() && t0[q2] == x;
                                assert(t1[q2] == x);
                            } else {
                                assert(t1[k as int] == x);
                            }
                        }
                        if t1.contains(x) && x != *permission {
                            let q = choose|q: int| 0 <= q < t1.len() && t1[q] == x;
                            if q < k {
                                assert(t0[q] == x);
                                assert(t0.to_set().contains(x));
                                assert(kb.to_set().contains(x));
                                let q2 = choose|q2: int| 0 <= q2 < kb.len() && kb[q2] == x;
                                assert(kept@[q2] == x);
                            } else {
                                assert(kept@[kb.len() as int] == x);
                            }
                        }
                    }
                    assert(kept@.to_set() =~= t1.to_set().remove(*permission));
                }
            } else {
                proof {
                    let t0 = perms@.take(k as int);
                    let t1 = perms@.take(k + 1);
                    assert forall|x: PluginPermission| kept@.to_set().contains(x) <==> t1.to_set().remove(*permission).contains(x) by {
                        if t1.contains(x) && x != *permission {
                            let q = choose|q: int| 0 <= q < t1.len() && t1[q] == x;
                            if q < k {
                                assert(t0[q] == x);
                                assert(t0.to_set().contains(x));
                            }
                        }
                        if kept@.contains(x) {
                            assert(t0.to_set().remove(*permission).contains(x));
                            let q = choose|q: int| 0 <= q < t0.len() && t0[q] == x;
                            assert(t1[q] == x);
                        }
                    }
                    assert(kept@.to_set() =~= t1.to_set().remove(*permission));
                }
            }
            k = k + 1;
        }
    assert(perms@.take(perms@.len() as int) =~= perms@);
    kept
}

impl PermissionEnforcer {
    /// The permissions granted to `plugin`.
    pub closed spec fn permissions_of(self, plugin: Seq<char>) -> Set<PluginPermission> {
        if grant_table(self.granted).contains_key(plugin) {
            grant_table(self.granted)[plugin].to_set()
        } else {
            Set::empty()
        }
    }

    /// No grants.
    pub fn new() -> (e: Self)
        ensures
            forall|p: Seq<char>| e.permissions_of(p) == Set::<PluginPermission>::empty(),
    {
        PermissionEnforcer { granted: grants_new() }
    }

    /// Replaces the whole grant set of `plugin_id`.
    pub fn grant(&mut self, plugin_id: &str, permissions: Vec<PluginPermission>)
        ensures
            final(self).permissions_of(plugin_id@) == permissions@.to_set(),
            forall|p: Seq<char>| p != plugin_id@ ==> final(self).permissions_of(p) == old(self).permissions_of(p),
    {
        grants_insert(&mut self.granted, plugin_id, permissions);
    }

    /// Whether `plugin_id` holds `permission`.
    pub fn check(&self, plugin_id: &str, permission: &PluginPermission) -> (b: bool)
        ensures
            b == self.permissions_of(plugin_id@).contains(*permission),
    {
        match grants_get(&self.granted, plugin_id) {
            Some(v) => holds(&v, *permission),
            None => false,
        }
    }

    /// Withdraws one permission from `plugin_id` (nothing happens when the
    /// plugin has no grants).
    pub fn revoke(&mut self, plugin_id: &str, permission: &PluginPermission)
        ensures
            final(self).permissions_of(plugin_id@) == old(self).permissions_of(plugin_id@).remove(*permission),
            forall|p: Seq<char>| p != plugin_id@ ==> final(self).permissions_of(p) == old(self).permissions_of(p),
    {
        match grants_get(&self.granted, plugin_id) {
            Some(perms) => {
                let kept = without_permission(&perms, *permission);
                grants_insert(&mut self.granted, plugin_id, kept);
            },
            None => {
                proof {
                    assert(Set::<PluginPermission>::empty().remove(*permission) =~= Set::<PluginPermission>::empty());
                }
            },
        }
    }

    /// Withdraws every permission of `plugin_id`.
    pub fn revoke_all(&mut self, plugin_id: &str)
        ensures
            final(self).permissions_of(plugin_id@) == Set::<PluginPermission>::empty(),
            forall|p: Seq<char>| p != plugin_id@ ==> final(self).permissions_of(p) == old(self).permissions_of(p),
    {
        grants_remove(&mut self.granted, plugin_id);
    }

    /// The permissions of `plugin_id` (empty when none were granted).
    pub fn get_permissions(&self, plugin_id: &str) -> (r: Vec<PluginPermission>)
        ensures
            r@.to_set() == self.permissions_of(plugin_id@),
    {
        match grants_get(&self.granted, plugin_id) {
            Some(v) => v,
            None => {
                proof {
                    assert(Seq::<PluginPermission>::empty().to_set() =~= Set::<PluginPermission>::empty());
                }
                Vec::new()
            },
        }
    }
}

impl Default for PermissionEnforcer {
    fn default() -> (e: Self)
        ensures
            forall|p: Seq<char>| e.permissions_of(p) == Set::<PluginPermission>::empty(),
    {
        Self::new()
    }
}

} // verus!
