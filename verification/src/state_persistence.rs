//! Plugin runtime states kept across restarts: the record of one plugin and
//! the edits made to the list of records before it is written back to the
//! persistence file.
use vstd::prelude::*;
use crate::text::str_equal;

verus! {

/// Snapshot of one plugin's runtime state.
#[derive(Debug, Clone)]
pub struct PersistedPluginState {
    /// Reverse-domain plugin id (e.g. "io.draox.clans").
    pub plugin_id: String,
    /// Lifecycle state name: "ActiveEnabled", "ActiveDisabled" or "Installed".
    pub state: String,
    /// Plugin configuration: each key with its value as JSON text.
    pub config: Vec<(String, String)>,
    /// When the record was last written, in milliseconds since the Unix epoch.
    pub saved_at: i64,
}

/// Persists plugin states to one JSON file (the reading and writing is
/// done by the caller; this type decides what is written).
pub struct StatePersistence {
    /// Path of the persistence file (e.g. `data/plugin_states.json`).
    path: String,
}

/// The ids of a list of records.
pub open spec fn ids_of(states: Seq<PersistedPluginState>) -> Seq<Seq<char>> {
    states.map_values(|s: PersistedPluginState| s.plugin_id@)
}

/// The records whose id is not `plugin_id`, in order.
pub open spec fn without_id(states: Seq<PersistedPluginState>, plugin_id: Seq<char>) -> Seq<PersistedPluginState>
    decreases states.len(),
{
    if states.len() == 0 {
        states
    } else {
        let rest = without_id(states.drop_last(), plugin_id);
        if states.last().plugin_id@ == plugin_id {
            rest
        } else {
            rest.push(states.last())
        }
    }
}

/// Position of the first record with id `plugin_id`, if any.
pub open spec fn first_with_id(states: Seq<PersistedPluginState>, plugin_id: Seq<char>) -> Option<int>
    decreases states.len(),
{
    if states.len() == 0 {
        None
    } else {
        match first_with_id(states.drop_last(), plugin_id) {
            Some(k) => Some(k),
            None => if states.last().plugin_id@ == plugin_id {
                Some(states.len() - 1)
            } else {
                None
            },
        }
    }
}

/// `first_with_id` finds the first record with the id, and `None` means
/// there is none.
pub proof fn lemma_first_with_id(states: Seq<PersistedPluginState>, plugin_id: Seq<char>)
    ensures
        match first_with_id(states, plugin_id) {
            Some(k) => 0 <= k < states.len() && states[k].plugin_id@ == plugin_id && forall|m: int|
                0 <= m < k ==> (#[trigger] states[m]).plugin_id@ != plugin_id,
            None => forall|m: int| 0 <= m < states.len() ==> (#[trigger] states[m]).plugin_id@ != plugin_id,
        },
    decreases states.len(),
{
    if states.len() > 0 {
        let init = states.drop_last();
        lemma_first_with_id(init, plugin_id);
        assert(forall|m: int| 0 <= m < init.len() ==> init[m] == states[m]);
    }
}

/// Removal keeps every other record and leaves none of the removed id;
/// it changes the list exactly when some record had that id.
pub proof fn lemma_without_id_len(states: Seq<PersistedPluginState>, plugin_id: Seq<char>)
    ensures
        without_id(states, plugin_id).len() <= states.len(),
        (without_id(states, plugin_id).len() == states.len()) <==> forall|k: int|
            0 <= k < states.len() ==> (#[trigger] states[k]).plugin_id@ != plugin_id,
        forall|k: int| 0 <= k < without_id(states, plugin_id).len() ==> (#[trigger] without_id(states, plugin_id)[k]).plugin_id@ != plugin_id,
    decreases states.len(),
{
    if states.len() > 0 {
        let init = states.drop_last();
        lemma_without_id_len(init, plugin_id);
        if (forall|k: int| 0 <= k < states.len() ==> (#[trigger] states[k]).plugin_id@ != plugin_id) {
            assert forall|k: int| 0 <= k < init.len() implies (#[trigger] init[k]).plugin_id@ != plugin_id by {
                assert(init[k] == states[k]);
            }
        }
        if (forall|k: int| 0 <= k < init.len() ==> (#[trigger] init[k]).plugin_id@ != plugin_id) && states.last().plugin_id@ != plugin_id {
            assert forall|k: int| 0 <= k < states.len() implies (#[trigger] states[k]).plugin_id@ != plugin_id by {
                if k < init.len() {
                    assert(init[k] == states[k]);
                }
            }
        }
    }
}

impl StatePersistence {
    /// Path of the persistence file.
    pub closed spec fn file_path(self) -> Seq<char> {
        self.path@
    }

    /// Persistence at `path`.
    pub fn new(path: String) -> (p: Self)
        ensures
            p.file_path() == path@,
    {
        StatePersistence { path }
    }

    /// Path of the persistence file.
    pub fn path(&self) -> (s: &str)
        ensures
            s@ == self.file_path(),
    {
        self.path.as_str()
    }

    /// The records to write after upserting `state` into `states`: the
    /// first record with the same id is replaced, or `state` is appended.
    pub fn save_one(&self, states: Vec<PersistedPluginState>, state: PersistedPluginState) -> (r: Vec<PersistedPluginState>)
        ensures
            match first_with_id(states@, state.plugin_id@) {
                Some(k) => r@ == states@.update(k, state),
                None => r@ == states@.push(state),
            },
    {
        let mut list = states;
        let ghost s0 = list@;
        let mut i: usize = 0;
        while i < list.len()
            invariant
                list@ == s0,
                s0 == states@,
                i <= s0.len(),
                forall|m: int| 0 <= m < i ==> (#[trigger] s0[m]).plugin_id@ != state.plugin_id@,
            decreases list.len() - i,
        {
            if str_equal(list[i].plugin_id.as_str(), state.plugin_id.as_str()) {
                proof {
                    let p = state.plugin_id@;
                    lemma_first_with_id(s0, p);
                    assert(s0[i as int].plugin_id@ == p);
                    let kk = first_with_id(s0, p)->Some_0;
                    if kk < i {
                        assert(s0[kk].plugin_id@ != p);
                    } else if kk > i {
                        assert(s0[i as int].plugin_id@ != p);
                    }
                    assert(first_with_id(s0, p) == Some(i as int));
                }
                let ghost st = state;
                list.set(i, state);
                assert(list@ == s0.update(i as int, st));
                return list;
            }
            i = i + 1;
        }
        proof {
            lemma_first_with_id(s0, state.plugin_id@);
        }
        list.push(state);
        list
    }

    /// The records to write after removing those of `plugin_id`, or `None`
    /// when there is none (the file is then left as it is).
    pub fn remove(&self, states: Vec<PersistedPluginState>, plugin_id: &str) -> (r: Option<Vec<PersistedPluginState>>)
        ensures
            r is None <==> forall|k: int| 0 <= k < states@.len() ==> (#[trigger] states@[k]).plugin_id@ != plugin_id@,
            r matches Some(kept) ==> kept@ == without_id(states@, plugin_id@),
    {
        let before = states.len();
        let mut kept: Vec<PersistedPluginState> = Vec::new();
        let mut rest = states;
        let ghost all = rest@;
        let mut n: usize = 0;
        while rest.len() > 0
            invariant
                n + rest@.len() == all.len(),
                all.len() == before,
                rest@ == all.subrange(n as int, all.len() as int),
                kept@ == without_id(all.take(n as int), plugin_id@),
            decreases rest.len(),
        {
            let s = rest.remove(0);
            proof {
                assert(all.take(n + 1).drop_last() =~= all.take(n as int));
                assert(all.take(n + 1).last() == s);
            }
            if !str_equal(s.plugin_id.as_str(), plugin_id) {
                kept.push(s);
            }
            n = n + 1;
            assert(rest@ =~= all.subrange(n as int, all.len() as int));
        }
        proof {
            assert(all.take(all.len() as int) =~= all);
            lemma_without_id_len(all, plugin_id@);
        }
        if kept.len() != before {
            Some(kept)
        } else {
            None
        }
    }
}

/// After an upsert, the first record with the state's id is the new state.
pub proof fn lemma_upsert_then_lookup(states: Seq<PersistedPluginState>, state: PersistedPluginState)
    ensures
        ({
            let r = match first_with_id(states, state.plugin_id@) {
                Some(k) => states.update(k, state),
                None => states.push(state),
            };
            first_with_id(r, state.plugin_id@) matches Some(j) && r[j] == state
        }),
{
    let p = state.plugin_id@;
    lemma_first_with_id(states, p);
    match first_with_id(states, p) {
        Some(k) => {
            let r = states.update(k, state);
            lemma_first_with_id(r, p);
            assert(r[k].plugin_id@ == p);
            assert(forall|m: int| 0 <= m < k ==> (#[trigger] r[m]).plugin_id@ != p) by {
                assert forall|m: int| 0 <= m < k implies (#[trigger] r[m]).plugin_id@ != p by {
                    assert(r[m] == states[m]);
                }
            }
            let j = first_with_id(r, p)->Some_0;
            if j < k {
                assert(r[j].plugin_id@ != p);
            } else if j > k {
                assert(r[k].plugin_id@ != p);
            }
        },
        None => {
            let r = states.push(state);
            lemma_first_with_id(r, p);
            let n = states.len() as int;
            assert(r[n].plugin_id@ == p);
            assert forall|m: int| 0 <= m < n implies (#[trigger] r[m]).plugin_id@ != p by {
                assert(r[m] == states[m]);
            }
            let j = first_with_id(r, p)->Some_0;
            if j < n {
                assert(r[j] == states[j]);
            }
        },
    }
}

} // verus!
