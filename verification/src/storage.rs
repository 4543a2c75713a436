//! Plugin-scoped key-value storage: each plugin's keys live under its own
//! namespace, so plugins never see each other's entries.
use vstd::prelude::*;
use crate::keyed::{entry_for, find_key, lemma_entry_at, lemma_entry_none, lemma_entry_push, lemma_entry_set, remove_entry, unique_keys};
use crate::text::{has_prefix, push_str};

verus! {

/// The key under which a plugin's `key` is stored: `namespace:key`.
pub open spec fn scoped(namespace: Seq<char>, key: Seq<char>) -> Seq<char> {
    namespace + ":"@ + key
}

/// The cache key of a plugin's `key`: `plugin:namespace:key`.
pub open spec fn cache_scoped(namespace: Seq<char>, key: Seq<char>) -> Seq<char> {
    "plugin:"@ + namespace + ":"@ + key
}

/// The plugin keys, namespace removed, of the stored entries whose scoped
/// key starts with `full_prefix`, in the order stored.
pub open spec fn listed_keys(entries: Seq<(String, String)>, namespace: Seq<char>, full_prefix: Seq<char>) -> Seq<Seq<char>>
    decreases entries.len(),
{
    if entries.len() == 0 {
        Seq::empty()
    } else {
        let rest = listed_keys(entries.drop_last(), namespace, full_prefix);
        let k = entries.last().0@;
        if has_prefix(k, full_prefix) {
            rest.push(k.subrange(namespace.len() as int + 1, k.len() as int))
        } else {
            rest
        }
    }
}

proof fn lemma_scoped_injective(namespace: Seq<char>, a: Seq<char>, b: Seq<char>)
    requires
        a != b,
    ensures
        scoped(namespace, a) != scoped(namespace, b),
{
    reveal_strlit(":");
    let n = namespace.len() + 1;
    if scoped(namespace, a) == scoped(namespace, b) {
        assert(scoped(namespace, a).subrange(n as int, scoped(namespace, a).len() as int) =~= a);
        assert(scoped(namespace, b).subrange(n as int, scoped(namespace, b).len() as int) =~= b);
    }
}

/// In-memory storage of one plugin; values are JSON text.
pub struct InMemoryStorageHandle {
    namespace: String,
    data: Vec<(String, String)>,
}

impl InMemoryStorageHandle {
    /// The plugin's namespace.
    pub closed spec fn ns(self) -> Seq<char> {
        self.namespace@
    }

    /// The stored entries under their scoped keys, in the order stored.
    pub closed spec fn entries(self) -> Seq<(String, String)> {
        self.data@
    }

    /// One entry per scoped key.
    pub closed spec fn wf(self) -> bool {
        unique_keys(self.data@)
    }

    /// The value stored under the plugin's `key`, if any.
    pub open spec fn value_of(self, key: Seq<char>) -> Option<String> {
        entry_for(self.entries(), scoped(self.ns(), key))
    }

    /// Empty storage for plugin `namespace`.
    pub fn new(namespace: String) -> (s: Self)
        ensures
            s.wf(),
            s.ns() == namespace@,
            s.entries().len() == 0,
    {
        InMemoryStorageHandle { namespace, data: Vec::new() }
    }

    /// The scoped key of `key`.
    pub fn scoped_key(&self, key: &str) -> (s: String)
        ensures
            s@ == scoped(self.ns(), key@),
    {
        let mut s = String::new();
        push_str(&mut s, self.namespace.as_str());
        push_str(&mut s, ":");
        push_str(&mut s, key);
        s
    }

    /// The value stored under `key`, if any.
    pub fn get(&self, key: &str) -> (r: Option<String>)
        requires
            self.wf(),
        ensures
            r == self.value_of(key@),
    {
        let scoped_key = self.scoped_key(key);
        match find_key(&self.data, scoped_key.as_str()) {
            Some(i) => {
                proof {
                    lemma_entry_at(self.data@, scoped_key@, i as int);
                }
                Some(self.data[i].1.clone())
            },
            None => {
                proof {
                    lemma_entry_none(self.data@, scoped_key@);
                }
                None
            },
        }
    }

    /// Stores `value` under `key`, replacing what was there.
    pub fn set(&mut self, key: &str, value: String)
        requires
            old(self).wf(),
        ensures
            final(self).wf(),
            final(self).ns() == old(self).ns(),
            final(self).value_of(key@) == Some(value),
            forall|k: Seq<char>| k != key@ ==> #[trigger] final(self).value_of(k) == old(self).value_of(k),
    {
        let scoped_key = self.scoped_key(key);
        let ghost before = self.data@;
        let ghost g = value;
        match find_key(&self.data, scoped_key.as_str()) {
            Some(i) => {
                proof {
                    lemma_entry_at(before, scoped_key@, i as int);
                }
                let (k, _) = self.data.remove(i);
                self.data.insert(i, (k, value));
                proof {
                    assert(self.data@ =~= before.update(i as int, (before[i as int].0, g)));
                    lemma_entry_set(before, i as int, g);
                }
            },
            None => {
                proof {
                    lemma_entry_none(before, scoped_key@);
                }
                let ghost gk = scoped_key;
                self.data.push((scoped_key, value));
                proof {
                    lemma_entry_push(before, gk, g);
                }
            },
        }
        proof {
            assert forall|k: Seq<char>| k != key@ implies #[trigger] self.value_of(k) == old(self).value_of(k) by {
                lemma_scoped_injective(self.ns(), k, key@);
            }
        }
    }

    /// Removes `key`; whether something was stored under it.
    pub fn delete(&mut self, key: &str) -> (b: bool)
        requires
            old(self).wf(),
        ensures
            final(self).wf(),
            final(self).ns() == old(self).ns(),
            b == old(self).value_of(key@) is Some,
            final(self).value_of(key@) is None,
            forall|k: Seq<char>| k != key@ ==> #[trigger] final(self).value_of(k) == old(self).value_of(k),
    {
        let scoped_key = self.scoped_key(key);
        let present = match find_key(&self.data, scoped_key.as_str()) {
            Some(i) => {
                proof {
                    lemma_entry_at(self.data@, scoped_key@, i as int);
                }
                true
            },
            None => {
                proof {
                    lemma_entry_none(self.data@, scoped_key@);
                }
                false
            },
        };
        remove_entry(&mut self.data, scoped_key.as_str());
        proof {
            assert forall|k: Seq<char>| k != key@ implies #[trigger] self.value_of(k) == old(self).value_of(k) by {
                lemma_scoped_injective(self.ns(), k, key@);
            }
        }
        present
    }

    /// The plugin keys that start with `prefix`, in the order stored.
    pub fn list_keys(&self, prefix: &str) -> (v: Vec<String>)
        ensures
            v@.map_values(|s: String| s@) == listed_keys(self.entries(), self.ns(), scoped(self.ns(), prefix@)),
    {
        let full_prefix = self.scoped_key(prefix);
        let fp: Vec<char> = crate::text::chars_of(full_prefix.as_str());
        let nsc: Vec<char> = crate::text::chars_of(self.namespace.as_str());
        proof {
            reveal_strlit(":");
            assert(nsc@.len() + 1 <= fp@.len());
        }
        assert(nsc.len() < fp.len());
        let skip = nsc.len() + 1;
        let mut v: Vec<String> = Vec::new();
        let mut i: usize = 0;
        while i < self.data.len()
            invariant
                i <= self.data@.len(),
                fp@ == scoped(self.namespace@, prefix@),
                skip <= fp@.len(),
                skip == self.namespace@.len() + 1,
                v@.map_values(|s: String| s@) == listed_keys(self.data@.take(i as int), self.namespace@, fp@),
            decreases self.data.len() - i,
        {
            proof {
                assert(self.data@.take(i + 1).drop_last() =~= self.data@.take(i as int));
                assert(self.data@.take(i + 1).last() == self.data@[i as int]);
            }
            let key_chars = crate::text::chars_of(self.data[i].0.as_str());
            let ghost before = v@;
            if crate::text::chars_has_prefix(&key_chars, &fp) {
                assert(skip <= key_chars@.len());
                let stripped = crate::text::string_from_chars(&crate::text::sub_chars(&key_chars, skip, key_chars.len()));
                v.push(stripped);
                proof {
                    assert(v@.map_values(|s: String| s@) =~= before.map_values(|s: String| s@).push(stripped@));
                }
            }
            i = i + 1;
        }
        proof {
            assert(self.data@.take(self.data@.len() as int) =~= self.data@);
        }
        v
    }
}

/// Cache keys of one plugin: every key is stored as
/// `plugin:<namespace>:<key>`.
pub struct BackendCacheHandle {
    namespace: String,
}

impl BackendCacheHandle {
    /// The plugin's namespace.
    pub closed spec fn ns(self) -> Seq<char> {
        self.namespace@
    }

    /// A handle for plugin `namespace`.
    pub fn new(namespace: String) -> (h: Self)
        ensures
            h.ns() == namespace@,
    {
        BackendCacheHandle { namespace }
    }

    /// The cache key of `key`.
    pub fn scoped_key(&self, key: &str) -> (s: String)
        ensures
            s@ == cache_scoped(self.ns(), key@),
    {
        let mut s = String::new();
        push_str(&mut s, "plugin:");
        push_str(&mut s, self.namespace.as_str());
        push_str(&mut s, ":");
        push_str(&mut s, key);
        s
    }
}

} // verus!
