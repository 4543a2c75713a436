//! Association lists (vectors of `(key, value)` pairs with pairwise
//! distinct string keys) and sequences of values with distinct ids, used
//! where a map keyed by ids is needed.
use vstd::prelude::*;
use crate::text::str_equal;

verus! {

/// The concurrent map `dashmap::DashMap`.
#[verifier::external_type_specification]
#[verifier::external_body]
#[verifier::reject_recursive_types(K)]
#[verifier::reject_recursive_types(V)]
#[verifier::reject_recursive_types(S)]
pub struct ExDashMap<K, V, S>(dashmap::DashMap<K, V, S>);


/// Position of the first pair with key `key`, if any.
pub fn find_key<T>(v: &Vec<(String, T)>, key: &str) -> (r: Option<usize>)
    ensures
        r is None ==> forall|k: int| 0 <= k < v@.len() ==> (#[trigger] v@[k]).0@ != key@,
        r matches Some(i) ==> i < v@.len() && v@[i as int].0@ == key@ && forall|k: int| 0 <= k < i ==> (#[trigger] v@[k]).0@ != key@,
{
    let mut i: usize = 0;
    while i < v.len()
        invariant
            i <= v@.len(),
            forall|k: int| 0 <= k < i ==> (#[trigger] v@[k]).0@ != key@,
        decreases v.len() - i,
    {
        if str_equal(v[i].0.as_str(), key) {
            return Some(i);
        }
        i = i + 1;
    }
    None
}

/// The entry kept for `key`: the first one with that key.
pub open spec fn entry_for<T>(v: Seq<(String, T)>, key: Seq<char>) -> Option<T> {
    if exists|k: int| 0 <= k < v.len() && (#[trigger] v[k]).0@ == key {
        Some(v[choose|k: int| 0 <= k < v.len() && (#[trigger] v[k]).0@ == key && forall|m: int| 0 <= m < k ==> (#[trigger] v[m]).0@ != key].1)
    } else {
        None
    }
}

pub proof fn lemma_entry_at<T>(v: Seq<(String, T)>, key: Seq<char>, i: int)
    requires
        0 <= i < v.len(),
        v[i].0@ == key,
        forall|k: int| 0 <= k < i ==> (#[trigger] v[k]).0@ != key,
    ensures
        entry_for(v, key) == Some(v[i].1),
{
    let j = choose|k: int| 0 <= k < v.len() && (#[trigger] v[k]).0@ == key && forall|m: int| 0 <= m < k ==> (#[trigger] v[m]).0@ != key;
    if j < i {
        assert(v[j].0@ != key);
    } else if j > i {
        assert(v[i].0@ != key);
    }
}

/// No key occurs twice.
pub open spec fn unique_keys<T>(v: Seq<(String, T)>) -> bool {
    forall|i: int, j: int| 0 <= i < v.len() && 0 <= j < v.len() && i != j ==> (#[trigger] v[i]).0@ != (#[trigger] v[j]).0@
}

pub proof fn lemma_entry_none<T>(v: Seq<(String, T)>, key: Seq<char>)
    requires
        forall|k: int| 0 <= k < v.len() ==> (#[trigger] v[k]).0@ != key,
    ensures
        entry_for(v, key) is None,
{
}

pub proof fn lemma_entry_unique<T>(v: Seq<(String, T)>, i: int)
    requires
        unique_keys(v),
        0 <= i < v.len(),
    ensures
        entry_for(v, v[i].0@) == Some(v[i].1),
{
    assert forall|k: int| 0 <= k < i implies (#[trigger] v[k]).0@ != v[i].0@ by {}
    lemma_entry_at(v, v[i].0@, i);
}

pub proof fn lemma_entry_set<T>(v: Seq<(String, T)>, i: int, val: T)
    requires
        unique_keys(v),
        0 <= i < v.len(),
    ensures
        unique_keys(v.update(i, (v[i].0, val))),
        entry_for(v.update(i, (v[i].0, val)), v[i].0@) == Some(val),
        forall|u: Seq<char>| u != v[i].0@ ==> entry_for(v.update(i, (v[i].0, val)), u) == entry_for(v, u),
{
    let w = v.update(i, (v[i].0, val));
    assert forall|a: int, b: int| 0 <= a < w.len() && 0 <= b < w.len() && a != b implies (#[trigger] w[a]).0@ != (#[trigger] w[b]).0@ by {
        assert(w[a].0 == v[a].0 && w[b].0 == v[b].0);
    }
    lemma_entry_unique(w, i);
    assert forall|u: Seq<char>| u != v[i].0@ implies entry_for(w, u) == entry_for(v, u) by {
        if exists|k: int| 0 <= k < v.len() && (#[trigger] v[k]).0@ == u {
            let k = choose|k: int| 0 <= k < v.len() && (#[trigger] v[k]).0@ == u;
            lemma_entry_unique(v, k);
            assert(w[k] == v[k]);
            lemma_entry_unique(w, k);
        } else {
            assert forall|k: int| 0 <= k < w.len() implies (#[trigger] w[k]).0@ != u by {
                assert(w[k].0 == v[k].0);
            }
        }
    }
}

pub proof fn lemma_entry_push<T>(v: Seq<(String, T)>, key: String, val: T)
    requires
        unique_keys(v),
        forall|k: int| 0 <= k < v.len() ==> (#[trigger] v[k]).0@ != key@,
    ensures
        unique_keys(v.push((key, val))),
        entry_for(v.push((key, val)), key@) == Some(val),
        forall|u: Seq<char>| u != key@ ==> entry_for(v.push((key, val)), u) == entry_for(v, u),
{
    let w = v.push((key, val));
    let n = v.len() as int;
    assert forall|a: int, b: int| 0 <= a < w.len() && 0 <= b < w.len() && a != b implies (#[trigger] w[a]).0@ != (#[trigger] w[b]).0@ by {
        if a < n {
            assert(w[a] == v[a]);
        }
        if b < n {
            assert(w[b] == v[b]);
        }
    }
    lemma_entry_unique(w, n);
    assert forall|u: Seq<char>| u != key@ implies entry_for(w, u) == entry_for(v, u) by {
        if exists|k: int| 0 <= k < v.len() && (#[trigger] v[k]).0@ == u {
            let k = choose|k: int| 0 <= k < v.len() && (#[trigger] v[k]).0@ == u;
            lemma_entry_unique(v, k);
            assert(w[k] == v[k]);
            lemma_entry_unique(w, k);
        } else {
            assert forall|k: int| 0 <= k < w.len() implies (#[trigger] w[k]).0@ != u by {
                if k < n {
                    assert(w[k] == v[k]);
                }
            }
        }
    }
}

pub proof fn lemma_entry_remove<T>(v: Seq<(String, T)>, i: int)
    requires
        unique_keys(v),
        0 <= i < v.len(),
    ensures
        unique_keys(v.remove(i)),
        entry_for(v.remove(i), v[i].0@) is None,
        forall|u: Seq<char>| u != v[i].0@ ==> entry_for(v.remove(i), u) == entry_for(v, u),
{
    let w = v.remove(i);
    assert forall|a: int, b: int| 0 <= a < w.len() && 0 <= b < w.len() && a != b implies (#[trigger] w[a]).0@ != (#[trigger] w[b]).0@ by {
        let fa = if a < i { a } else { a + 1 };
        let fb = if b < i { b } else { b + 1 };
        assert(w[a] == v[fa] && w[b] == v[fb]);
    }
    assert forall|k: int| 0 <= k < w.len() implies (#[trigger] w[k]).0@ != v[i].0@ by {
        let fk = if k < i { k } else { k + 1 };
        assert(w[k] == v[fk]);
    }
    assert forall|u: Seq<char>| u != v[i].0@ implies entry_for(w, u) == entry_for(v, u) by {
        if exists|k: int| 0 <= k < v.len() && (#[trigger] v[k]).0@ == u {
            let k = choose|k: int| 0 <= k < v.len() && (#[trigger] v[k]).0@ == u;
            lemma_entry_unique(v, k);
            assert(k != i);
            let wk = if k < i { k } else { k - 1 };
            assert(w[wk] == v[k]);
            lemma_entry_unique(w, wk);
        } else {
            assert forall|k: int| 0 <= k < w.len() implies (#[trigger] w[k]).0@ != u by {
                let fk = if k < i { k } else { k + 1 };
                assert(w[k] == v[fk]);
            }
        }
    }
}

/// Values that carry an id.
pub trait Identified {
    spec fn ident(&self) -> Seq<char>;
}

/// No id occurs twice in `s`.
pub open spec fn distinct_idents<T: Identified>(s: Seq<T>) -> bool {
    forall|i: int, j: int| 0 <= i < s.len() && 0 <= j < s.len() && i != j ==> (#[trigger] s[i]).ident() != (#[trigger] s[j]).ident()
}

/// Position of the value with id `id` in `s`, if any.
pub open spec fn position_in<T: Identified>(s: Seq<T>, id: Seq<char>) -> Option<int> {
    if exists|k: int| 0 <= k < s.len() && (#[trigger] s[k]).ident() == id {
        Some(choose|k: int| 0 <= k < s.len() && (#[trigger] s[k]).ident() == id)
    } else {
        None
    }
}

/// The value with id `id` in `s`, if any.
pub open spec fn find_in<T: Identified>(s: Seq<T>, id: Seq<char>) -> Option<T> {
    match position_in(s, id) {
        Some(k) => Some(s[k]),
        None => None,
    }
}

pub proof fn lemma_position_at<T: Identified>(s: Seq<T>, i: int)
    requires
        distinct_idents(s),
        0 <= i < s.len(),
    ensures
        position_in(s, s[i].ident()) == Some(i),
        find_in(s, s[i].ident()) == Some(s[i]),
{
    let k = choose|k: int| 0 <= k < s.len() && (#[trigger] s[k]).ident() == s[i].ident();
    if k != i {
        assert(s[k].ident() != s[i].ident());
    }
}

pub proof fn lemma_update_same_ident<T: Identified>(s: Seq<T>, i: int, x: T)
    requires
        distinct_idents(s),
        0 <= i < s.len(),
        x.ident() == s[i].ident(),
    ensures
        distinct_idents(s.update(i, x)),
        forall|u: Seq<char>| #[trigger] position_in(s.update(i, x), u) == position_in(s, u),
        find_in(s.update(i, x), x.ident()) == Some(x),
        forall|u: Seq<char>| u != x.ident() ==> #[trigger] find_in(s.update(i, x), u) == find_in(s, u),
{
    let w = s.update(i, x);
    assert forall|a: int, b: int| 0 <= a < w.len() && 0 <= b < w.len() && a != b implies (#[trigger] w[a]).ident() != (#[trigger] w[b]).ident() by {
        assert(w[a].ident() == s[a].ident() && w[b].ident() == s[b].ident());
    }
    assert forall|u: Seq<char>| #[trigger] position_in(w, u) == position_in(s, u) by {
        if exists|k: int| 0 <= k < s.len() && (#[trigger] s[k]).ident() == u {
            let k = choose|k: int| 0 <= k < s.len() && (#[trigger] s[k]).ident() == u;
            lemma_position_at(s, k);
            assert(w[k].ident() == s[k].ident());
            lemma_position_at(w, k);
        } else {
            assert forall|k: int| 0 <= k < w.len() implies (#[trigger] w[k]).ident() != u by {
                assert(w[k].ident() == s[k].ident());
            }
        }
    }
    lemma_position_at(w, i);
}

pub proof fn lemma_push_new<T: Identified>(s: Seq<T>, x: T)
    requires
        distinct_idents(s),
        position_in(s, x.ident()) is None,
    ensures
        distinct_idents(s.push(x)),
        position_in(s.push(x), x.ident()) == Some(s.len() as int),
        find_in(s.push(x), x.ident()) == Some(x),
        forall|u: Seq<char>| u != x.ident() ==> #[trigger] position_in(s.push(x), u) == position_in(s, u),
        forall|u: Seq<char>| u != x.ident() ==> #[trigger] find_in(s.push(x), u) == find_in(s, u),
{
    let w = s.push(x);
    let n = s.len() as int;
    assert forall|k: int| 0 <= k < n implies (#[trigger] s[k]).ident() != x.ident() by {}
    assert forall|a: int, b: int| 0 <= a < w.len() && 0 <= b < w.len() && a != b implies (#[trigger] w[a]).ident() != (#[trigger] w[b]).ident() by {
        if a < n {
            assert(w[a] == s[a]);
        }
        if b < n {
            assert(w[b] == s[b]);
        }
    }
    assert(w[n] == x);
    lemma_position_at(w, n);
    assert forall|u: Seq<char>| u != x.ident() implies #[trigger] position_in(w, u) == position_in(s, u) by {
        if exists|k: int| 0 <= k < s.len() && (#[trigger] s[k]).ident() == u {
            let k = choose|k: int| 0 <= k < s.len() && (#[trigger] s[k]).ident() == u;
            lemma_position_at(s, k);
            assert(w[k] == s[k]);
            lemma_position_at(w, k);
        } else {
            assert forall|k: int| 0 <= k < w.len() implies (#[trigger] w[k]).ident() != u by {
                if k < n {
                    assert(w[k] == s[k]);
                }
            }
        }
    }
    assert forall|u: Seq<char>| u != x.ident() implies #[trigger] find_in(w, u) == find_in(s, u) by {
        assert(position_in(w, u) == position_in(s, u));
        if let Some(k) = position_in(s, u) {
            assert(w[k] == s[k]);
        }
    }
}

pub proof fn lemma_remove_at<T: Identified>(s: Seq<T>, i: int)
    requires
        distinct_idents(s),
        0 <= i < s.len(),
    ensures
        distinct_idents(s.remove(i)),
        find_in(s.remove(i), s[i].ident()) is None,
        forall|u: Seq<char>| u != s[i].ident() ==> #[trigger] find_in(s.remove(i), u) == find_in(s, u),
{
    let w = s.remove(i);
    assert forall|a: int, b: int| 0 <= a < w.len() && 0 <= b < w.len() && a != b implies (#[trigger] w[a]).ident() != (#[trigger] w[b]).ident() by {
        let fa = if a < i { a } else { a + 1 };
        let fb = if b < i { b } else { b + 1 };
        assert(w[a] == s[fa] && w[b] == s[fb]);
    }
    assert forall|k: int| 0 <= k < w.len() implies (#[trigger] w[k]).ident() != s[i].ident() by {
        let fk = if k < i { k } else { k + 1 };
        assert(w[k] == s[fk]);
    }
    assert forall|u: Seq<char>| u != s[i].ident() implies #[trigger] find_in(w, u) == find_in(s, u) by {
        if exists|k: int| 0 <= k < s.len() && (#[trigger] s[k]).ident() == u {
            let k = choose|k: int| 0 <= k < s.len() && (#[trigger] s[k]).ident() == u;
            lemma_position_at(s, k);
            assert(k != i);
            let wk = if k < i { k } else { k - 1 };
            assert(w[wk] == s[k]);
            lemma_position_at(w, wk);
        } else {
            assert forall|k: int| 0 <= k < w.len() implies (#[trigger] w[k]).ident() != u by {
                let fk = if k < i { k } else { k + 1 };
                assert(w[k] == s[fk]);
            }
        }
    }
}

/// `s` with `x` in place of the value with the same id, or with `x`
/// appended when there is none.
pub open spec fn upsert<T: Identified>(s: Seq<T>, x: T) -> Seq<T> {
    match position_in(s, x.ident()) {
        Some(k) => s.update(k, x),
        None => s.push(x),
    }
}

/// The values listed under an entry (none when there is no entry).
pub open spec fn list_of<T>(e: Option<Vec<T>>) -> Seq<T> {
    match e {
        Some(v) => v@,
        None => Seq::empty(),
    }
}

/// Appends `x` to the list of `key`, creating the entry when missing.
pub fn push_to_entry<T>(index: &mut Vec<(String, Vec<T>)>, key: &str, x: T)
    requires
        unique_keys(old(index)@),
    ensures
        unique_keys(final(index)@),
        list_of(entry_for(final(index)@, key@)) == list_of(entry_for(old(index)@, key@)).push(x),
        forall|u: Seq<char>| u != key@ ==> #[trigger] entry_for(final(index)@, u) == entry_for(old(index)@, u),
{
    let ghost before = index@;
    let ghost gx = x;
    match find_key(index, key) {
        Some(i) => {
            proof {
                lemma_entry_at(before, key@, i as int);
            }
            let (k, mut items) = index.remove(i);
            items.push(x);
            let ghost g = items;
            index.insert(i, (k, items));
            proof {
                assert(index@ =~= before.update(i as int, (before[i as int].0, g)));
                lemma_entry_set(before, i as int, g);
            }
        },
        None => {
            proof {
                lemma_entry_none(before, key@);
            }
            let mut items: Vec<T> = Vec::new();
            items.push(x);
            let ghost g = items;
            let name = key.to_string();
            let ghost k = name;
            index.push((name, items));
            proof {
                lemma_entry_push(before, k, g);
                assert(g@ =~= Seq::<T>::empty().push(gx));
            }
        },
    }
}

/// Removes the entry of `key`, if any.
pub fn remove_entry<T>(index: &mut Vec<(String, T)>, key: &str)
    requires
        unique_keys(old(index)@),
    ensures
        unique_keys(final(index)@),
        entry_for(final(index)@, key@) is None,
        forall|u: Seq<char>| u != key@ ==> #[trigger] entry_for(final(index)@, u) == entry_for(old(index)@, u),
{
    let ghost before = index@;
    match find_key(index, key) {
        Some(i) => {
            proof {
                lemma_entry_at(before, key@, i as int);
            }
            index.remove(i);
            proof {
                lemma_entry_remove(before, i as int);
            }
        },
        None => {
            proof {
                lemma_entry_none(before, key@);
            }
        },
    }
}


/// Stores `x` under `key`, replacing an entry with that key or appending.
pub fn set_entry<T>(index: &mut Vec<(String, T)>, key: String, x: T)
    requires
        unique_keys(old(index)@),
    ensures
        unique_keys(final(index)@),
        entry_for(final(index)@, key@) == Some(x),
        forall|u: Seq<char>| u != key@ ==> #[trigger] entry_for(final(index)@, u) == entry_for(old(index)@, u),
{
    let ghost before = index@;
    let ghost g = x;
    match find_key(index, key.as_str()) {
        Some(i) => {
            proof {
                lemma_entry_at(before, key@, i as int);
            }
            let (k, _) = index.remove(i);
            index.insert(i, (k, x));
            proof {
                assert(index@ =~= before.update(i as int, (before[i as int].0, g)));
                lemma_entry_set(before, i as int, g);
            }
        },
        None => {
            proof {
                lemma_entry_none(before, key@);
            }
            let ghost gk = key;
            index.push((key, x));
            proof {
                lemma_entry_push(before, gk, g);
            }
        },
    }
}

/// Puts `x` in place of the value at `pos`, or appends it when `pos` is
/// `None`; `pos` is where the value with `x`'s id sits.
pub fn upsert_at<T: Identified>(v: &mut Vec<T>, pos: Option<usize>, x: T)
    requires
        distinct_idents(old(v)@),
        match pos {
            Some(i) => i < old(v)@.len() && position_in(old(v)@, x.ident()) == Some(i as int),
            None => position_in(old(v)@, x.ident()) is None,
        },
    ensures
        distinct_idents(final(v)@),
        final(v)@ == upsert(old(v)@, x),
        find_in(final(v)@, x.ident()) == Some(x),
        forall|u: Seq<char>| u != x.ident() ==> #[trigger] find_in(final(v)@, u) == find_in(old(v)@, u),
{
    let ghost before = v@;
    let ghost g = x;
    match pos {
        Some(i) => {
            proof {
                assert(before[i as int].ident() == g.ident()) by {
                    let k = choose|k: int| 0 <= k < before.len() && (#[trigger] before[k]).ident() == g.ident();
                    assert(k == i);
                }
                lemma_update_same_ident(before, i as int, g);
            }
            v.set(i, x);
        },
        None => {
            proof {
                lemma_push_new(before, g);
            }
            v.push(x);
        },
    }
}

} // verus!
