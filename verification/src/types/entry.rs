//! Keyed entries: the lists from which tag maps, parameter schemas and
//! bindings are built, and of which a registry is made. A list is read as a
//! map in which the first entry with a key is the one that counts.

use vstd::prelude::*;

verus! {

/// A value under a key.
#[derive(Debug, Clone)]
pub struct Entry<V> {
    pub key: String,
    pub value: V,
}

/// `i` is the first position of `entries` that holds `key`.
pub open spec fn is_key_index<V>(entries: Seq<Entry<V>>, key: Seq<char>, i: int) -> bool {
    &&& 0 <= i < entries.len()
    &&& entries[i].key@ == key
    &&& forall|j: int| 0 <= j < i ==> (#[trigger] entries[j]).key@ != key
}

/// Some entry holds `key`.
pub open spec fn has_key<V>(entries: Seq<Entry<V>>, key: Seq<char>) -> bool {
    exists|i: int| is_key_index(entries, key, i)
}

/// The first position that holds `key`, if any does.
pub open spec fn key_index<V>(entries: Seq<Entry<V>>, key: Seq<char>) -> Option<int> {
    if has_key(entries, key) {
        Some(choose|i: int| is_key_index(entries, key, i))
    } else {
        None
    }
}

/// The value under `key`, if any entry holds it.
pub open spec fn value_at<V>(entries: Seq<Entry<V>>, key: Seq<char>) -> Option<V> {
    match key_index(entries, key) {
        Some(i) => Some(entries[i].value),
        None => None,
    }
}

/// The first position with a key is the only one that `key_index` can name.
pub proof fn lemma_key_index_unique<V>(entries: Seq<Entry<V>>, key: Seq<char>, i: int)
    requires
        is_key_index(entries, key, i),
    ensures
        key_index(entries, key) == Some(i),
{
    let k = choose|k: int| is_key_index(entries, key, k);
    if k < i {
        assert(entries[k].key@ != key);
    }
    if i < k {
        assert(entries[i].key@ != key);
    }
}

/// Where no position holds the key, there is no index.
pub proof fn lemma_key_index_none<V>(entries: Seq<Entry<V>>, key: Seq<char>)
    requires
        forall|j: int| 0 <= j < entries.len() ==> (#[trigger] entries[j]).key@ != key,
    ensures
        key_index(entries, key) is None,
{
    if has_key(entries, key) {
        let k = choose|k: int| is_key_index(entries, key, k);
        assert(entries[k].key@ != key);
    }
}

/// A key that `key_index` finds is held at the position found.
pub proof fn lemma_key_index_some<V>(entries: Seq<Entry<V>>, key: Seq<char>)
    requires
        key_index(entries, key) is Some,
    ensures
        is_key_index(entries, key, key_index(entries, key)->0),
{
}

/// The first position of `entries` that holds `key`.
pub fn find<V>(entries: &Vec<Entry<V>>, key: &String) -> (r: Option<usize>)
    ensures
        match r {
            Some(i) => key_index(entries@, key@) == Some(i as int) && i < entries.len(),
            None => key_index(entries@, key@) is None,
        },
{
    let mut i: usize = 0;
    while i < entries.len()
        invariant
            i <= entries.len(),
            forall|j: int| 0 <= j < i ==> (#[trigger] entries@[j]).key@ != key@,
        decreases entries.len() - i,
    {
        if entries[i].key == *key {
            proof {
                lemma_key_index_unique(entries@, key@, i as int);
            }
            return Some(i);
        }
        i = i + 1;
    }
    proof {
        lemma_key_index_none(entries@, key@);
    }
    None
}

/// The value under `key`, by the first entry that holds it.
pub fn get<'a, V>(entries: &'a Vec<Entry<V>>, key: &String) -> (r: Option<&'a V>)
    ensures
        match r {
            Some(v) => value_at(entries@, key@) == Some(*v),
            None => value_at(entries@, key@) is None,
        },
{
    match find(entries, key) {
        Some(i) => Some(&entries[i].value),
        None => None,
    }
}

} // verus!
