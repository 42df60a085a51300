//! The registry: the elements under their keys.

use crate::types::element::Element;
use crate::types::entry::{
    has_key, is_key_index, key_index, lemma_key_index_none, lemma_key_index_unique, value_at, Entry,
};
use vstd::hash_map::StringHashMap;
use vstd::prelude::*;

verus! {

/// A map from key to element that keeps the order in which the keys came:
/// a key stands once, and a lookup by key takes one step.
pub struct Registry {
    entries: Vec<Entry<Element>>,
    index: StringHashMap<usize>,
}

impl View for Registry {
    type V = Seq<Entry<Element>>;

    closed spec fn view(&self) -> Seq<Entry<Element>> {
        self.entries@
    }
}

/// The entries with `e` put under its key: in the place of the entry that the
/// key held, or after all others where the key is new.
pub open spec fn put(es: Seq<Entry<Element>>, e: Entry<Element>) -> Seq<Entry<Element>> {
    match key_index(es, e.key@) {
        Some(i) => es.update(i, e),
        None => es.push(e),
    }
}

/// The registry that the first `upto` of the entries make, put one after the other.
pub open spec fn put_all(entries: Seq<Entry<Element>>, upto: int) -> Seq<Entry<Element>>
    decreases upto,
{
    if upto <= 0 {
        Seq::empty()
    } else {
        put(put_all(entries, upto - 1), entries[upto - 1])
    }
}

/// No key stands twice.
pub open spec fn distinct_keys(es: Seq<Entry<Element>>) -> bool {
    forall|i: int, j: int| 0 <= i < j < es.len() ==> (#[trigger] es[i]).key@ != (#[trigger] es[j]).key@
}

impl Registry {
    /// No key stands twice, and the index holds for each key its place.
    #[verifier::type_invariant]
    spec fn inv(self) -> bool {
        &&& distinct_keys(self.entries@)
        &&& forall|k: Seq<char>| #[trigger]
            self.index@.contains_key(k) ==> self.index@[k] < self.entries@.len()
                && self.entries@[self.index@[k] as int].key@ == k
        &&& forall|i: int|
            0 <= i < self.entries@.len() ==> self.index@.contains_key((#[trigger] self.entries@[i]).key@)
    }

    /// A registry without elements.
    pub fn new() -> (r: Self)
        ensures
            r@ == Seq::<Entry<Element>>::empty(),
    {
        Registry { entries: Vec::new(), index: StringHashMap::new() }
    }

    /// The registry that the entries make, put one after the other: where a
    /// key comes again, its element takes the place of the earlier one.
    pub fn from_entries(entries: Vec<Entry<Element>>) -> (r: Self)
        ensures
            r@ == put_all(entries@, entries@.len() as int),
    {
        let ghost all = entries@;
        let n = entries.len();
        let mut stack = entries;
        let mut rev: Vec<Entry<Element>> = Vec::new();
        while stack.len() > 0
            invariant
                n == all.len(),
                stack@.len() + rev@.len() == n,
                stack@ == all.take(stack@.len() as int),
                forall|i: int| 0 <= i < rev@.len() ==> (#[trigger] rev@[i]) == all[n - 1 - i],
            decreases stack@.len(),
        {
            let e = stack.pop().unwrap();
            rev.push(e);
        }
        let mut registry = Registry::new();
        while rev.len() > 0
            invariant
                n == all.len(),
                rev@.len() <= n,
                forall|i: int| 0 <= i < rev@.len() ==> (#[trigger] rev@[i]) == all[n - 1 - i],
                registry@ == put_all(all, n - rev@.len()),
            decreases rev@.len(),
        {
            let e = rev.pop().unwrap();
            let Entry { key, value } = e;
            registry = registry.insert(key, value);
        }
        registry
    }

    /// The number of elements.
    pub fn len(&self) -> (n: usize)
        ensures
            n == self@.len(),
            distinct_keys(self@),
    {
        proof {
            use_type_invariant(self);
        }
        self.entries.len()
    }

    /// The entry at position `k`.
    pub fn entry(&self, k: usize) -> (e: &Entry<Element>)
        requires
            k < self@.len(),
        ensures
            *e == self@[k as int],
    {
        &self.entries[k]
    }

    /// The position of the key, if the registry holds it.
    pub fn find(&self, key: &String) -> (r: Option<usize>)
        ensures
            match r {
                Some(i) => key_index(self@, key@) == Some(i as int) && i < self@.len(),
                None => key_index(self@, key@) is None,
            },
    {
        proof {
            use_type_invariant(self);
        }
        match self.index.get(key.as_str()) {
            Some(i) => {
                proof {
                    let i = *i as int;
                    assert(is_key_index(self.entries@, key@, i)) by {
                        assert forall|j: int| 0 <= j < i implies (#[trigger] self.entries@[j]).key@
                            != key@ by {}
                    }
                    lemma_key_index_unique(self.entries@, key@, i);
                }
                Some(*i)
            },
            None => {
                proof {
                    lemma_key_index_none(self.entries@, key@);
                }
                None
            },
        }
    }

    /// The element under the key, if the registry holds it.
    pub fn get(&self, key: &String) -> (r: Option<&Element>)
        ensures
            match r {
                Some(v) => value_at(self@, key@) == Some(*v),
                None => value_at(self@, key@) is None,
            },
    {
        match self.find(key) {
            Some(i) => Some(&self.entries[i].value),
            None => None,
        }
    }

    /// The registry with the element under the key: in the place of the
    /// element that the key held, or after all others where the key is new.
    pub fn insert(self, key: String, element: Element) -> (r: Self)
        ensures
            r@ == put(self@, (Entry { key, value: element })),
    {
        proof {
            use_type_invariant(&self);
        }
        let found = self.find(&key);
        let ghost es = self.entries@;
        let ghost k = key@;
        let Registry { entries, index } = self;
        let mut entries = entries;
        let mut index = index;
        match found {
            Some(i) => {
                entries.set(i, Entry { key, value: element });
                proof {
                    crate::types::entry::lemma_key_index_some(es, k);
                    assert(distinct_keys(entries@)) by {
                        assert forall|a: int, b: int| 0 <= a < b < entries@.len() implies (
                        #[trigger] entries@[a]).key@ != (#[trigger] entries@[b]).key@ by {
                            assert(es[a].key@ != es[b].key@);
                        }
                    }
                    assert forall|j: int| 0 <= j < entries@.len() implies index@.contains_key(
                        (#[trigger] entries@[j]).key@,
                    ) by {
                        assert(index@.contains_key(es[j].key@));
                    }
                }
            },
            None => {
                let n = entries.len();
                index.insert(key.clone(), n);
                entries.push(Entry { key, value: element });
                proof {
                    assert(distinct_keys(entries@)) by {
                        assert forall|a: int, b: int| 0 <= a < b < entries@.len() implies (
                        #[trigger] entries@[a]).key@ != (#[trigger] entries@[b]).key@ by {
                            if b == n {
                                if es[a].key@ == k {
                                    assert(has_key(es, k)) by {
                                        lemma_has_key(es, k, a);
                                    }
                                }
                            } else {
                                assert(es[a].key@ != es[b].key@);
                            }
                        }
                    }
                    assert forall|j: int| 0 <= j < entries@.len() implies index@.contains_key(
                        (#[trigger] entries@[j]).key@,
                    ) by {
                        if j < n {
                            assert(es[j] == entries@[j]);
                        }
                    }
                }
            },
        }
        Registry { entries, index }
    }
}

/// A key that stands somewhere has a first place.
proof fn lemma_has_key(es: Seq<Entry<Element>>, key: Seq<char>, i: int)
    requires
        0 <= i < es.len(),
        es[i].key@ == key,
    ensures
        has_key(es, key),
    decreases i,
{
    if forall|j: int| 0 <= j < i ==> (#[trigger] es[j]).key@ != key {
        assert(is_key_index(es, key, i));
    } else {
        let j = choose|j: int| 0 <= j < i && (#[trigger] es[j]).key@ == key;
        lemma_has_key(es, key, j);
    }
}

} // verus!
