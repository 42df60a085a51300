//! Configurations: a selection of features with bindings for their parameters.

use crate::types::entry::Entry;
use crate::text::text_list;
use crate::types::json::{list_tag, tag_text, tag_texts, text_tag, JsonValue};
use vstd::prelude::*;

verus! {

/// A configuration of the model.
#[derive(Debug, Clone)]
pub struct ConfigElement {
    pub id: String,
    pub title: String,
    pub tags: Vec<Entry<JsonValue>>,
    pub root_feature_id: String,
    /// The selected features; an identifier that stands twice counts once.
    pub selected: Vec<String>,
    /// For a feature, the values bound to its parameters.
    pub bindings: Option<Vec<Entry<Vec<Entry<JsonValue>>>>>,
}

/// The list of identifiers holds `id`.
pub open spec fn names(ids: Seq<String>, id: Seq<char>) -> bool {
    exists|i: int| 0 <= i < ids.len() && (#[trigger] ids[i])@ == id
}

/// Whether the list of identifiers holds `id`.
pub fn contains_name(ids: &Vec<String>, id: &String) -> (r: bool)
    ensures
        r == names(ids@, id@),
{
    let mut i: usize = 0;
    while i < ids.len()
        invariant
            i <= ids.len(),
            forall|j: int| 0 <= j < i ==> (#[trigger] ids@[j])@ != id@,
        decreases ids.len() - i,
    {
        if ids[i] == *id {
            return true;
        }
        i = i + 1;
    }
    false
}

/// The identifier at `i` stands at no earlier place of the list.
pub open spec fn first_time(ids: Seq<String>, i: int) -> bool {
    forall|j: int| 0 <= j < i ==> (#[trigger] ids[j])@ != ids[i]@
}

/// The identifiers among the first `upto` of the list, each at its first place only.
pub open spec fn distinct_names(ids: Seq<String>, upto: int) -> Seq<Seq<char>>
    decreases upto,
{
    if upto <= 0 {
        Seq::empty()
    } else if first_time(ids, upto - 1) {
        distinct_names(ids, upto - 1).push(ids[upto - 1]@)
    } else {
        distinct_names(ids, upto - 1)
    }
}

/// The identifiers at their first places are those of the list, each once,
/// and they grow at the end as more of the list is taken.
pub proof fn lemma_distinct_names(ids: Seq<String>, upto: int)
    requires
        0 <= upto <= ids.len(),
    ensures
        distinct_names(ids, upto).no_duplicates(),
        forall|i: int| 0 <= i < upto ==> distinct_names(ids, upto).contains((#[trigger] ids[i])@),
        forall|k: int|
            0 <= k < distinct_names(ids, upto).len() ==> exists|i: int|
                0 <= i < upto && (#[trigger] ids[i])@ == #[trigger] distinct_names(ids, upto)[k],
    decreases upto,
{
    let d = distinct_names(ids, upto);
    if upto > 0 {
        lemma_distinct_names(ids, upto - 1);
        let p = upto - 1;
        let e = distinct_names(ids, p);
        assert forall|i: int| 0 <= i < upto implies d.contains((#[trigger] ids[i])@) by {
            if i < p {
                assert(e.contains(ids[i]@));
                let k = choose|k: int| 0 <= k < e.len() && e[k] == ids[i]@;
                assert(d[k] == ids[i]@);
            } else if first_time(ids, p) {
                assert(d[e.len() as int] == ids[p]@);
            } else {
                let j = choose|j: int| 0 <= j < p && (#[trigger] ids[j])@ == ids[p]@;
                assert(e.contains(ids[j]@));
                let k = choose|k: int| 0 <= k < e.len() && e[k] == ids[j]@;
                assert(d[k] == ids[p]@);
            }
        }
        assert forall|k: int| 0 <= k < d.len() implies exists|i: int|
            0 <= i < upto && (#[trigger] ids[i])@ == #[trigger] d[k] by {
            if k < e.len() {
                assert(d[k] == e[k]);
                let i = choose|i: int| 0 <= i < p && (#[trigger] ids[i])@ == e[k];
                assert(ids[i]@ == d[k]);
            } else {
                assert(ids[p]@ == d[k]);
            }
        }
        assert(d.no_duplicates()) by {
            assert forall|a: int, b: int| 0 <= a < d.len() && 0 <= b < d.len() && a != b implies d[a]
                != d[b] by {
                if a < e.len() && b < e.len() {
                    assert(e[a] != e[b]);
                } else {
                    let old_one = if a < e.len() {
                        a
                    } else {
                        b
                    };
                    let i = choose|i: int| 0 <= i < p && (#[trigger] ids[i])@ == e[old_one];
                    assert(ids[i]@ != ids[p]@);
                }
            }
        }
    }
}

/// The identifiers at their first places within a shorter part of the list
/// open those within a longer part.
pub proof fn lemma_distinct_names_grow(ids: Seq<String>, less: int, upto: int)
    requires
        0 <= less <= upto <= ids.len(),
    ensures
        distinct_names(ids, less).len() <= distinct_names(ids, upto).len(),
        distinct_names(ids, less) == distinct_names(ids, upto).subrange(
            0,
            distinct_names(ids, less).len() as int,
        ),
    decreases upto - less,
{
    if less < upto {
        lemma_distinct_names_grow(ids, less, upto - 1);
    }
    assert(distinct_names(ids, less) =~= distinct_names(ids, upto).subrange(
        0,
        distinct_names(ids, less).len() as int,
    ));
}

/// Whether the identifier at `i` stands at no earlier place of the list.
pub fn is_first_time(ids: &[String], i: usize) -> (r: bool)
    requires
        i < ids@.len(),
    ensures
        r == first_time(ids@, i as int),
{
    let mut j: usize = 0;
    while j < i
        invariant
            j <= i,
            i < ids@.len(),
            forall|k: int| 0 <= k < j ==> (#[trigger] ids@[k])@ != ids@[i as int]@,
        decreases i - j,
    {
        if ids[j] == ids[i] {
            return false;
        }
        j = j + 1;
    }
    true
}

/// The identifiers of the list, each at its first place only.
pub fn distinct(ids: &[String]) -> (r: Vec<String>)
    ensures
        text_list(r@) == distinct_names(ids@, ids@.len() as int),
{
    let mut out: Vec<String> = Vec::new();
    let mut i: usize = 0;
    assert(text_list(out@) =~= distinct_names(ids@, 0));
    while i < ids.len()
        invariant
            i <= ids.len(),
            text_list(out@) == distinct_names(ids@, i as int),
        decreases ids.len() - i,
    {
        if is_first_time(ids, i) {
            let ghost before = text_list(out@);
            out.push(ids[i].clone());
            assert(text_list(out@) =~= before.push(ids@[i as int]@));
        }
        i = i + 1;
    }
    out
}

impl ConfigElement {
    /// The market that the configuration is made for: the tag `market`.
    pub fn market(&self) -> (r: Option<String>)
        ensures
            match r {
                Some(s) => text_tag(self.tags@, "market"@) == Some(s@),
                None => text_tag(self.tags@, "market"@) is None,
            },
    {
        tag_text(&self.tags, "market")
    }

    /// The regulations that the configuration answers to: the tag `regulations`.
    pub fn regulations(&self) -> (r: Option<Vec<String>>)
        ensures
            match r {
                Some(v) => list_tag(self.tags@, "regulations"@) == Some(text_list(v@)),
                None => list_tag(self.tags@, "regulations"@) is None,
            },
    {
        tag_texts(&self.tags, "regulations")
    }

    /// Whether the configuration selects the feature.
    pub fn is_feature_selected(&self, feature_id: &str) -> (r: bool)
        ensures
            r == names(self.selected@, feature_id@),
    {
        let id = feature_id.to_owned();
        contains_name(&self.selected, &id)
    }
}

} // verus!
