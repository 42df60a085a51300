//! The primitive values that tags, parameter defaults and bindings carry.

use crate::text::text_list;
use crate::types::entry::{get, has_key, value_at, Entry};
use vstd::prelude::*;

verus! {

/// A value as the host document states it. Of a list it keeps the items that
/// are strings, and `None` in the place of any other item. Numbers that are not
/// whole, or do not fit 64 signed bits, and objects, are `Other`.
#[derive(Debug, Clone)]
pub enum JsonValue {
    Null,
    Bool(bool),
    Int(i64),
    Text(String),
    List(Vec<Option<String>>),
    Other,
}

impl JsonValue {
    /// The integer that the value holds, if it is one.
    pub open spec fn int_value(&self) -> Option<i64> {
        match self {
            JsonValue::Int(n) => Some(*n),
            _ => None,
        }
    }

    /// The boolean that the value holds, if it is one.
    pub open spec fn bool_value(&self) -> Option<bool> {
        match self {
            JsonValue::Bool(b) => Some(*b),
            _ => None,
        }
    }

    /// The text that the value holds, if it is a string.
    pub open spec fn text_value(&self) -> Option<Seq<char>> {
        match self {
            JsonValue::Text(s) => Some(s@),
            _ => None,
        }
    }

    /// The integer, where the value is one.
    pub fn as_i64(&self) -> (r: Option<i64>)
        ensures
            r == self.int_value(),
    {
        match self {
            JsonValue::Int(n) => Some(*n),
            _ => None,
        }
    }

    /// The boolean, where the value is one.
    pub fn as_bool(&self) -> (r: Option<bool>)
        ensures
            r == self.bool_value(),
    {
        match self {
            JsonValue::Bool(b) => Some(*b),
            _ => None,
        }
    }

    /// The string, where the value is one.
    pub fn as_str(&self) -> (r: Option<&String>)
        ensures
            match r {
                Some(s) => self.text_value() == Some(s@),
                None => self.text_value() is None,
            },
    {
        match self {
            JsonValue::Text(s) => Some(s),
            _ => None,
        }
    }

    /// Whether the value is null.
    pub fn is_null(&self) -> (r: bool)
        ensures
            r == (self is Null),
    {
        match self {
            JsonValue::Null => true,
            _ => false,
        }
    }

    /// Whether the value is a boolean.
    pub fn is_boolean(&self) -> (r: bool)
        ensures
            r == (self is Bool),
    {
        match self {
            JsonValue::Bool(_) => true,
            _ => false,
        }
    }
}

/// The strings among the items of a list, in their order, up to position `upto`.
pub open spec fn texts_upto(items: Seq<Option<String>>, upto: int) -> Seq<Seq<char>>
    decreases upto,
{
    if upto <= 0 {
        Seq::empty()
    } else {
        let rest = texts_upto(items, upto - 1);
        match items[upto - 1] {
            Some(s) => rest.push(s@),
            None => rest,
        }
    }
}

/// The identifiers that a tag value names: the string itself, or the strings
/// of a list; any other value names none.
pub open spec fn names_in(value: JsonValue) -> Seq<Seq<char>> {
    match value {
        JsonValue::Text(s) => seq![s@],
        JsonValue::List(items) => texts_upto(items@, items@.len() as int),
        _ => Seq::empty(),
    }
}

/// The identifiers that a tag value names, as owned strings.
pub fn parse_string_or_array(value: &JsonValue) -> (r: Vec<String>)
    ensures
        r@.len() == names_in(*value).len(),
        forall|i: int| 0 <= i < r@.len() ==> (#[trigger] r@[i])@ == names_in(*value)[i],
{
    let mut out: Vec<String> = Vec::new();
    match value {
        JsonValue::Text(s) => {
            out.push(s.clone());
        },
        JsonValue::List(items) => {
            let mut i: usize = 0;
            while i < items.len()
                invariant
                    i <= items.len(),
                    out@.len() == texts_upto(items@, i as int).len(),
                    forall|k: int|
                        0 <= k < out@.len() ==> (#[trigger] out@[k])@ == texts_upto(items@, i as int)[k],
                decreases items.len() - i,
            {
                if let Some(s) = &items[i] {
                    out.push(s.clone());
                }
                i = i + 1;
            }
        },
        _ => {},
    }
    out
}

/// The string under a tag, where the tag holds one.
pub open spec fn text_tag(tags: Seq<Entry<JsonValue>>, key: Seq<char>) -> Option<Seq<char>> {
    match value_at(tags, key) {
        Some(JsonValue::Text(s)) => Some(s@),
        _ => None,
    }
}

/// Every item of the list is a string.
pub open spec fn all_texts(items: Seq<Option<String>>) -> bool {
    forall|i: int| 0 <= i < items.len() ==> (#[trigger] items[i]) is Some
}

/// The strings under a tag, where the tag holds a list of strings and nothing else.
pub open spec fn list_tag(tags: Seq<Entry<JsonValue>>, key: Seq<char>) -> Option<Seq<Seq<char>>> {
    match value_at(tags, key) {
        Some(JsonValue::List(items)) => if all_texts(items@) {
            Some(texts_upto(items@, items@.len() as int))
        } else {
            None
        },
        _ => None,
    }
}

/// The strings under a tag; none where the tag holds no list of strings.
pub open spec fn list_tag_or_empty(tags: Seq<Entry<JsonValue>>, key: Seq<char>) -> Seq<Seq<char>> {
    match list_tag(tags, key) {
        Some(items) => items,
        None => Seq::empty(),
    }
}

/// Whether a tag of the name exists.
pub fn has_tag(tags: &Vec<Entry<JsonValue>>, key: &str) -> (r: bool)
    ensures
        r == has_key(tags@, key@),
{
    let k = key.to_owned();
    get(tags, &k).is_some()
}

/// The string under a tag, where the tag holds one.
pub fn tag_text(tags: &Vec<Entry<JsonValue>>, key: &str) -> (r: Option<String>)
    ensures
        match r {
            Some(s) => text_tag(tags@, key@) == Some(s@),
            None => text_tag(tags@, key@) is None,
        },
{
    let k = key.to_owned();
    match get(tags, &k) {
        Some(JsonValue::Text(s)) => Some(s.clone()),
        _ => None,
    }
}

/// The strings under a tag, where the tag holds a list of strings and nothing else.
pub fn tag_texts(tags: &Vec<Entry<JsonValue>>, key: &str) -> (r: Option<Vec<String>>)
    ensures
        match r {
            Some(v) => list_tag(tags@, key@) == Some(text_list(v@)),
            None => list_tag(tags@, key@) is None,
        },
{
    let k = key.to_owned();
    match get(tags, &k) {
        Some(JsonValue::List(items)) => {
            let mut out: Vec<String> = Vec::new();
            let mut i: usize = 0;
            while i < items.len()
                invariant
                    i <= items.len(),
                    value_at(tags@, key@) matches Some(JsonValue::List(l)) && l@ == items@,
                    forall|j: int| 0 <= j < i ==> (#[trigger] items@[j]) is Some,
                    out@.len() == texts_upto(items@, i as int).len(),
                    forall|j: int|
                        0 <= j < out@.len() ==> (#[trigger] out@[j])@ == texts_upto(items@, i as int)[j],
                decreases items.len() - i,
            {
                match &items[i] {
                    Some(s) => {
                        out.push(s.clone());
                    },
                    None => {
                        assert(items@[i as int] is None);
                        assert(!all_texts(items@));
                        return None;
                    },
                }
                i = i + 1;
            }
            assert(all_texts(items@));
            assert(text_list(out@) =~= texts_upto(items@, items@.len() as int));
            Some(out)
        },
        _ => None,
    }
}

/// The strings under a tag; none where the tag holds no list of strings.
pub fn tag_texts_or_empty(tags: &Vec<Entry<JsonValue>>, key: &str) -> (r: Vec<String>)
    ensures
        text_list(r@) == list_tag_or_empty(tags@, key@),
{
    match tag_texts(tags, key) {
        Some(v) => v,
        None => {
            let v: Vec<String> = Vec::new();
            assert(text_list(v@) =~= Seq::<Seq<char>>::empty());
            v
        },
    }
}

} // verus!
