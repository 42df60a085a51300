//! Features: the variability points of a product line.

use crate::types::entry::Entry;
use crate::types::json::JsonValue;
use vstd::prelude::*;

verus! {

/// The schema of one parameter of a feature.
#[derive(Debug, Clone)]
pub struct ParameterSchema {
    /// "Integer", "Boolean" or "Enum".
    pub param_type: String,
    /// For an integer, its least and greatest value.
    pub range: Option<(i64, i64)>,
    /// For an enumeration, its values.
    pub values: Option<Vec<String>>,
    pub unit: Option<String>,
    pub default: JsonValue,
    pub description: Option<String>,
}

/// A feature of the model.
#[derive(Debug, Clone)]
pub struct FeatureElement {
    pub id: String,
    pub title: String,
    pub tags: Vec<Entry<JsonValue>>,
    /// The feature above this one; a root has none.
    pub parent: Option<String>,
    /// Whether a configuration may select the feature; absent means yes.
    pub concrete: Option<bool>,
    /// "XOR" or "OR" where the feature's children form a group.
    pub group: Option<String>,
    pub parameters: Option<Vec<Entry<ParameterSchema>>>,
    /// The constraints on the parameters, each in the constraint language.
    pub constraints: Option<Vec<String>>,
    pub requires: Option<JsonValue>,
}

/// The kinds of variability group.
#[derive(Debug, Clone, Copy, PartialEq, Eq, Structural)]
pub enum VariabilityGroup {
    /// Exactly one child is selected with the parent.
    Xor,
    /// At least one child is selected with the parent.
    Or,
}

/// What `concrete` is where a feature does not state it.
pub fn default_concrete() -> (r: Option<bool>)
    ensures
        r == Some(true),
{
    Some(true)
}

/// The group that a group tag names, if it names one.
pub open spec fn group_of(group: Option<String>) -> Option<VariabilityGroup> {
    match group {
        Some(g) => if g@ == "XOR"@ {
            Some(VariabilityGroup::Xor)
        } else if g@ == "OR"@ {
            Some(VariabilityGroup::Or)
        } else {
            None
        },
        None => None,
    }
}

impl FeatureElement {
    /// An abstract feature cannot be selected.
    pub fn is_abstract(&self) -> (r: bool)
        ensures
            r == (self.concrete == Some(false)),
    {
        match self.concrete {
            Some(c) => !c,
            None => false,
        }
    }

    /// Whether the feature carries a group tag, whatever it names.
    pub fn is_variability_group(&self) -> (r: bool)
        ensures
            r == self.group is Some,
    {
        self.group.is_some()
    }

    /// The kind of group that the feature's children form.
    pub fn group_type(&self) -> (r: Option<VariabilityGroup>)
        ensures
            r == group_of(self.group),
    {
        match &self.group {
            Some(g) => {
                if *g == "XOR".to_owned() {
                    Some(VariabilityGroup::Xor)
                } else if *g == "OR".to_owned() {
                    Some(VariabilityGroup::Or)
                } else {
                    None
                }
            },
            None => None,
        }
    }
}

} // verus!
