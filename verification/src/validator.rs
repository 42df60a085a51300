//! The answers that the validator gives to its host: the verdicts on a
//! feature model and on a configuration, each with the details that go with it.

use crate::feature_model::{
    configuration_valid, count_features, encoding_mentions, model_consistent, MENTION_LIMIT,
};
use crate::feature_validation::{
    configuration_message, model_message, reported_clauses, validate_configuration,
    validate_feature_model,
};
use crate::text::{decimal, decimal_text, quoted_list, show_list, text_list};
use crate::types::config::{distinct, distinct_names};
use crate::types::registry::Registry;
use vstd::prelude::*;
use vstd::string::StringSliceAdditionalSpecFns;

verus! {

/// The verdict on a feature model or on a configuration, as the host receives it.
#[derive(Debug, Clone)]
pub struct FeatureModelValidationResult {
    pub is_consistent: bool,
    pub message: String,
    pub num_features: usize,
    pub num_clauses: usize,
    pub details: String,
}

/// The details that go with a verdict on a feature model.
pub open spec fn model_details(consistent: bool, features: nat, clauses: nat) -> Seq<char> {
    if consistent {
        "✓ Feature model is consistent - at least one valid configuration exists\nFeatures: "@
            + decimal_text(features) + "\nSAT variables: "@ + decimal_text(features)
            + "\nCNF clauses: "@ + decimal_text(clauses)
    } else {
        "✗ Feature model is INCONSISTENT - contradictory constraints detected\nNo valid configuration exists that satisfies all:\n- Hierarchy constraints (parent-child relationships)\n- Variability groups (XOR/OR groups)\n- Cross-tree constraints (requires/excludes)\n\nFeatures: "@
            + decimal_text(features) + "\nCNF clauses: "@ + decimal_text(clauses)
            + "\n\nRecommendation: Review feature constraints for conflicts"@
    }
}

/// The details that go with a verdict on a configuration that selects the
/// listed features.
pub open spec fn configuration_details(valid: bool, selected: Seq<Seq<char>>) -> Seq<char> {
    if valid {
        "✓ Configuration is valid\nSelected features: ["@ + quoted_list(
            selected,
            selected.len() as int,
        ) + "]"@
    } else {
        "✗ Configuration violates feature model constraints\nSelected features: ["@ + quoted_list(
            selected,
            selected.len() as int,
        )
            + "]\n\nPossible issues:\n- Missing required features\n- Conflicting features (excludes constraint)\n- Violates XOR/OR group rules\n- Selected feature without parent"@
    }
}

/// The root of a feature model where the host names none.
pub fn default_root() -> (r: String)
    ensures
        r@ == "ROOT"@,
{
    "ROOT".to_owned()
}

/// The greeting of the validator.
pub fn hello() -> (r: Vec<u8>)
    ensures
        r@ == "Hello from AssemblyLine WASM validator!".spec_bytes(),
{
    "Hello from AssemblyLine WASM validator!".as_bytes_vec()
}

/// The verdict on the consistency of the feature model under `root_feature_id`.
pub fn validate_feature_model_sat(registry: &Registry, root_feature_id: &str) -> (r:
    FeatureModelValidationResult)
    requires
        encoding_mentions(registry@, root_feature_id@).len() <= MENTION_LIMIT,
    ensures
        r.is_consistent == model_consistent(registry@, root_feature_id@),
        r.message@ == model_message(registry@, root_feature_id@),
        r.num_features == count_features(registry@, registry@.len() as int),
        r.num_clauses == reported_clauses(registry@, root_feature_id@),
        r.details@ == model_details(r.is_consistent, r.num_features as nat, r.num_clauses as nat),
{
    let validation = validate_feature_model(registry, root_feature_id);
    let details = if validation.is_consistent {
        let mut d =
            "✓ Feature model is consistent - at least one valid configuration exists\nFeatures: ".to_owned();
        d.append(decimal(validation.num_features as u64).as_str());
        d.append("\nSAT variables: ");
        d.append(decimal(validation.num_features as u64).as_str());
        d.append("\nCNF clauses: ");
        d.append(decimal(validation.num_clauses as u64).as_str());
        d
    } else {
        let mut d =
            "✗ Feature model is INCONSISTENT - contradictory constraints detected\nNo valid configuration exists that satisfies all:\n- Hierarchy constraints (parent-child relationships)\n- Variability groups (XOR/OR groups)\n- Cross-tree constraints (requires/excludes)\n\nFeatures: ".to_owned();
        d.append(decimal(validation.num_features as u64).as_str());
        d.append("\nCNF clauses: ");
        d.append(decimal(validation.num_clauses as u64).as_str());
        d.append("\n\nRecommendation: Review feature constraints for conflicts");
        d
    };
    FeatureModelValidationResult {
        is_consistent: validation.is_consistent,
        message: validation.message,
        num_features: validation.num_features,
        num_clauses: validation.num_clauses,
        details,
    }
}

/// The verdict on a configuration under the feature model.
pub fn validate_configuration_sat(
    registry: &Registry,
    root_feature_id: &str,
    selected_features: &[String],
) -> (r: FeatureModelValidationResult)
    requires
        encoding_mentions(registry@, root_feature_id@).len() + selected_features@.len()
            <= MENTION_LIMIT,
    ensures
        r.is_consistent == configuration_valid(registry@, root_feature_id@, selected_features@),
        r.message@ == configuration_message(
            r.is_consistent,
            distinct_names(selected_features@, selected_features@.len() as int).len(),
        ),
        r.num_features == distinct_names(selected_features@, selected_features@.len() as int).len(),
        r.num_clauses == 0,
        r.details@ == configuration_details(
            r.is_consistent,
            distinct_names(selected_features@, selected_features@.len() as int),
        ),
{
    let (is_valid, message) = validate_configuration(registry, root_feature_id, selected_features);
    let chosen = distinct(selected_features);
    assert(text_list(chosen@).len() == chosen@.len());
    let details = if is_valid {
        let mut d = "✓ Configuration is valid\nSelected features: [".to_owned();
        d.append(show_list(chosen.as_slice()).as_str());
        d.append("]");
        d
    } else {
        let mut d =
            "✗ Configuration violates feature model constraints\nSelected features: [".to_owned();
        d.append(show_list(chosen.as_slice()).as_str());
        d.append(
            "]\n\nPossible issues:\n- Missing required features\n- Conflicting features (excludes constraint)\n- Violates XOR/OR group rules\n- Selected feature without parent",
        );
        d
    };
    FeatureModelValidationResult {
        is_consistent: is_valid,
        message,
        num_features: chosen.len(),
        num_clauses: 0,
        details,
    }
}

} // verus!
