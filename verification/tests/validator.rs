use assembly_plugin::types::{Element, Entry, FeatureElement, Registry};
use assembly_plugin::validator::{
    default_root, hello, validate_configuration_sat, validate_feature_model_sat,
};

fn reg(entries: &Vec<Entry<Element>>) -> Registry {
    Registry::from_entries(entries.clone())
}

fn feature(id: &str, parent: Option<&str>, group: Option<&str>) -> Entry<Element> {
    Entry {
        key: id.to_string(),
        value: Element::Feature(FeatureElement {
            id: id.to_string(),
            title: id.to_string(),
            tags: Vec::new(),
            parent: parent.map(|s| s.to_string()),
            concrete: None,
            group: group.map(|s| s.to_string()),
            parameters: None,
            constraints: None,
            requires: None,
        }),
    }
}

fn model() -> Vec<Entry<Element>> {
    vec![feature("ROOT", None, Some("XOR")), feature("F1", Some("ROOT"), None), feature("F2", Some("ROOT"), None)]
}

#[test]
fn greeting() {
    assert_eq!(hello(), b"Hello from AssemblyLine WASM validator!".to_vec());
    assert_eq!(default_root(), "ROOT");
}

#[test]
fn verdict_on_a_consistent_model() {
    let result = validate_feature_model_sat(&reg(&model()), "ROOT");
    assert!(result.is_consistent);
    assert_eq!(result.num_features, 3);
    assert_eq!(
        result.message,
        format!("Feature model is CONSISTENT (3 features, 3 variables, {} clauses)", result.num_clauses)
    );
    assert_eq!(
        result.details,
        format!(
            "✓ Feature model is consistent - at least one valid configuration exists\nFeatures: 3\nSAT variables: 3\nCNF clauses: {}",
            result.num_clauses
        )
    );
}

#[test]
fn verdict_on_a_missing_root() {
    let result = validate_feature_model_sat(&reg(&model()), "TOP");
    assert!(!result.is_consistent);
    assert_eq!(result.message, "Root feature 'TOP' not found in registry");
    assert_eq!(
        result.details,
        format!(
            "✗ Feature model is INCONSISTENT - contradictory constraints detected\nNo valid configuration exists that satisfies all:\n- Hierarchy constraints (parent-child relationships)\n- Variability groups (XOR/OR groups)\n- Cross-tree constraints (requires/excludes)\n\nFeatures: 3\nCNF clauses: {}\n\nRecommendation: Review feature constraints for conflicts",
            result.num_clauses
        )
    );
}

#[test]
fn verdict_on_configurations() {
    let result = validate_configuration_sat(&reg(&model()), "ROOT", &["F1".to_string()]);
    assert!(result.is_consistent);
    assert_eq!(result.num_features, 1);
    assert_eq!(result.message, "Configuration is VALID (1 features selected)");
    assert_eq!(result.details, "✓ Configuration is valid\nSelected features: [\"F1\"]");
    let result = validate_configuration_sat(&reg(&model()), "ROOT", &["F1".to_string(), "F2".to_string()]);
    assert!(!result.is_consistent);
    assert_eq!(result.num_features, 2);
    assert_eq!(
        result.details,
        "✗ Configuration violates feature model constraints\nSelected features: [\"F1\", \"F2\"]\n\nPossible issues:\n- Missing required features\n- Conflicting features (excludes constraint)\n- Violates XOR/OR group rules\n- Selected feature without parent"
    );
    let result = validate_configuration_sat(&reg(&model()), "ROOT", &[]);
    assert!(result.is_consistent);
    assert_eq!(result.details, "✓ Configuration is valid\nSelected features: []");
    // a feature that is named again is one selected feature
    let result = validate_configuration_sat(
        &reg(&model()),
        "ROOT",
        &["F1".to_string(), "ROOT".to_string(), "F1".to_string()],
    );
    assert!(result.is_consistent);
    assert_eq!(result.num_features, 2);
    assert_eq!(result.message, "Configuration is VALID (2 features selected)");
    assert_eq!(result.details, "✓ Configuration is valid\nSelected features: [\"F1\", \"ROOT\"]");
}
