use assembly_plugin::feature_validation::{
    encoding_fits, feature_count, find_feature, validate_configuration, validate_feature_model,
};
use assembly_plugin::types::{Element, Entry, FeatureElement, JsonValue, Registry};

fn reg(entries: &Vec<Entry<Element>>) -> Registry {
    Registry::from_entries(entries.clone())
}

fn create_test_feature(
    id: &str,
    parent: Option<&str>,
    group: Option<&str>,
    concrete: Option<bool>,
) -> FeatureElement {
    FeatureElement {
        id: id.to_string(),
        title: id.to_string(),
        tags: Vec::new(),
        parent: parent.map(|s| s.to_string()),
        concrete,
        group: group.map(|s| s.to_string()),
        parameters: None,
        constraints: None,
        requires: None,
    }
}

fn insert(registry: &mut Vec<Entry<Element>>, key: &str, feature: FeatureElement) {
    registry.push(Entry { key: key.to_string(), value: Element::Feature(feature) });
}

fn tag(feature: &mut FeatureElement, key: &str, value: JsonValue) {
    feature.tags.push(Entry { key: key.to_string(), value });
}

fn strings(items: &[&str]) -> Vec<String> {
    items.iter().map(|s| s.to_string()).collect()
}

#[test]
fn test_simple_valid_model() {
    let mut registry: Vec<Entry<Element>> = Vec::new();
    insert(&mut registry, "ROOT", create_test_feature("ROOT", None, None, Some(true)));
    insert(&mut registry, "F1", create_test_feature("F1", Some("ROOT"), None, Some(true)));

    let result = validate_feature_model(&reg(&registry), "ROOT");
    assert!(result.is_consistent);
}

#[test]
fn test_xor_group() {
    let mut registry: Vec<Entry<Element>> = Vec::new();
    insert(&mut registry, "ROOT", create_test_feature("ROOT", None, Some("XOR"), Some(true)));
    insert(&mut registry, "F1", create_test_feature("F1", Some("ROOT"), None, Some(true)));
    insert(&mut registry, "F2", create_test_feature("F2", Some("ROOT"), None, Some(true)));

    let result = validate_feature_model(&reg(&registry), "ROOT");
    assert!(result.is_consistent);
    assert!(result.num_clauses > 0);
}

#[test]
fn test_or_group() {
    let mut registry: Vec<Entry<Element>> = Vec::new();
    insert(&mut registry, "ROOT", create_test_feature("ROOT", None, Some("OR"), Some(true)));
    insert(&mut registry, "F1", create_test_feature("F1", Some("ROOT"), None, Some(true)));
    insert(&mut registry, "F2", create_test_feature("F2", Some("ROOT"), None, Some(true)));

    let result = validate_feature_model(&reg(&registry), "ROOT");
    assert!(result.is_consistent);
}

#[test]
fn test_conflicting_requires_excludes() {
    let mut registry: Vec<Entry<Element>> = Vec::new();

    let root = create_test_feature("ROOT", None, None, Some(true));
    insert(&mut registry, "ROOT", root.clone());

    // F1 requires F2
    let mut f1 = create_test_feature("F1", Some("ROOT"), None, Some(true));
    tag(&mut f1, "requires", JsonValue::Text("F2".to_string()));
    tag(&mut f1, "mandatory", JsonValue::Bool(true));
    insert(&mut registry, "F1", f1);

    // F2 excludes F1
    let mut f2 = create_test_feature("F2", Some("ROOT"), None, Some(true));
    tag(&mut f2, "excludes", JsonValue::Text("F1".to_string()));
    insert(&mut registry, "F2", f2);

    let result = validate_feature_model(&reg(&registry), "ROOT");
    // This should be inconsistent: F1 is mandatory (selected with ROOT),
    // F1 requires F2, but F2 excludes F1
    assert!(!result.is_consistent);
}

#[test]
fn single_root_with_one_mandatory_child() {
    let mut registry: Vec<Entry<Element>> = Vec::new();
    insert(&mut registry, "ROOT", create_test_feature("ROOT", None, None, None));
    insert(&mut registry, "F1", create_test_feature("F1", Some("ROOT"), None, None));
    let result = validate_feature_model(&reg(&registry), "ROOT");
    assert!(result.is_consistent);
    assert_eq!(result.num_features, 2);
    assert_eq!(
        result.message,
        format!("Feature model is CONSISTENT (2 features, 2 variables, {} clauses)", result.num_clauses)
    );
    // the only child is mandatory: the root cannot stand without it
    assert!(validate_configuration(&reg(&registry), "ROOT", &strings(&["ROOT", "F1"])).0);
    assert!(validate_configuration(&reg(&registry), "ROOT", &strings(&["F1"])).0);
}

#[test]
fn xor_group_of_two_selects_exactly_one() {
    let mut registry: Vec<Entry<Element>> = Vec::new();
    insert(&mut registry, "ROOT", create_test_feature("ROOT", None, Some("XOR"), None));
    insert(&mut registry, "F1", create_test_feature("F1", Some("ROOT"), None, None));
    insert(&mut registry, "F2", create_test_feature("F2", Some("ROOT"), None, None));
    let result = validate_feature_model(&reg(&registry), "ROOT");
    assert!(result.is_consistent);
    assert_eq!(
        result.message,
        format!("Feature model is CONSISTENT (3 features, 3 variables, {} clauses)", result.num_clauses)
    );
    assert!(validate_configuration(&reg(&registry), "ROOT", &strings(&["F1"])).0);
    assert!(validate_configuration(&reg(&registry), "ROOT", &strings(&["F2"])).0);
    assert!(!validate_configuration(&reg(&registry), "ROOT", &strings(&["F1", "F2"])).0);
}

#[test]
fn or_group_allows_both_children() {
    let mut registry: Vec<Entry<Element>> = Vec::new();
    insert(&mut registry, "ROOT", create_test_feature("ROOT", None, Some("OR"), None));
    insert(&mut registry, "F1", create_test_feature("F1", Some("ROOT"), None, None));
    insert(&mut registry, "F2", create_test_feature("F2", Some("ROOT"), None, None));
    let result = validate_feature_model(&reg(&registry), "ROOT");
    assert!(result.is_consistent);
    assert!(validate_configuration(&reg(&registry), "ROOT", &strings(&["F1", "F2"])).0);
    assert!(validate_configuration(&reg(&registry), "ROOT", &strings(&["F1"])).0);
}

#[test]
fn empty_registry_is_consistent() {
    let registry: Vec<Entry<Element>> = Vec::new();
    let result = validate_feature_model(&reg(&registry), "ROOT");
    assert!(result.is_consistent);
    assert_eq!(result.message, "No features to validate");
    assert_eq!(result.num_features, 0);
}

#[test]
fn missing_root_is_inconsistent() {
    let mut registry: Vec<Entry<Element>> = Vec::new();
    insert(&mut registry, "F1", create_test_feature("F1", None, None, None));
    let result = validate_feature_model(&reg(&registry), "TOP");
    assert!(!result.is_consistent);
    assert_eq!(result.message, "Root feature 'TOP' not found in registry");
    assert_eq!(result.num_features, 1);
    // a configuration under a missing root is bound by its selections only
    let (valid, message) = validate_configuration(&reg(&registry), "TOP", &strings(&["F1", "F9"]));
    assert!(valid);
    assert_eq!(message, "Configuration is VALID (2 features selected)");
}

#[test]
fn inconsistent_model_reports_its_counts() {
    let mut registry: Vec<Entry<Element>> = Vec::new();
    let mut root = create_test_feature("ROOT", None, None, None);
    tag(&mut root, "excludes", JsonValue::Text("ROOT".to_string()));
    insert(&mut registry, "ROOT", root);
    let result = validate_feature_model(&reg(&registry), "ROOT");
    assert!(!result.is_consistent);
    assert_eq!(
        result.message,
        format!(
            "Feature model is INCONSISTENT - no valid configuration exists (1 features, 1 variables, {} clauses)",
            result.num_clauses
        )
    );
}

#[test]
fn requires_and_excludes_as_lists() {
    let mut registry: Vec<Entry<Element>> = Vec::new();
    insert(&mut registry, "ROOT", create_test_feature("ROOT", None, None, None));
    let mut a = create_test_feature("A", Some("ROOT"), None, None);
    tag(
        &mut a,
        "requires",
        JsonValue::List(vec![Some("B".to_string()), None, Some("C".to_string())]),
    );
    insert(&mut registry, "A", a);
    let mut b = create_test_feature("B", Some("ROOT"), None, None);
    tag(&mut b, "excludes", JsonValue::List(vec![Some("C".to_string())]));
    insert(&mut registry, "B", b);
    insert(&mut registry, "C", create_test_feature("C", Some("ROOT"), None, None));
    let result = validate_feature_model(&reg(&registry), "ROOT");
    assert!(result.is_consistent);
    assert!(!validate_configuration(&reg(&registry), "ROOT", &strings(&["A"])).0);
    assert!(validate_configuration(&reg(&registry), "ROOT", &strings(&["B"])).0);
    assert!(validate_configuration(&reg(&registry), "ROOT", &strings(&["C"])).0);
    assert!(!validate_configuration(&reg(&registry), "ROOT", &strings(&["B", "C"])).0);
}

#[test]
fn removing_edges_keeps_a_model_consistent() {
    let mut registry: Vec<Entry<Element>> = Vec::new();
    insert(&mut registry, "ROOT", create_test_feature("ROOT", None, None, None));
    let mut f1 = create_test_feature("F1", Some("ROOT"), None, None);
    tag(&mut f1, "requires", JsonValue::Text("F2".to_string()));
    insert(&mut registry, "F1", f1);
    let mut f2 = create_test_feature("F2", Some("ROOT"), None, None);
    tag(&mut f2, "excludes", JsonValue::Text("F3".to_string()));
    insert(&mut registry, "F2", f2);
    insert(&mut registry, "F3", create_test_feature("F3", Some("ROOT"), None, None));
    assert!(validate_feature_model(&reg(&registry), "ROOT").is_consistent);
    assert!(validate_configuration(&reg(&registry), "ROOT", &strings(&["F1"])).0);
    assert!(!validate_configuration(&reg(&registry), "ROOT", &strings(&["F1", "F3"])).0);

    let mut thin: Vec<Entry<Element>> = Vec::new();
    insert(&mut thin, "ROOT", create_test_feature("ROOT", None, None, None));
    insert(&mut thin, "F1", create_test_feature("F1", Some("ROOT"), None, None));
    insert(&mut thin, "F2", create_test_feature("F2", Some("ROOT"), None, None));
    insert(&mut thin, "F3", create_test_feature("F3", Some("ROOT"), None, None));
    assert!(validate_feature_model(&reg(&thin), "ROOT").is_consistent);
    assert!(validate_configuration(&reg(&thin), "ROOT", &strings(&["F1"])).0);
    assert!(validate_configuration(&reg(&thin), "ROOT", &strings(&["F1", "F3"])).0);
}

#[test]
fn the_product_of_a_model_is_a_valid_configuration() {
    // ROOT with a mandatory child F1 and an XOR group below F1: the product
    // ROOT, F1, F2 is the only one with F2.
    let mut registry: Vec<Entry<Element>> = Vec::new();
    insert(&mut registry, "ROOT", create_test_feature("ROOT", None, None, None));
    insert(&mut registry, "F1", create_test_feature("F1", Some("ROOT"), Some("XOR"), None));
    insert(&mut registry, "F2", create_test_feature("F2", Some("F1"), None, None));
    insert(&mut registry, "F3", create_test_feature("F3", Some("F1"), None, None));
    let (valid, message) = validate_configuration(&reg(&registry), "ROOT", &strings(&["ROOT", "F1", "F2"]));
    assert!(valid);
    assert_eq!(message, "Configuration is VALID (3 features selected)");
    let (valid, message) =
        validate_configuration(&reg(&registry), "ROOT", &strings(&["ROOT", "F1", "F2", "F3"]));
    assert!(!valid);
    assert_eq!(
        message,
        "Configuration is INVALID - violates feature model constraints (4 features selected)"
    );
}

#[test]
fn duplicate_selection_does_not_change_the_verdict() {
    let mut registry: Vec<Entry<Element>> = Vec::new();
    insert(&mut registry, "ROOT", create_test_feature("ROOT", None, Some("XOR"), None));
    insert(&mut registry, "F1", create_test_feature("F1", Some("ROOT"), None, None));
    insert(&mut registry, "F2", create_test_feature("F2", Some("ROOT"), None, None));
    assert!(validate_configuration(&reg(&registry), "ROOT", &strings(&["F1", "F1"])).0);
    assert!(!validate_configuration(&reg(&registry), "ROOT", &strings(&["F1", "F2", "F1"])).0);
    assert_eq!(
        validate_configuration(&reg(&registry), "ROOT", &strings(&["F1", "F1"])),
        validate_configuration(&reg(&registry), "ROOT", &strings(&["F1"]))
    );
    assert_eq!(
        validate_configuration(&reg(&registry), "ROOT", &strings(&["F1", "F2", "F1", "F2"])),
        validate_configuration(&reg(&registry), "ROOT", &strings(&["F1", "F2"]))
    );
    assert_eq!(
        validate_configuration(&reg(&registry), "ROOT", &strings(&["F1", "F1"])).1,
        "Configuration is VALID (1 features selected)"
    );
}

#[test]
fn explicit_mandatory_in_a_group() {
    // both children of an XOR group marked mandatory: no product
    let mut registry: Vec<Entry<Element>> = Vec::new();
    insert(&mut registry, "ROOT", create_test_feature("ROOT", None, Some("XOR"), None));
    let mut f1 = create_test_feature("F1", Some("ROOT"), None, None);
    tag(&mut f1, "mandatory", JsonValue::Bool(true));
    insert(&mut registry, "F1", f1);
    let mut f2 = create_test_feature("F2", Some("ROOT"), None, None);
    tag(&mut f2, "mandatory", JsonValue::Bool(true));
    insert(&mut registry, "F2", f2);
    assert!(!validate_feature_model(&reg(&registry), "ROOT").is_consistent);
}

#[test]
fn unknown_group_word_makes_no_group() {
    let mut registry: Vec<Entry<Element>> = Vec::new();
    insert(&mut registry, "ROOT", create_test_feature("ROOT", None, Some("ANY"), None));
    insert(&mut registry, "F1", create_test_feature("F1", Some("ROOT"), None, None));
    let result = validate_feature_model(&reg(&registry), "ROOT");
    assert!(result.is_consistent);
    // no group binds the children: with a second child that excludes the
    // first, the model still has a product
    let mut f2 = create_test_feature("F2", Some("ROOT"), None, None);
    tag(&mut f2, "excludes", JsonValue::Text("F1".to_string()));
    insert(&mut registry, "F2", f2);
    assert!(validate_feature_model(&reg(&registry), "ROOT").is_consistent);
    assert!(!validate_configuration(&reg(&registry), "ROOT", &strings(&["F1", "F2"])).0);
    assert!(validate_configuration(&reg(&registry), "ROOT", &strings(&["F2"])).0);
}

#[test]
fn lookups_and_limits() {
    let mut registry: Vec<Entry<Element>> = Vec::new();
    insert(&mut registry, "ROOT", create_test_feature("ROOT", None, None, None));
    insert(&mut registry, "K", create_test_feature("F1", Some("ROOT"), None, None));
    assert_eq!(find_feature(&reg(&registry), &"F1".to_string()), Some(1));
    assert_eq!(find_feature(&reg(&registry), &"K".to_string()), None);
    assert_eq!(feature_count(&reg(&registry)), 2);
    assert!(encoding_fits(&reg(&registry), "ROOT", 0));
    assert!(encoding_fits(&reg(&registry), "ROOT", 2147483643));
    assert!(!encoding_fits(&reg(&registry), "ROOT", 2147483644));
    assert!(encoding_fits(&reg(&registry), "NONE", 2147483646));
    assert!(!encoding_fits(&reg(&registry), "NONE", 2147483647));
}

#[test]
fn unknown_references_get_variables_of_their_own() {
    let mut registry: Vec<Entry<Element>> = Vec::new();
    insert(&mut registry, "ROOT", create_test_feature("ROOT", None, None, None));
    let mut f1 = create_test_feature("F1", Some("ROOT"), None, None);
    tag(&mut f1, "requires", JsonValue::Text("GHOST".to_string()));
    tag(&mut f1, "excludes", JsonValue::Text("SHADE".to_string()));
    insert(&mut registry, "F1", f1);
    let result = validate_feature_model(&reg(&registry), "ROOT");
    assert!(result.is_consistent);
    assert_eq!(
        result.message,
        format!("Feature model is CONSISTENT (2 features, 4 variables, {} clauses)", result.num_clauses)
    );
    assert!(validate_configuration(&reg(&registry), "ROOT", &strings(&["GHOST"])).0);
    assert!(!validate_configuration(&reg(&registry), "ROOT", &strings(&["SHADE"])).0);
    assert!(validate_configuration(&reg(&registry), "ROOT", &strings(&["ELSEWHERE"])).0);
}

#[test]
fn only_child_of_a_group_is_optional() {
    let mut registry: Vec<Entry<Element>> = Vec::new();
    insert(&mut registry, "ROOT", create_test_feature("ROOT", None, None, None));
    insert(&mut registry, "G", create_test_feature("G", Some("ROOT"), Some("OR"), None));
    insert(&mut registry, "F1", create_test_feature("F1", Some("G"), None, None));
    let mut other = create_test_feature("X", Some("ROOT"), None, None);
    tag(&mut other, "excludes", JsonValue::Text("G".to_string()));
    insert(&mut registry, "X", other);
    // G and X are two children of ROOT, so neither is mandatory; F1 is the
    // only child of a group and is optional, though the group asks for it
    // once G is selected.
    assert!(validate_configuration(&reg(&registry), "ROOT", &strings(&["X"])).0);
    assert!(validate_configuration(&reg(&registry), "ROOT", &strings(&["G"])).0);
    assert!(!validate_configuration(&reg(&registry), "ROOT", &strings(&["G", "X"])).0);
    assert!(!validate_configuration(&reg(&registry), "ROOT", &strings(&["F1", "X"])).0);
}
