use assembly_plugin::parameter_validation::{
    validate_boolean, validate_enum, validate_integer, validate_parameter,
    validate_parameter_bindings, ParameterIssue,
};
use assembly_plugin::types::{
    ConfigElement, Element, Entry, FeatureElement, JsonValue, ParameterSchema, Registry,
};

fn reg(entries: &Vec<Entry<Element>>) -> Registry {
    Registry::from_entries(entries.clone())
}

fn entry<V>(key: &str, value: V) -> Entry<V> {
    Entry { key: key.to_string(), value }
}

fn create_test_feature(id: &str, params: Vec<Entry<ParameterSchema>>) -> Element {
    Element::Feature(FeatureElement {
        id: id.to_string(),
        title: "Test Feature".to_string(),
        tags: Vec::new(),
        parent: Some("ROOT".to_string()),
        concrete: Some(true),
        group: None,
        parameters: Some(params),
        constraints: None,
        requires: None,
    })
}

fn create_test_config(
    id: &str,
    selected: Vec<String>,
    bindings: Vec<Entry<Vec<Entry<JsonValue>>>>,
) -> Element {
    Element::Config(ConfigElement {
        id: id.to_string(),
        title: "Test Config".to_string(),
        tags: Vec::new(),
        root_feature_id: "ROOT".to_string(),
        selected,
        bindings: Some(bindings),
    })
}

fn integer_schema(range: Option<(i64, i64)>, default: JsonValue) -> ParameterSchema {
    ParameterSchema {
        param_type: "Integer".to_string(),
        range,
        values: None,
        unit: None,
        default,
        description: None,
    }
}

fn enum_schema(values: &[&str], default: &str) -> ParameterSchema {
    ParameterSchema {
        param_type: "Enum".to_string(),
        range: None,
        values: Some(values.iter().map(|s| s.to_string()).collect()),
        unit: None,
        default: JsonValue::Text(default.to_string()),
        description: None,
    }
}

#[test]
fn test_valid_integer_parameter() {
    let mut registry: Vec<Entry<Element>> = Vec::new();

    // Create feature with integer parameter
    let params = vec![entry("size", integer_schema(Some((1, 100)), JsonValue::Int(50)))];
    registry.push(entry("F-TEST", create_test_feature("F-TEST", params)));

    // Create config with valid binding
    let bindings = vec![entry("F-TEST", vec![entry("size", JsonValue::Int(75))])];
    registry.push(entry(
        "CONFIG:CFG-TEST",
        create_test_config("CFG-TEST", vec!["F-TEST".to_string()], bindings),
    ));

    // Validate
    let result = validate_parameter_bindings(&reg(&registry), "CFG-TEST");

    assert!(result.is_valid, "Expected valid result, got errors: {:?}", result.errors);
    assert_eq!(result.num_features_checked, 1);
    assert_eq!(result.num_parameters_checked, 1);
}

#[test]
fn test_integer_out_of_range() {
    let mut registry: Vec<Entry<Element>> = Vec::new();

    // Create feature
    let params = vec![entry("size", integer_schema(Some((1, 100)), JsonValue::Int(50)))];
    registry.push(entry("F-TEST", create_test_feature("F-TEST", params)));

    // Create config with out-of-range value
    let bindings = vec![entry("F-TEST", vec![entry("size", JsonValue::Int(500))])]; // Out of range!
    registry.push(entry(
        "CONFIG:CFG-TEST",
        create_test_config("CFG-TEST", vec!["F-TEST".to_string()], bindings),
    ));

    // Validate
    let result = validate_parameter_bindings(&reg(&registry), "CFG-TEST");

    assert!(!result.is_valid, "Expected invalid result");
    assert_eq!(result.errors.len(), 1);
    assert!(result.errors[0].contains("out of range"));
}

#[test]
fn test_valid_enum_parameter() {
    let mut registry: Vec<Entry<Element>> = Vec::new();

    // Create feature with enum parameter
    let params = vec![entry("mode", enum_schema(&["debug", "info", "error"], "info"))];
    registry.push(entry("F-TEST", create_test_feature("F-TEST", params)));

    // Create config with valid enum value
    let bindings = vec![entry("F-TEST", vec![entry("mode", JsonValue::Text("debug".to_string()))])];
    registry.push(entry(
        "CONFIG:CFG-TEST",
        create_test_config("CFG-TEST", vec!["F-TEST".to_string()], bindings),
    ));

    // Validate
    let result = validate_parameter_bindings(&reg(&registry), "CFG-TEST");

    assert!(result.is_valid, "Expected valid result, got errors: {:?}", result.errors);
}

#[test]
fn test_invalid_enum_value() {
    let mut registry: Vec<Entry<Element>> = Vec::new();

    // Create feature
    let params = vec![entry("mode", enum_schema(&["debug", "info"], "info"))];
    registry.push(entry("F-TEST", create_test_feature("F-TEST", params)));

    // Create config with invalid enum value
    let bindings =
        vec![entry("F-TEST", vec![entry("mode", JsonValue::Text("INVALID".to_string()))])]; // Not in enum!
    registry.push(entry(
        "CONFIG:CFG-TEST",
        create_test_config("CFG-TEST", vec!["F-TEST".to_string()], bindings),
    ));

    // Validate
    let result = validate_parameter_bindings(&reg(&registry), "CFG-TEST");

    assert!(!result.is_valid);
    assert_eq!(result.errors.len(), 1);
    assert!(result.errors[0].contains("not in enum"));
}

#[test]
fn test_default_value_used() {
    let mut registry: Vec<Entry<Element>> = Vec::new();

    // Create feature
    let params = vec![entry("size", integer_schema(Some((1, 100)), JsonValue::Int(50)))];
    registry.push(entry("F-TEST", create_test_feature("F-TEST", params)));

    // Create config with NO bindings (should use default)
    registry.push(entry(
        "CONFIG:CFG-TEST",
        create_test_config("CFG-TEST", vec!["F-TEST".to_string()], Vec::new()),
    ));

    // Validate
    let result = validate_parameter_bindings(&reg(&registry), "CFG-TEST");

    assert!(result.is_valid, "Expected valid result when using defaults");
}

#[test]
fn default_fallback_succeeds_exactly_when_the_default_conforms() {
    let f = "F".to_string();
    let p = "p".to_string();
    let good = integer_schema(Some((1, 100)), JsonValue::Int(50));
    assert!(validate_parameter(&f, &p, &good, None).is_none());
    let bad = integer_schema(Some((1, 100)), JsonValue::Int(500));
    assert!(matches!(
        validate_parameter(&f, &p, &bad, None),
        Some(ParameterIssue::OutOfRange { value: 500, min: 1, max: 100, .. })
    ));
    let wrong = integer_schema(None, JsonValue::Text("x".to_string()));
    assert!(matches!(
        validate_parameter(&f, &p, &wrong, None),
        Some(ParameterIssue::ExpectedInteger { .. })
    ));
    let none = integer_schema(None, JsonValue::Null);
    assert!(matches!(validate_parameter(&f, &p, &none, None), Some(ParameterIssue::NoValue { .. })));
    // a binding takes the place of the default
    assert!(validate_parameter(&f, &p, &bad, Some(&JsonValue::Int(100))).is_none());
    assert!(validate_parameter(&f, &p, &none, Some(&JsonValue::Int(-3))).is_none());
}

#[test]
fn range_is_inclusive() {
    let f = "F".to_string();
    let p = "p".to_string();
    let schema = integer_schema(Some((1, 100)), JsonValue::Int(50));
    assert!(validate_integer(&f, &p, &JsonValue::Int(1), &schema).is_none());
    assert!(validate_integer(&f, &p, &JsonValue::Int(100), &schema).is_none());
    assert!(validate_integer(&f, &p, &JsonValue::Int(0), &schema).is_some());
    assert!(validate_integer(&f, &p, &JsonValue::Int(101), &schema).is_some());
}

#[test]
fn messages_of_findings() {
    let f = "F-TEST".to_string();
    let p = "size".to_string();
    let schema = integer_schema(Some((1, 100)), JsonValue::Int(50));
    assert_eq!(
        validate_integer(&f, &p, &JsonValue::Int(500), &schema).unwrap().message(),
        "Feature 'F-TEST', parameter 'size': Value 500 out of range [1, 100]"
    );
    assert_eq!(
        validate_integer(&f, &p, &JsonValue::Int(-7), &integer_schema(Some((-5, -1)), JsonValue::Null))
            .unwrap()
            .message(),
        "Feature 'F-TEST', parameter 'size': Value -7 out of range [-5, -1]"
    );
    assert_eq!(
        validate_integer(&f, &p, &JsonValue::Text("big".to_string()), &schema).unwrap().message(),
        "Feature 'F-TEST', parameter 'size': Expected type Integer, got String(\"big\")"
    );
    assert_eq!(
        validate_boolean(&f, &p, &JsonValue::Int(1)).unwrap().message(),
        "Feature 'F-TEST', parameter 'size': Expected type Boolean, got Number(1)"
    );
    assert!(validate_boolean(&f, &p, &JsonValue::Bool(false)).is_none());
    let modes = enum_schema(&["debug", "info"], "info");
    assert_eq!(
        validate_enum(&f, &p, &JsonValue::Text("INVALID".to_string()), &modes).unwrap().message(),
        "Feature 'F-TEST', parameter 'size': Value 'INVALID' not in enum [\"debug\", \"info\"]"
    );
    assert_eq!(
        validate_enum(&f, &p, &JsonValue::Bool(true), &modes).unwrap().message(),
        "Feature 'F-TEST', parameter 'size': Expected type String (for Enum), got Bool(true)"
    );
    assert_eq!(
        validate_parameter(&f, &p, &integer_schema(None, JsonValue::Null), None).unwrap().message(),
        "Feature 'F-TEST', parameter 'size': No binding provided and no default value defined"
    );
    let mut odd = integer_schema(None, JsonValue::Int(1));
    odd.param_type = "Float".to_string();
    assert_eq!(
        validate_parameter(&f, &p, &odd, None).unwrap().message(),
        "Feature 'F-TEST', parameter 'size': Unknown parameter type 'Float'"
    );
}

fn world(constraints: Vec<&str>, size: i64) -> Vec<Entry<Element>> {
    let mut registry: Vec<Entry<Element>> = Vec::new();
    registry.push(entry(
        "F-TEST",
        Element::Feature(FeatureElement {
            id: "F-TEST".to_string(),
            title: "Test Feature".to_string(),
            tags: Vec::new(),
            parent: Some("ROOT".to_string()),
            concrete: Some(true),
            group: None,
            parameters: Some(vec![
                entry("size", integer_schema(Some((1, 100)), JsonValue::Int(50))),
                entry("mode", enum_schema(&["debug", "info"], "info")),
            ]),
            constraints: Some(constraints.iter().map(|s| s.to_string()).collect()),
            requires: None,
        }),
    ));
    registry.push(entry("F-BARE", create_test_feature("F-BARE", Vec::new())));
    let bindings = vec![entry("F-TEST", vec![entry("size", JsonValue::Int(size))])];
    registry.push(entry(
        "CONFIG:CFG",
        create_test_config(
            "CFG",
            vec!["F-TEST".to_string(), "F-GONE".to_string(), "F-BARE".to_string()],
            bindings,
        ),
    ));
    registry
}

#[test]
fn findings_come_in_order_and_nothing_stops_the_check() {
    let registry = world(vec!["F-TEST.size >= 50", "F-TEST.size / 0 > 1", "F-TEST.mode == info"], 500);
    let result = validate_parameter_bindings(&reg(&registry), "CFG");
    assert!(!result.is_valid);
    assert_eq!(
        result.errors,
        vec![
            "Feature 'F-TEST', parameter 'size': Value 500 out of range [1, 100]".to_string(),
            "Configuration 'CFG' selects non-existent feature 'F-GONE'".to_string(),
            "Feature 'F-TEST': Failed to evaluate constraint 'F-TEST.size / 0 > 1': Division by zero"
                .to_string(),
        ]
    );
    assert_eq!(result.message, "Parameter validation failed with 3 error(s)");
    assert_eq!(result.num_features_checked, 1);
    assert_eq!(result.num_parameters_checked, 2);
}

#[test]
fn violated_constraint_is_reported() {
    let registry = world(vec!["F-TEST.size >= 50", "F-TEST is selected => F-TEST.size < 20"], 20);
    let result = validate_parameter_bindings(&reg(&registry), "CFG");
    assert_eq!(
        result.errors,
        vec![
            "Configuration 'CFG' selects non-existent feature 'F-GONE'".to_string(),
            "Feature 'F-TEST': Constraint 'F-TEST.size >= 50' violated".to_string(),
            "Feature 'F-TEST': Constraint 'F-TEST is selected => F-TEST.size < 20' violated"
                .to_string(),
        ]
    );
}

#[test]
fn valid_configuration_reports_its_counts() {
    let mut registry = world(vec!["F-TEST.size >= 50"], 60);
    if let Element::Config(c) = &mut registry[2].value {
        c.selected = vec!["F-TEST".to_string(), "F-BARE".to_string(), "F-TEST".to_string()];
    }
    let result = validate_parameter_bindings(&reg(&registry), "CFG");
    assert!(result.is_valid);
    assert!(result.errors.is_empty());
    assert_eq!(result.num_features_checked, 1);
    assert_eq!(result.num_parameters_checked, 2);
    assert_eq!(
        result.message,
        "All parameter bindings and constraints are valid (1 features, 2 parameters checked)"
    );
}

fn selecting(mut registry: Vec<Entry<Element>>, ids: &[&str]) -> Vec<Entry<Element>> {
    if let Element::Config(c) = &mut registry[2].value {
        c.selected = ids.iter().map(|s| s.to_string()).collect();
    }
    registry
}

#[test]
fn a_feature_selected_again_adds_nothing() {
    let constraints = vec!["F-TEST.size >= 50", "F-TEST.size / 0 > 1"];
    let once = validate_parameter_bindings(
        &reg(&selecting(world(constraints.clone(), 500), &["F-TEST", "F-GONE", "F-BARE"])),
        "CFG",
    );
    let again = validate_parameter_bindings(
        &reg(&selecting(
            world(constraints, 500),
            &["F-TEST", "F-TEST", "F-GONE", "F-BARE", "F-GONE", "F-TEST", "F-BARE"],
        )),
        "CFG",
    );
    assert_eq!(
        once.errors,
        vec![
            "Feature 'F-TEST', parameter 'size': Value 500 out of range [1, 100]".to_string(),
            "Configuration 'CFG' selects non-existent feature 'F-GONE'".to_string(),
            "Feature 'F-TEST': Failed to evaluate constraint 'F-TEST.size / 0 > 1': Division by zero"
                .to_string(),
        ]
    );
    assert_eq!(again.errors, once.errors);
    assert_eq!(again.message, once.message);
    assert_eq!(again.is_valid, once.is_valid);
    assert_eq!(again.num_features_checked, 1);
    assert_eq!(again.num_parameters_checked, 2);
    assert_eq!(once.num_features_checked, 1);
    assert_eq!(once.num_parameters_checked, 2);
}

#[test]
fn an_unknown_feature_selected_twice_is_reported_once() {
    let result =
        validate_parameter_bindings(&reg(&selecting(world(vec![], 60), &["F-GONE", "F-GONE"])), "CFG");
    assert_eq!(
        result.errors,
        vec!["Configuration 'CFG' selects non-existent feature 'F-GONE'".to_string()]
    );
    assert_eq!(result.num_features_checked, 0);
    assert_eq!(result.num_parameters_checked, 0);
}

#[test]
fn unknown_configuration() {
    let registry = world(vec![], 60);
    let result = validate_parameter_bindings(&reg(&registry), "NONE");
    assert!(!result.is_valid);
    assert_eq!(result.message, "Configuration 'NONE' not found");
    assert_eq!(result.errors, vec!["Configuration 'NONE' does not exist".to_string()]);
    assert_eq!(result.num_features_checked, 0);
    assert_eq!(result.num_parameters_checked, 0);
    // a feature under the key of a configuration is no configuration
    let result = validate_parameter_bindings(&reg(&registry), "F-TEST");
    assert!(!result.is_valid);
}
