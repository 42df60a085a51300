use assembly_plugin::rules::{find_root, find_violations, rules_fit, validate_rules, Link, Violation};
use assembly_plugin::types::{
    BlockDefinitionElement, ConfigElement, Element, Entry, FeatureElement, JsonValue, Registry,
    ReqElement, SysmlPart, TestCaseElement, UseCaseElement,
};

fn reg(entries: &Vec<Entry<Element>>) -> Registry {
    Registry::from_entries(entries.clone())
}

fn feature(id: &str, parent: Option<&str>, group: Option<&str>, concrete: Option<bool>) -> Element {
    Element::Feature(FeatureElement {
        id: id.to_string(),
        title: id.to_string(),
        tags: Vec::new(),
        parent: parent.map(|s| s.to_string()),
        concrete,
        group: group.map(|s| s.to_string()),
        parameters: None,
        constraints: None,
        requires: None,
    })
}

fn requirement(id: &str) -> Element {
    Element::Req(ReqElement {
        id: id.to_string(),
        title: String::new(),
        tags: Vec::new(),
        parent: None,
        derives_from: None,
    })
}

fn use_case(id: &str) -> Element {
    Element::UseCase(UseCaseElement { id: id.to_string(), title: String::new(), tags: Vec::new() })
}

fn test_case(id: &str) -> Element {
    Element::TestCase(TestCaseElement { id: id.to_string(), title: String::new(), tags: Vec::new() })
}

fn block(id: &str, part_types: &[&str]) -> Element {
    Element::BlockDefinition(BlockDefinitionElement {
        id: id.to_string(),
        title: String::new(),
        tags: Vec::new(),
        properties: Vec::new(),
        operations: Vec::new(),
        ports: Vec::new(),
        parts: part_types
            .iter()
            .map(|t| SysmlPart {
                name: "part".to_string(),
                part_type: t.to_string(),
                multiplicity: "1".to_string(),
            })
            .collect(),
        connectors: Vec::new(),
    })
}

fn config(id: &str, selected: &[&str]) -> Element {
    Element::Config(ConfigElement {
        id: id.to_string(),
        title: String::new(),
        tags: Vec::new(),
        root_feature_id: "ROOT".to_string(),
        selected: selected.iter().map(|s| s.to_string()).collect(),
        bindings: None,
    })
}

fn put(registry: &mut Vec<Entry<Element>>, key: &str, element: Element) {
    registry.push(Entry { key: key.to_string(), value: element });
}

fn link(source: &str, kind: &str, target: &str) -> Link {
    Link { source: source.to_string(), link_type: kind.to_string(), target: target.to_string() }
}

fn messages(registry: &Vec<Entry<Element>>, links: &Vec<Link>) -> Vec<String> {
    find_violations(&reg(registry), links).iter().map(|v| v.message()).collect()
}

#[test]
fn a_sound_registry_passes() {
    let mut registry: Vec<Entry<Element>> = Vec::new();
    put(&mut registry, "ROOT", feature("ROOT", None, Some("XOR"), None));
    put(&mut registry, "F1", feature("F1", Some("ROOT"), None, None));
    put(&mut registry, "F2", feature("F2", Some("ROOT"), None, None));
    put(&mut registry, "REQ-1", requirement("REQ-1"));
    put(&mut registry, "UC-1", use_case("UC-1"));
    put(&mut registry, "B-1", block("B-1", &["B-2"]));
    put(&mut registry, "B-2", block("B-2", &[]));
    put(&mut registry, "CONFIG:C-1", config("C-1", &["F1"]));
    let links = vec![link("UC-1", "trace", "REQ-1"), link("REQ-1", "satisfy", "F1")];
    assert!(rules_fit(&reg(&registry), &links));
    let result = validate_rules(&reg(&registry), &links);
    assert!(result.passed);
    assert_eq!(result.total_elements, 8);
    assert_eq!(
        result.message,
        "✓ All validation rules passed! Validated 8 elements, 2 links"
    );
}

#[test]
fn use_case_must_lead_to_a_requirement() {
    let mut registry: Vec<Entry<Element>> = Vec::new();
    put(&mut registry, "REQ-1", requirement("REQ-1"));
    put(&mut registry, "UC-1", use_case("UC-1"));
    put(&mut registry, "UC-2", use_case("UC-2"));
    put(&mut registry, "UC-3", use_case("UC-3"));
    put(&mut registry, "TC-1", test_case("TC-1"));
    // UC-1 leads to a test case and to a requirement, UC-2 to a test case
    // only, UC-3 is led to but leads nowhere
    let links = vec![
        link("UC-1", "trace", "REQ-1"),
        link("UC-1", "verify", "TC-1"),
        link("UC-2", "verify", "TC-1"),
        link("REQ-1", "trace", "UC-3"),
    ];
    assert_eq!(
        messages(&registry, &links),
        vec![
            "Use case UC-2 is not traced to any requirement".to_string(),
            "Use case UC-3 is not traced to any requirement".to_string(),
        ]
    );
    // the order of the links does not matter
    let links = vec![
        link("UC-1", "verify", "TC-1"),
        link("UC-2", "verify", "TC-1"),
        link("UC-2", "trace", "REQ-1"),
        link("UC-3", "trace", "REQ-1"),
        link("UC-1", "trace", "REQ-1"),
    ];
    assert!(messages(&registry, &links).is_empty());
}

#[test]
fn dangling_links_are_reported_and_make_no_edge() {
    let mut registry: Vec<Entry<Element>> = Vec::new();
    put(&mut registry, "REQ-1", requirement("REQ-1"));
    put(&mut registry, "UC-1", use_case("UC-1"));
    let links = vec![link("UC-1", "trace", "REQ-9"), link("UC-0", "trace", "REQ-1")];
    let found = find_violations(&reg(&registry), &links);
    assert!(matches!(found[0], Violation::DanglingLink { .. }));
    assert_eq!(
        messages(&registry, &links),
        vec![
            "Link references non-existent element: UC-1 -> REQ-9".to_string(),
            "Link references non-existent element: UC-0 -> REQ-1".to_string(),
            "Use case UC-1 is not traced to any requirement".to_string(),
        ]
    );
}

#[test]
fn identifiers_and_keys() {
    let mut registry: Vec<Entry<Element>> = Vec::new();
    put(&mut registry, "REQ-1", requirement("REQ-1"));
    put(&mut registry, "REQ-2", requirement("REQ-1"));
    put(&mut registry, "C-1", config("C-1", &[]));
    put(&mut registry, "CONFIG:C-2", config("C-2", &[]));
    assert_eq!(
        messages(&registry, &Vec::new()),
        vec![
            "Duplicate ID: REQ-1".to_string(),
            "Registry key mismatch: key='REQ-2' but expected 'REQ-1'".to_string(),
            "Registry key mismatch: key='C-1' but expected 'CONFIG:C-1'".to_string(),
        ]
    );
}

#[test]
fn parents_and_groups() {
    let mut registry: Vec<Entry<Element>> = Vec::new();
    put(&mut registry, "TOP", feature("TOP", Some("ROOT"), Some("OR"), None));
    put(&mut registry, "F1", feature("F1", Some("TOP"), None, None));
    put(&mut registry, "F2", feature("F2", Some("GONE"), Some("XOR"), None));
    let found = messages(&registry, &Vec::new());
    assert_eq!(
        found,
        vec![
            "Feature TOP has \"OR\" group but only 1 children (need >= 2)".to_string(),
            "Feature F2 references non-existent parent: GONE".to_string(),
            "Feature F2 has \"XOR\" group but only 0 children (need >= 2)".to_string(),
        ]
    );
}

#[test]
fn part_types_and_selections() {
    let mut registry: Vec<Entry<Element>> = Vec::new();
    put(&mut registry, "B-1", block("B-1", &["B-2", "B-3", "REQ-1"]));
    put(&mut registry, "REQ-1", requirement("REQ-1"));
    put(&mut registry, "F1", feature("F1", None, None, Some(false)));
    put(&mut registry, "F2", feature("F2", Some("F1"), None, Some(true)));
    put(&mut registry, "CONFIG:C-1", config("C-1", &["F1", "F2", "REQ-1", "F9"]));
    assert_eq!(
        messages(&registry, &Vec::new()),
        vec![
            "Block B-1 references non-existent part type: B-2".to_string(),
            "Block B-1 references non-existent part type: B-3".to_string(),
            "Config C-1 selects abstract feature: F1".to_string(),
            "Config C-1 selects non-feature element: REQ-1 (type: req)".to_string(),
            "Config C-1 selects non-existent feature: F9".to_string(),
        ]
    );
}

#[test]
fn a_feature_selected_again_is_judged_once() {
    let mut registry: Vec<Entry<Element>> = Vec::new();
    put(&mut registry, "REQ-1", requirement("REQ-1"));
    put(&mut registry, "F1", feature("F1", None, None, Some(false)));
    put(&mut registry, "F2", feature("F2", Some("F1"), None, Some(true)));
    put(&mut registry, "CONFIG:C-1", config("C-1", &["F1", "F9", "F1", "F2", "REQ-1", "F9", "REQ-1", "F2"]));
    assert_eq!(
        messages(&registry, &Vec::new()),
        vec![
            "Config C-1 selects abstract feature: F1".to_string(),
            "Config C-1 selects non-existent feature: F9".to_string(),
            "Config C-1 selects non-feature element: REQ-1 (type: req)".to_string(),
        ]
    );
}

#[test]
fn inconsistent_model_fails_the_rules() {
    let mut registry: Vec<Entry<Element>> = Vec::new();
    put(&mut registry, "REQ-1", requirement("REQ-1"));
    let mut top = FeatureElement {
        id: "TOP".to_string(),
        title: String::new(),
        tags: Vec::new(),
        parent: Some("ROOT".to_string()),
        concrete: None,
        group: None,
        parameters: None,
        constraints: None,
        requires: None,
    };
    top.tags.push(Entry { key: "excludes".to_string(), value: JsonValue::Text("TOP".to_string()) });
    put(&mut registry, "TOP", Element::Feature(top));
    assert_eq!(find_root(&reg(&registry)), Some(1));
    let result = validate_rules(&reg(&registry), &Vec::new());
    assert!(!result.passed);
    assert_eq!(result.total_elements, 2);
    let verdict = assembly_plugin::feature_validation::validate_feature_model(&reg(&registry), "TOP");
    assert!(!verdict.is_consistent);
    assert_eq!(
        result.message,
        format!(
            "✗ Validation failed with 1 violations:\nFeature model is INCONSISTENT (SAT check failed): {}",
            verdict.message
        )
    );
    assert!(verdict
        .message
        .starts_with("Feature model is INCONSISTENT - no valid configuration exists (1 features, 1 variables, "));
}

#[test]
fn several_violations_are_joined() {
    let mut registry: Vec<Entry<Element>> = Vec::new();
    put(&mut registry, "UC-1", use_case("UC-1"));
    put(&mut registry, "UC-2", use_case("UC-1"));
    let result = validate_rules(&reg(&registry), &vec![link("A", "trace", "B")]);
    assert!(!result.passed);
    assert_eq!(
        result.message,
        "✗ Validation failed with 5 violations:\nLink references non-existent element: A -> B\n  - Use case UC-1 is not traced to any requirement\n  - Use case UC-1 is not traced to any requirement\n  - Duplicate ID: UC-1\n  - Registry key mismatch: key='UC-2' but expected 'UC-1'"
    );
}

#[test]
fn registry_without_root_has_no_model_to_check() {
    let mut registry: Vec<Entry<Element>> = Vec::new();
    put(&mut registry, "F1", feature("F1", Some("F2"), None, None));
    put(&mut registry, "F2", feature("F2", Some("F1"), None, None));
    assert_eq!(find_root(&reg(&registry)), None);
    assert!(validate_rules(&reg(&registry), &Vec::new()).passed);
}
