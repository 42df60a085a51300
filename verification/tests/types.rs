use assembly_plugin::text::{
    chars_of, decimal, is_whitespace, show_list, signed_decimal, string_of, trim_chars,
};
use assembly_plugin::types::json::{has_tag, parse_string_or_array, tag_text, tag_texts};
use assembly_plugin::types::entry::{find, get};
use assembly_plugin::types::feature::default_concrete;
use assembly_plugin::types::{
    BlockDefinitionElement, ConfigElement, Element, ElementCore, Entry, FeatureElement,
    ImplementationElement, InternalBlockDiagramElement, JsonValue, Registry, ReqElement,
    SequenceDiagramElement, SysmlConnector, SysmlOperation, SysmlPart, SysmlPort, SysmlProperty,
    TestCaseElement, UseCaseElement, VariabilityGroup,
};

fn entry<V>(key: &str, value: V) -> Entry<V> {
    Entry { key: key.to_string(), value }
}

fn feature(group: Option<&str>, concrete: Option<bool>) -> FeatureElement {
    FeatureElement {
        id: "F".to_string(),
        title: "Feature".to_string(),
        tags: vec![entry("mandatory", JsonValue::Bool(true))],
        parent: None,
        concrete,
        group: group.map(|s| s.to_string()),
        parameters: None,
        constraints: None,
        requires: None,
    }
}

fn words(items: &[&str]) -> JsonValue {
    JsonValue::List(items.iter().map(|s| Some(s.to_string())).collect())
}

#[test]
fn group_of_a_feature() {
    assert_eq!(feature(Some("XOR"), None).group_type(), Some(VariabilityGroup::Xor));
    assert_eq!(feature(Some("OR"), None).group_type(), Some(VariabilityGroup::Or));
    assert_eq!(feature(Some("xor"), None).group_type(), None);
    assert_eq!(feature(None, None).group_type(), None);
    assert!(feature(Some("xor"), None).is_variability_group());
    assert!(!feature(None, None).is_variability_group());
}

#[test]
fn abstract_features() {
    assert!(feature(None, Some(false)).is_abstract());
    assert!(!feature(None, Some(true)).is_abstract());
    assert!(!feature(None, None).is_abstract());
    assert_eq!(default_concrete(), Some(true));
}

#[test]
fn selection_of_a_configuration() {
    let config = ConfigElement {
        id: "C".to_string(),
        title: String::new(),
        tags: vec![
            entry("market", JsonValue::Text("EU".to_string())),
            entry("regulations", words(&["GDPR", "CRA"])),
        ],
        root_feature_id: "ROOT".to_string(),
        selected: vec!["A".to_string(), "B".to_string()],
        bindings: None,
    };
    assert!(config.is_feature_selected("A"));
    assert!(config.is_feature_selected("B"));
    assert!(!config.is_feature_selected("C"));
    assert!(!config.is_feature_selected(""));
    assert_eq!(config.market(), Some("EU".to_string()));
    assert_eq!(config.regulations(), Some(vec!["GDPR".to_string(), "CRA".to_string()]));
    assert!(config.has_tag("market"));
    assert!(!config.has_tag("Market"));
    assert_eq!(ElementCore::id(&config), "C");
}

#[test]
fn tags_of_requirements_and_use_cases() {
    let req = ReqElement {
        id: "R".to_string(),
        title: "Requirement".to_string(),
        tags: vec![
            entry("type", JsonValue::Text("functional".to_string())),
            entry("safety", JsonValue::Int(3)),
            entry("security", JsonValue::List(vec![Some("a".to_string()), None])),
        ],
        parent: None,
        derives_from: None,
    };
    assert_eq!(req.req_type(), Some("functional".to_string()));
    assert_eq!(req.safety_level(), None);
    assert_eq!(req.security_properties(), None);
    assert_eq!(ElementCore::title(&req), "Requirement");
    assert_eq!(ElementCore::tags(&req).len(), 3);
    let uc = UseCaseElement {
        id: "U".to_string(),
        title: String::new(),
        tags: vec![
            entry("actor", JsonValue::Text("driver".to_string())),
            entry("actor", JsonValue::Text("second".to_string())),
            entry("pre-condition", JsonValue::Text("parked".to_string())),
        ],
    };
    assert_eq!(uc.actor(), Some("driver".to_string()));
    assert_eq!(uc.precondition(), Some("parked".to_string()));
}

fn port(name: &str, direction: &str) -> SysmlPort {
    SysmlPort { name: name.to_string(), direction: direction.to_string(), protocol: "CAN".to_string() }
}

fn part(name: &str, part_type: &str) -> SysmlPart {
    SysmlPart { name: name.to_string(), part_type: part_type.to_string(), multiplicity: "1".to_string() }
}

#[test]
fn records_of_a_block() {
    let block = BlockDefinitionElement {
        id: "B".to_string(),
        title: String::new(),
        tags: vec![
            entry("stereotype", JsonValue::Text("block".to_string())),
            entry("sysml-references", words(&["X", "Y"])),
            entry("sysml-constraints", JsonValue::Text("no list".to_string())),
        ],
        properties: vec![SysmlProperty {
            name: "mass".to_string(),
            property_type: "Real".to_string(),
            default: String::new(),
            unit: "kg".to_string(),
        }],
        operations: vec![SysmlOperation {
            name: "start".to_string(),
            params: String::new(),
            returns: "bool".to_string(),
        }],
        ports: vec![port("p", "in"), port("q", "out"), port("p", "inout")],
        parts: vec![part("engine", "B-ENGINE")],
        connectors: vec![SysmlConnector {
            from: "p".to_string(),
            to: "q".to_string(),
            flow: "data".to_string(),
        }],
    };
    assert_eq!(block.stereotype(), Some("block".to_string()));
    assert_eq!(block.references(), vec!["X".to_string(), "Y".to_string()]);
    assert!(block.constraints().is_empty());
    assert_eq!(block.properties().len(), 1);
    assert_eq!(block.operations()[0].name, "start");
    assert_eq!(block.ports().len(), 3);
    assert_eq!(block.parts()[0].part_type, "B-ENGINE");
    assert_eq!(block.connectors()[0].flow, "data");
    assert_eq!(block.find_port("p").unwrap().direction, "in");
    assert_eq!(block.find_port("q").unwrap().direction, "out");
    assert!(block.find_port("r").is_none());
    assert_eq!(block.find_part("engine").unwrap().part_type, "B-ENGINE");
    assert!(block.find_part("wheel").is_none());
    let ibd = InternalBlockDiagramElement {
        id: "I".to_string(),
        title: String::new(),
        tags: vec![entry("ibd-references", words(&["B"]))],
        parts: vec![part("engine", "B-ENGINE")],
        ports: Vec::new(),
        connectors: Vec::new(),
    };
    assert_eq!(ibd.references(), vec!["B".to_string()]);
    assert_eq!(ibd.parts().len(), 1);
    assert!(ibd.ports().is_empty());
    assert!(ibd.connectors().is_empty());
}

#[test]
fn elements_by_kind() {
    let bare = |id: &str| (id.to_string(), format!("title of {}", id), Vec::new());
    let (id, title, tags) = bare("S");
    let seq = Element::SequenceDiagram(SequenceDiagramElement { id, title, tags });
    let (id, title, tags) = bare("M");
    let imp = Element::Implementation(ImplementationElement { id, title, tags });
    let (id, title, tags) = bare("T");
    let tc = Element::TestCase(TestCaseElement { id, title, tags });
    let f = Element::Feature(feature(None, None));
    assert_eq!(seq.id(), "S");
    assert_eq!(imp.title(), "title of M");
    assert_eq!(f.id(), "F");
    assert_eq!(f.title(), "Feature");
    assert_eq!(f.kind_name(), "feature");
    assert_eq!(seq.kind_name(), "sequence_diagram");
    assert_eq!(imp.kind_name(), "implementation");
    assert_eq!(tc.kind_name(), "test_case");
    assert!(f.as_feature().is_some());
    assert!(f.as_req().is_none());
    assert!(f.as_config().is_none());
    assert!(seq.as_sequence_diagram().is_some());
    assert!(seq.as_feature().is_none());
    assert!(imp.as_implementation().is_some());
    assert!(tc.as_test_case().is_some());
    assert!(tc.as_use_case().is_none());
    assert!(tc.as_block_definition().is_none());
    assert!(tc.as_internal_block_diagram().is_none());
}

#[test]
fn first_entry_of_a_key_counts() {
    let entries = vec![entry("a", 1), entry("b", 2), entry("a", 3)];
    assert_eq!(find(&entries, &"a".to_string()), Some(0));
    assert_eq!(find(&entries, &"b".to_string()), Some(1));
    assert_eq!(find(&entries, &"c".to_string()), None);
    assert_eq!(get(&entries, &"a".to_string()), Some(&1));
    assert_eq!(get(&entries, &"c".to_string()), None);
}

#[test]
fn values() {
    assert_eq!(JsonValue::Int(7).as_i64(), Some(7));
    assert_eq!(JsonValue::Bool(true).as_i64(), None);
    assert_eq!(JsonValue::Bool(true).as_bool(), Some(true));
    assert_eq!(JsonValue::Text("t".to_string()).as_str(), Some(&"t".to_string()));
    assert_eq!(JsonValue::Null.as_str(), None);
    assert!(JsonValue::Null.is_null());
    assert!(!JsonValue::Other.is_null());
    assert!(JsonValue::Bool(false).is_boolean());
    assert!(!JsonValue::Int(0).is_boolean());
}

#[test]
fn names_in_a_tag() {
    assert_eq!(parse_string_or_array(&JsonValue::Text("F2".to_string())), vec!["F2".to_string()]);
    assert_eq!(
        parse_string_or_array(&JsonValue::List(vec![Some("A".to_string()), None, Some("B".to_string())])),
        vec!["A".to_string(), "B".to_string()]
    );
    assert!(parse_string_or_array(&JsonValue::Int(3)).is_empty());
    assert!(parse_string_or_array(&JsonValue::Null).is_empty());
    let tags = vec![entry("one", JsonValue::Text("x".to_string())), entry("many", words(&["a", "b"]))];
    assert_eq!(tag_text(&tags, "one"), Some("x".to_string()));
    assert_eq!(tag_text(&tags, "many"), None);
    assert_eq!(tag_texts(&tags, "many"), Some(vec!["a".to_string(), "b".to_string()]));
    assert_eq!(tag_texts(&tags, "one"), None);
    assert_eq!(tag_texts(&tags, "none"), None);
    assert!(has_tag(&tags, "one"));
    assert!(!has_tag(&tags, "two"));
}

#[test]
fn numerals() {
    assert_eq!(decimal(0), "0");
    assert_eq!(decimal(9), "9");
    assert_eq!(decimal(10), "10");
    assert_eq!(decimal(1234567890), "1234567890");
    assert_eq!(decimal(u64::MAX), "18446744073709551615");
    assert_eq!(signed_decimal(0), "0");
    assert_eq!(signed_decimal(-1), "-1");
    assert_eq!(signed_decimal(i64::MAX), "9223372036854775807");
    assert_eq!(signed_decimal(i64::MIN), "-9223372036854775808");
}

#[test]
fn white_space_and_trimming() {
    for c in [' ', '\t', '\n', '\r', '\u{0B}', '\u{0C}', '\u{85}', '\u{A0}', '\u{2003}', '\u{3000}'] {
        assert!(is_whitespace(c));
    }
    for c in ['a', '0', '-', '\u{200B}', '\u{FEFF}', '\u{8}'] {
        assert!(!is_whitespace(c));
    }
    for code in 0u32..0x3100 {
        if let Some(c) = char::from_u32(code) {
            assert_eq!(is_whitespace(c), c.is_whitespace());
        }
    }
    assert_eq!(string_of(&trim_chars(&chars_of("  a b \t"))), "a b");
    assert_eq!(string_of(&trim_chars(&chars_of(" \n "))), "");
    assert_eq!(string_of(&trim_chars(&chars_of("x"))), "x");
    assert_eq!(string_of(&chars_of("héllo")), "héllo");
    assert_eq!(chars_of("héllo").len(), 5);
}

#[test]
fn lists_in_messages() {
    assert_eq!(show_list(&[]), "");
    assert_eq!(show_list(&["a".to_string()]), "\"a\"");
    assert_eq!(show_list(&["a".to_string(), "b".to_string()]), "\"a\", \"b\"");
}

fn requirement(id: &str) -> Element {
    Element::Req(ReqElement {
        id: id.to_string(),
        title: String::new(),
        tags: Vec::new(),
        parent: None,
        derives_from: None,
    })
}

#[test]
fn registry_keeps_the_order_of_its_keys() {
    let mut registry = Registry::new();
    assert_eq!(registry.len(), 0);
    registry = registry.insert("b".to_string(), requirement("R-B"));
    registry = registry.insert("a".to_string(), requirement("R-A"));
    registry = registry.insert("c".to_string(), requirement("R-C"));
    assert_eq!(registry.len(), 3);
    assert_eq!(registry.entry(0).key, "b");
    assert_eq!(registry.entry(1).key, "a");
    assert_eq!(registry.entry(2).key, "c");
    assert_eq!(registry.find(&"a".to_string()), Some(1));
    assert_eq!(registry.find(&"d".to_string()), None);
    assert_eq!(registry.get(&"c".to_string()).unwrap().id(), "R-C");
    assert!(registry.get(&"".to_string()).is_none());
}

#[test]
fn a_key_that_comes_again_keeps_its_place() {
    let mut registry = Registry::new();
    registry = registry.insert("a".to_string(), requirement("first"));
    registry = registry.insert("b".to_string(), requirement("second"));
    registry = registry.insert("a".to_string(), requirement("third"));
    assert_eq!(registry.len(), 2);
    assert_eq!(registry.entry(0).key, "a");
    assert_eq!(registry.entry(0).value.id(), "third");
    assert_eq!(registry.entry(1).value.id(), "second");
    let built = Registry::from_entries(vec![
        entry("a", requirement("first")),
        entry("b", requirement("second")),
        entry("a", requirement("third")),
        entry("c", requirement("fourth")),
    ]);
    assert_eq!(built.len(), 3);
    assert_eq!(built.get(&"a".to_string()).unwrap().id(), "third");
    assert_eq!(built.find(&"a".to_string()), Some(0));
    assert_eq!(built.find(&"c".to_string()), Some(2));
    assert_eq!(Registry::from_entries(Vec::new()).len(), 0);
}

#[test]
fn names_at_their_first_places() {
    let ids: Vec<String> = ["b", "a", "b", "c", "a", "b"].iter().map(|s| s.to_string()).collect();
    assert_eq!(
        assembly_plugin::types::config::distinct(&ids),
        vec!["b".to_string(), "a".to_string(), "c".to_string()]
    );
    assert!(assembly_plugin::types::config::distinct(&[]).is_empty());
    let firsts: Vec<bool> =
        (0..ids.len()).map(|i| assembly_plugin::types::config::is_first_time(&ids, i)).collect();
    assert_eq!(firsts, vec![true, true, false, true, false, false]);
}
