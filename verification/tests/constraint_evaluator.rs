use assembly_plugin::constraint_evaluator::{
    apply_arith, evaluate_constraint, evaluate_expr, EvalError, Value,
};
use assembly_plugin::constraint_parser::{parse_constraint, ArithOp, Expr};
use assembly_plugin::types::{
    ConfigElement, Element, Entry, FeatureElement, JsonValue, ParameterSchema, Registry,
};

fn reg(entries: &Vec<Entry<Element>>) -> Registry {
    Registry::from_entries(entries.clone())
}

fn create_test_config(
    selected: Vec<String>,
    bindings: Vec<Entry<Vec<Entry<JsonValue>>>>,
) -> ConfigElement {
    ConfigElement {
        id: "TEST-CFG".to_string(),
        title: "Test Config".to_string(),
        tags: Vec::new(),
        root_feature_id: "ROOT".to_string(),
        selected,
        bindings: Some(bindings),
    }
}

fn integer_schema(min: i64, max: i64, default: i64) -> ParameterSchema {
    ParameterSchema {
        param_type: "Integer".to_string(),
        range: Some((min, max)),
        values: None,
        unit: None,
        default: JsonValue::Int(default),
        description: None,
    }
}

fn boolean_schema(default: bool) -> ParameterSchema {
    ParameterSchema {
        param_type: "Boolean".to_string(),
        range: None,
        values: None,
        unit: None,
        default: JsonValue::Bool(default),
        description: None,
    }
}

fn feature(id: &str, params: Vec<Entry<ParameterSchema>>) -> Entry<Element> {
    Entry {
        key: id.to_string(),
        value: Element::Feature(FeatureElement {
            id: id.to_string(),
            title: "Test".to_string(),
            tags: Vec::new(),
            parent: None,
            concrete: Some(true),
            group: None,
            parameters: Some(params),
            constraints: None,
            requires: None,
        }),
    }
}

fn entry<V>(key: &str, value: V) -> Entry<V> {
    Entry { key: key.to_string(), value }
}

#[test]
fn test_evaluate_simple_comparison() {
    let mut registry: Vec<Entry<Element>> = Vec::new();
    registry.push(feature("F-TEST", vec![entry("size", integer_schema(1, 100, 50))]));

    let bindings = vec![entry("F-TEST", vec![entry("size", JsonValue::Int(75))])];
    let config = create_test_config(vec!["F-TEST".to_string()], bindings);

    // Test: F-TEST.size >= 50
    let expr = parse_constraint("F-TEST.size >= 50").unwrap();
    let result = evaluate_constraint(&expr, &config, &reg(&registry)).unwrap();
    assert!(result, "Expected 75 >= 50 to be true");

    // Test: F-TEST.size < 50
    let expr = parse_constraint("F-TEST.size < 50").unwrap();
    let result = evaluate_constraint(&expr, &config, &reg(&registry)).unwrap();
    assert!(!result, "Expected 75 < 50 to be false");
}

#[test]
fn test_evaluate_implication() {
    let mut registry: Vec<Entry<Element>> = Vec::new();
    registry.push(feature(
        "F-TEST",
        vec![entry("enabled", boolean_schema(false)), entry("size", integer_schema(1, 100, 50))],
    ));

    // Test: enabled => size >= 50 (enabled=true, size=75)
    let bindings = vec![entry(
        "F-TEST",
        vec![entry("enabled", JsonValue::Bool(true)), entry("size", JsonValue::Int(75))],
    )];
    let config = create_test_config(vec!["F-TEST".to_string()], bindings);

    let expr = parse_constraint("F-TEST.enabled => F-TEST.size >= 50").unwrap();
    let result = evaluate_constraint(&expr, &config, &reg(&registry)).unwrap();
    assert!(result, "Expected implication to be true");
}

#[test]
fn test_evaluate_feature_selected() {
    let registry: Vec<Entry<Element>> = Vec::new();
    let config = create_test_config(vec!["F-CACHE".to_string()], Vec::new());

    let expr = parse_constraint("F-CACHE is selected").unwrap();
    let result = evaluate_constraint(&expr, &config, &reg(&registry)).unwrap();
    assert!(result, "Expected F-CACHE to be selected");

    let expr = parse_constraint("F-OTHER is selected").unwrap();
    let result = evaluate_constraint(&expr, &config, &reg(&registry)).unwrap();
    assert!(!result, "Expected F-OTHER to not be selected");
}

#[test]
fn test_evaluate_arithmetic() {
    let mut registry: Vec<Entry<Element>> = Vec::new();
    registry.push(feature("F-TEST", vec![entry("size", integer_schema(1, 1000, 100))]));

    let bindings = vec![entry("F-TEST", vec![entry("size", JsonValue::Int(100))])];
    let config = create_test_config(vec!["F-TEST".to_string()], bindings);

    // Test: F-TEST.size + 50 >= 140
    let expr = parse_constraint("F-TEST.size + 50 >= 140").unwrap();
    let result = evaluate_constraint(&expr, &config, &reg(&registry)).unwrap();
    assert!(result, "Expected 100 + 50 >= 140 to be true");
}

fn plain_world() -> (ConfigElement, Vec<Entry<Element>>) {
    let mut registry: Vec<Entry<Element>> = Vec::new();
    registry.push(feature(
        "F-TEST",
        vec![
            entry("enabled", boolean_schema(false)),
            entry("size", integer_schema(1, 100, 50)),
            entry(
                "mode",
                ParameterSchema {
                    param_type: "Enum".to_string(),
                    range: None,
                    values: Some(vec!["debug".to_string(), "info".to_string()]),
                    unit: None,
                    default: JsonValue::Text("info".to_string()),
                    description: None,
                },
            ),
            entry(
                "odd",
                ParameterSchema {
                    param_type: "Integer".to_string(),
                    range: None,
                    values: None,
                    unit: None,
                    default: JsonValue::Null,
                    description: None,
                },
            ),
        ],
    ));
    registry.push(entry(
        "CONFIG:TEST-CFG",
        Element::Config(create_test_config(vec!["F-TEST".to_string()], Vec::new())),
    ));
    let bindings = vec![entry("F-TEST", vec![entry("size", JsonValue::Int(10))])];
    (create_test_config(vec!["F-TEST".to_string()], bindings), registry)
}

fn verdict(source: &str) -> Result<bool, EvalError> {
    let (config, registry) = plain_world();
    evaluate_constraint(&parse_constraint(source).unwrap(), &config, &reg(&registry))
}

fn value(source: &str) -> Result<Value, EvalError> {
    let (config, registry) = plain_world();
    evaluate_expr(&parse_constraint(source).unwrap(), &config, &reg(&registry))
}

#[test]
fn implication_with_false_antecedent_is_true() {
    // enabled defaults to false, size is bound to 10
    assert_eq!(verdict("F-TEST.enabled => F-TEST.size >= 50").unwrap(), true);
    assert_eq!(verdict("false => F-NONE.size >= 50").unwrap(), true);
    assert_eq!(verdict("false => 1 / 0 == 1").unwrap(), true);
    assert_eq!(verdict("false => (((").unwrap(), true);
    assert_eq!(verdict("true => F-TEST.size >= 50").unwrap(), false);
    assert_eq!(verdict("true => F-TEST.size >= 5").unwrap(), true);
}

#[test]
fn default_is_used_where_nothing_is_bound() {
    assert_eq!(value("F-TEST.mode").unwrap(), Value::String("info".to_string()));
    assert_eq!(value("F-TEST.size").unwrap(), Value::Int(10));
    assert_eq!(value("F-TEST.enabled").unwrap(), Value::Bool(false));
}

#[test]
fn arithmetic_is_exact() {
    assert_eq!(value("7 + 5").unwrap(), Value::Int(12));
    assert_eq!(value("7 - 5").unwrap(), Value::Int(2));
    assert_eq!(value("7 * 5").unwrap(), Value::Int(35));
    assert_eq!(value("7 / 2").unwrap(), Value::Int(3));
    assert_eq!(value("F-TEST.size * 3").unwrap(), Value::Int(30));
    // right association: 20 - (5 - 3)
    assert_eq!(value("20 - 5 - 3").unwrap(), Value::Int(18));
    assert_eq!(apply_arith(ArithOp::Div, -7, 2).unwrap(), Value::Int(-3));
    assert_eq!(apply_arith(ArithOp::Div, 7, -2).unwrap(), Value::Int(-3));
    assert_eq!(apply_arith(ArithOp::Div, -7, -2).unwrap(), Value::Int(3));
    assert_eq!(apply_arith(ArithOp::Sub, i64::MIN, -1).unwrap(), Value::Int(i64::MIN + 1));
    assert_eq!(apply_arith(ArithOp::Mul, i64::MIN, 1).unwrap(), Value::Int(i64::MIN));
}

#[test]
fn comparisons_by_type() {
    assert_eq!(verdict("3 < 4").unwrap(), true);
    assert_eq!(verdict("3 > 4").unwrap(), false);
    assert_eq!(verdict("4 <= 4").unwrap(), true);
    assert_eq!(verdict("4 != 4").unwrap(), false);
    assert_eq!(verdict("true == true").unwrap(), true);
    assert_eq!(verdict("true != false").unwrap(), true);
    assert_eq!(verdict("F-TEST.mode == info").unwrap(), true);
    assert_eq!(verdict("F-TEST.mode != \"info\"").unwrap(), false);
}

#[test]
fn the_leftmost_operator_is_applied_last() {
    assert_eq!(value("2 * 3 + 4").unwrap(), Value::Int(14));
    assert_eq!(value("1 - 2 + 3").unwrap(), Value::Int(-4));
    assert_eq!(value("8 / 2 - 1").unwrap(), Value::Int(8));
    assert_eq!(value("1 + 2 * 3").unwrap(), Value::Int(7));
    assert_eq!(verdict("F-TEST.size - 2 + 3 == 5").unwrap(), true);
}

#[test]
fn signed_numbers_are_numbers() {
    assert_eq!(value("-5").unwrap(), Value::Int(-5));
    assert_eq!(verdict("F-TEST.size >= -5").unwrap(), true);
    assert_eq!(verdict("F-TEST.size <= -5").unwrap(), false);
    assert_eq!(value("F-TEST.size + -5").unwrap(), Value::Int(5));
    assert_eq!(value("F-TEST.size - +5").unwrap(), Value::Int(5));
}

#[test]
fn negation_of_an_operand() {
    assert_eq!(verdict("!false == true").unwrap(), true);
    assert_eq!(verdict("!F-TEST.enabled && F-TEST is selected").unwrap(), true);
    assert_eq!(verdict("!!F-TEST.enabled").unwrap(), false);
    assert!(matches!(verdict("!F-TEST.size == 1"), Err(EvalError::ExpectedBoolean(Value::Int(10)))));
}

#[test]
fn logical_operators() {
    assert_eq!(verdict("true && false").unwrap(), false);
    assert_eq!(verdict("true || false").unwrap(), true);
    assert_eq!(verdict("!false").unwrap(), true);
    assert_eq!(verdict("!F-TEST is selected").unwrap(), false);
    // no short circuit but in the implication
    assert!(verdict("true || 1 / 0 == 1").is_err());
    assert!(verdict("false && 1 / 0 == 1").is_err());
}

fn message_of(source: &str) -> String {
    verdict(source).unwrap_err().message()
}

#[test]
fn every_failure_has_its_input() {
    assert!(matches!(verdict("1 / 0 == 1"), Err(EvalError::DivisionByZero)));
    assert!(matches!(verdict("true < false"), Err(EvalError::BooleanComparison)));
    assert!(matches!(verdict("a < b"), Err(EvalError::StringComparison)));
    assert!(matches!(verdict("1 == true"), Err(EvalError::TypeMismatch)));
    assert!(matches!(verdict("F-NONE.size > 1"), Err(EvalError::FeatureNotFound(_))));
    assert!(matches!(verdict("CONFIG:TEST-CFG.size > 1"), Err(EvalError::FeatureNotFound(_))));
    assert!(matches!(verdict("F-TEST.depth > 1"), Err(EvalError::ParameterNotFound { .. })));
    assert!(matches!(verdict("F-TEST.odd > 1"), Err(EvalError::CannotConvert)));
    assert!(matches!(verdict("1 + true == 2"), Err(EvalError::ExpectedInteger(Value::Bool(true)))));
    assert!(matches!(verdict("1 && true"), Err(EvalError::ExpectedBoolean(Value::Int(1)))));
    assert!(matches!(verdict("7"), Err(EvalError::ExpectedBoolean(Value::Int(7)))));
    assert!(matches!(
        verdict("9223372036854775807 + 1 > 0"),
        Err(EvalError::Overflow)
    ));
    assert!(matches!(apply_arith(ArithOp::Div, i64::MIN, -1), Err(EvalError::Overflow)));
    assert!(matches!(apply_arith(ArithOp::Mul, i64::MAX, 2), Err(EvalError::Overflow)));
    assert!(matches!(apply_arith(ArithOp::Sub, i64::MIN, 1), Err(EvalError::Overflow)));
    assert!(matches!(
        Value::Int(1).as_string(),
        Err(EvalError::ExpectedString(Value::Int(1)))
    ));
}

#[test]
fn messages_of_failures() {
    assert_eq!(message_of("1 / 0 == 1"), "Division by zero");
    assert_eq!(message_of("true < false"), "Comparison operator not supported for booleans");
    assert_eq!(message_of("a < b"), "Comparison operator not supported for strings");
    assert_eq!(message_of("1 == true"), "Type mismatch in comparison");
    assert_eq!(message_of("F-NONE.size > 1"), "Feature 'F-NONE' not found");
    assert_eq!(message_of("F-TEST.depth > 1"), "Parameter 'depth' not found in feature 'F-TEST'");
    assert_eq!(message_of("1 + true == 2"), "Expected integer, got Bool(true)");
    assert_eq!(message_of("abc"), "Expected boolean, got String(\"abc\")");
    assert_eq!(message_of("0 - 12 && true"), "Expected boolean, got Int(-12)");
    assert_eq!(
        Value::Int(i64::MIN).as_string().unwrap_err().message(),
        "Expected string, got Int(-9223372036854775808)"
    );
}

#[test]
fn values_as_their_types() {
    assert_eq!(Value::Int(5).as_int().unwrap(), 5);
    assert_eq!(Value::Bool(true).as_bool().unwrap(), true);
    assert_eq!(Value::String("x".to_string()).as_string().unwrap(), "x");
    assert!(Value::Bool(true).as_int().is_err());
}

#[test]
fn literal_expression_evaluates_to_itself() {
    let (config, registry) = plain_world();
    assert_eq!(evaluate_expr(&Expr::IntLiteral(3), &config, &reg(&registry)).unwrap(), Value::Int(3));
    assert_eq!(
        evaluate_expr(&Expr::StringLiteral("s".to_string()), &config, &reg(&registry)).unwrap(),
        Value::String("s".to_string())
    );
}
