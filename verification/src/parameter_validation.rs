//! Validation of the parameter bindings of a configuration.
//!
//! For every selected feature each parameter of its schema is checked: the
//! bound value, or the default where nothing is bound, must be of the
//! parameter's type, within its range, among its values. Then every
//! constraint of every selected feature is parsed and evaluated. What fails is
//! collected in the order in which it is met; nothing stops the check.

use crate::constraint_evaluator::{evaluate_constraint, fault_text, verdict, EvalError, Fault};
use crate::constraint_parser::{parse_constraint, parse_constraint_spec};
use crate::text::{
    copy_strings, decimal, decimal_text, quoted_list, show_list, signed_decimal,
    signed_decimal_text, text_list,
};
use crate::constraint_laws::{feature_under, lemma_value_by_choice, same_choice, same_features};
use crate::types::config::{
    contains_name, distinct_names, first_time, is_first_time, lemma_distinct_names,
    lemma_distinct_names_grow, names, ConfigElement,
};
use crate::types::element::Element;
use crate::types::registry::Registry;
use crate::types::entry::{get, value_at, Entry};
use crate::types::feature::ParameterSchema;
use crate::types::json::JsonValue;
use vstd::prelude::*;

verus! {

/// What a check of the bindings of a configuration found.
#[derive(Debug, Clone)]
pub struct ParameterValidationResult {
    pub is_valid: bool,
    pub message: String,
    pub errors: Vec<String>,
    pub num_features_checked: usize,
    pub num_parameters_checked: usize,
}

/// One finding of the check.
#[derive(Debug, Clone)]
pub enum ParameterIssue {
    /// The configuration selects what is no feature of the registry.
    UnknownFeature { config_id: String, feature_id: String },
    /// Nothing is bound to the parameter and its schema has no default.
    NoValue { feature_id: String, param_name: String },
    /// The value of an integer parameter is no integer.
    ExpectedInteger { feature_id: String, param_name: String, got: String },
    /// The value of an integer parameter lies outside its range.
    OutOfRange { feature_id: String, param_name: String, value: i64, min: i64, max: i64 },
    /// The value of a boolean parameter is no boolean.
    ExpectedBoolean { feature_id: String, param_name: String, got: String },
    /// The value of an enumeration parameter is no string.
    ExpectedEnumString { feature_id: String, param_name: String, got: String },
    /// The value of an enumeration parameter is none of its values.
    NotInEnum { feature_id: String, param_name: String, value: String, allowed: Vec<String> },
    /// The schema names a type that is not known.
    UnknownType { feature_id: String, param_name: String, param_type: String },
    /// The constraint evaluates to false.
    Violated { feature_id: String, constraint: String },
    /// The constraint cannot be evaluated.
    EvaluationFailed { feature_id: String, constraint: String, error: EvalError },
}

/// A finding with its texts as sequences of characters.
pub ghost enum Issue {
    UnknownFeature { config: Seq<char>, feature: Seq<char> },
    NoValue { feature: Seq<char>, param: Seq<char> },
    ExpectedInteger { feature: Seq<char>, param: Seq<char>, got: Seq<char> },
    OutOfRange { feature: Seq<char>, param: Seq<char>, value: i64, min: i64, max: i64 },
    ExpectedBoolean { feature: Seq<char>, param: Seq<char>, got: Seq<char> },
    ExpectedEnumString { feature: Seq<char>, param: Seq<char>, got: Seq<char> },
    NotInEnum { feature: Seq<char>, param: Seq<char>, value: Seq<char>, allowed: Seq<Seq<char>> },
    UnknownType { feature: Seq<char>, param: Seq<char>, kind: Seq<char> },
    Violated { feature: Seq<char>, constraint: Seq<char> },
    EvaluationFailed { feature: Seq<char>, constraint: Seq<char>, fault: Fault },
}

impl View for ParameterIssue {
    type V = Issue;

    open spec fn view(&self) -> Issue {
        match self {
            ParameterIssue::UnknownFeature { config_id, feature_id } => Issue::UnknownFeature {
                config: config_id@,
                feature: feature_id@,
            },
            ParameterIssue::NoValue { feature_id, param_name } => Issue::NoValue {
                feature: feature_id@,
                param: param_name@,
            },
            ParameterIssue::ExpectedInteger { feature_id, param_name, got } => Issue::ExpectedInteger {
                feature: feature_id@,
                param: param_name@,
                got: got@,
            },
            ParameterIssue::OutOfRange { feature_id, param_name, value, min, max } => Issue::OutOfRange {
                feature: feature_id@,
                param: param_name@,
                value: *value,
                min: *min,
                max: *max,
            },
            ParameterIssue::ExpectedBoolean { feature_id, param_name, got } => Issue::ExpectedBoolean {
                feature: feature_id@,
                param: param_name@,
                got: got@,
            },
            ParameterIssue::ExpectedEnumString {
                feature_id,
                param_name,
                got,
            } => Issue::ExpectedEnumString { feature: feature_id@, param: param_name@, got: got@ },
            ParameterIssue::NotInEnum { feature_id, param_name, value, allowed } => Issue::NotInEnum {
                feature: feature_id@,
                param: param_name@,
                value: value@,
                allowed: text_list(allowed@),
            },
            ParameterIssue::UnknownType { feature_id, param_name, param_type } => Issue::UnknownType {
                feature: feature_id@,
                param: param_name@,
                kind: param_type@,
            },
            ParameterIssue::Violated { feature_id, constraint } => Issue::Violated {
                feature: feature_id@,
                constraint: constraint@,
            },
            ParameterIssue::EvaluationFailed {
                feature_id,
                constraint,
                error,
            } => Issue::EvaluationFailed {
                feature: feature_id@,
                constraint: constraint@,
                fault: error@,
            },
        }
    }
}

/// How a value is shown in a message.
pub open spec fn json_text(v: JsonValue) -> Seq<char> {
    match v {
        JsonValue::Null => "Null"@,
        JsonValue::Bool(b) => if b {
            "Bool(true)"@
        } else {
            "Bool(false)"@
        },
        JsonValue::Int(n) => "Number("@ + signed_decimal_text(n as int) + ")"@,
        JsonValue::Text(s) => "String(\""@ + s@ + "\")"@,
        JsonValue::List(_) => "Array"@,
        JsonValue::Other => "Other"@,
    }
}

/// The head of a message about a parameter.
pub open spec fn parameter_head(feature: Seq<char>, param: Seq<char>) -> Seq<char> {
    "Feature '"@ + feature + "', parameter '"@ + param + "': "@
}

/// The message of a finding.
pub open spec fn issue_text(issue: Issue) -> Seq<char> {
    match issue {
        Issue::UnknownFeature { config, feature } => "Configuration '"@ + config
            + "' selects non-existent feature '"@ + feature + "'"@,
        Issue::NoValue { feature, param } => parameter_head(feature, param)
            + "No binding provided and no default value defined"@,
        Issue::ExpectedInteger { feature, param, got } => parameter_head(feature, param)
            + "Expected type Integer, got "@ + got,
        Issue::OutOfRange { feature, param, value, min, max } => parameter_head(feature, param)
            + "Value "@ + signed_decimal_text(value as int) + " out of range ["@ + signed_decimal_text(
            min as int,
        ) + ", "@ + signed_decimal_text(max as int) + "]"@,
        Issue::ExpectedBoolean { feature, param, got } => parameter_head(feature, param)
            + "Expected type Boolean, got "@ + got,
        Issue::ExpectedEnumString { feature, param, got } => parameter_head(feature, param)
            + "Expected type String (for Enum), got "@ + got,
        Issue::NotInEnum { feature, param, value, allowed } => parameter_head(feature, param)
            + "Value '"@ + value + "' not in enum ["@ + quoted_list(allowed, allowed.len() as int)
            + "]"@,
        Issue::UnknownType { feature, param, kind } => parameter_head(feature, param)
            + "Unknown parameter type '"@ + kind + "'"@,
        Issue::Violated { feature, constraint } => "Feature '"@ + feature + "': Constraint '"@
            + constraint + "' violated"@,
        Issue::EvaluationFailed { feature, constraint, fault } => "Feature '"@ + feature
            + "': Failed to evaluate constraint '"@ + constraint + "': "@ + fault_text(fault),
    }
}

/// The value is of the schema's type, within its range, among its values.
pub open spec fn conforms(schema: ParameterSchema, v: JsonValue) -> bool {
    if schema.param_type@ == "Integer"@ {
        v matches JsonValue::Int(n) && (schema.range matches Some(r) ==> r.0 <= n <= r.1)
    } else if schema.param_type@ == "Boolean"@ {
        v is Bool
    } else if schema.param_type@ == "Enum"@ {
        v matches JsonValue::Text(s) && (schema.values matches Some(vs) ==> names(vs@, s@))
    } else {
        false
    }
}

/// What is wrong with an integer parameter's value, if anything.
pub open spec fn integer_issue(
    feature: Seq<char>,
    param: Seq<char>,
    schema: ParameterSchema,
    v: JsonValue,
) -> Option<Issue> {
    match v {
        JsonValue::Int(n) => match schema.range {
            Some(r) => if n < r.0 || n > r.1 {
                Some(Issue::OutOfRange { feature, param, value: n, min: r.0, max: r.1 })
            } else {
                None
            },
            None => None,
        },
        _ => Some(Issue::ExpectedInteger { feature, param, got: json_text(v) }),
    }
}

/// What is wrong with a boolean parameter's value, if anything.
pub open spec fn boolean_issue(feature: Seq<char>, param: Seq<char>, v: JsonValue) -> Option<Issue> {
    if v is Bool {
        None
    } else {
        Some(Issue::ExpectedBoolean { feature, param, got: json_text(v) })
    }
}

/// What is wrong with an enumeration parameter's value, if anything.
pub open spec fn enum_issue(
    feature: Seq<char>,
    param: Seq<char>,
    schema: ParameterSchema,
    v: JsonValue,
) -> Option<Issue> {
    match v {
        JsonValue::Text(s) => match schema.values {
            Some(vs) => if names(vs@, s@) {
                None
            } else {
                Some(Issue::NotInEnum { feature, param, value: s@, allowed: text_list(vs@) })
            },
            None => None,
        },
        _ => Some(Issue::ExpectedEnumString { feature, param, got: json_text(v) }),
    }
}

/// What is wrong with a value under a schema, if anything.
pub open spec fn value_issue(
    feature: Seq<char>,
    param: Seq<char>,
    schema: ParameterSchema,
    v: JsonValue,
) -> Option<Issue> {
    if schema.param_type@ == "Integer"@ {
        integer_issue(feature, param, schema, v)
    } else if schema.param_type@ == "Boolean"@ {
        boolean_issue(feature, param, v)
    } else if schema.param_type@ == "Enum"@ {
        enum_issue(feature, param, schema, v)
    } else {
        Some(Issue::UnknownType { feature, param, kind: schema.param_type@ })
    }
}

/// What is wrong with a parameter, if anything: the bound value is checked,
/// and the default where nothing is bound; without either there is no value.
pub open spec fn parameter_issue(
    feature: Seq<char>,
    param: Seq<char>,
    schema: ParameterSchema,
    bound: Option<JsonValue>,
) -> Option<Issue> {
    match bound {
        Some(v) => value_issue(feature, param, schema, v),
        None => if schema.default is Null {
            Some(Issue::NoValue { feature, param })
        } else {
            value_issue(feature, param, schema, schema.default)
        },
    }
}

/// The list with the finding at its end, where there is one.
pub open spec fn with_issue(found: Seq<Issue>, issue: Option<Issue>) -> Seq<Issue> {
    match issue {
        Some(i) => found.push(i),
        None => found,
    }
}

/// The values that the configuration binds to the parameters of the feature.
pub open spec fn bindings_of(cfg: ConfigElement, feature: Seq<char>) -> Seq<Entry<JsonValue>> {
    match cfg.bindings {
        Some(b) => match value_at(b@, feature) {
            Some(fb) => fb@,
            None => Seq::empty(),
        },
        None => Seq::empty(),
    }
}

/// The findings on the first `upto` parameters of a feature.
pub open spec fn parameters_issues(
    feature: Seq<char>,
    ps: Seq<Entry<ParameterSchema>>,
    bound: Seq<Entry<JsonValue>>,
    upto: int,
) -> Seq<Issue>
    decreases upto,
{
    if upto <= 0 {
        Seq::empty()
    } else {
        with_issue(
            parameters_issues(feature, ps, bound, upto - 1),
            parameter_issue(
                feature,
                ps[upto - 1].key@,
                ps[upto - 1].value,
                value_at(bound, ps[upto - 1].key@),
            ),
        )
    }
}

/// The parameters of the feature that the registry holds under `feature`,
/// where it holds one and the feature has any.
pub open spec fn schemas_of(es: Seq<Entry<Element>>, feature: Seq<char>) -> Option<
    Seq<Entry<ParameterSchema>>,
> {
    match value_at(es, feature) {
        Some(Element::Feature(f)) => match f.parameters {
            Some(ps) => if ps@.len() > 0 {
                Some(ps@)
            } else {
                None
            },
            None => None,
        },
        _ => None,
    }
}

/// The registry holds a feature under the key.
pub open spec fn holds_feature(es: Seq<Entry<Element>>, key: Seq<char>) -> bool {
    value_at(es, key) matches Some(e) && e is Feature
}

/// The findings on the bindings of one selected feature.
pub open spec fn selected_issues(
    es: Seq<Entry<Element>>,
    cfg: ConfigElement,
    config: Seq<char>,
    feature: Seq<char>,
) -> Seq<Issue> {
    if !holds_feature(es, feature) {
        seq![Issue::UnknownFeature { config, feature }]
    } else {
        match schemas_of(es, feature) {
            Some(ps) => parameters_issues(feature, ps, bindings_of(cfg, feature), ps.len() as int),
            None => Seq::empty(),
        }
    }
}

/// The findings on the bindings of the first `upto` selected features. A
/// feature that is selected again adds nothing.
pub open spec fn binding_issues(
    es: Seq<Entry<Element>>,
    cfg: ConfigElement,
    config: Seq<char>,
    upto: int,
) -> Seq<Issue>
    decreases upto,
{
    if upto <= 0 {
        Seq::empty()
    } else if first_time(cfg.selected@, upto - 1) {
        binding_issues(es, cfg, config, upto - 1) + selected_issues(
            es,
            cfg,
            config,
            cfg.selected@[upto - 1]@,
        )
    } else {
        binding_issues(es, cfg, config, upto - 1)
    }
}

/// The number of features with parameters among the first `upto` selected
/// ones, each counted once.
pub open spec fn features_checked(es: Seq<Entry<Element>>, cfg: ConfigElement, upto: int) -> nat
    decreases upto,
{
    if upto <= 0 {
        0
    } else {
        features_checked(es, cfg, upto - 1) + if first_time(cfg.selected@, upto - 1) && schemas_of(
            es,
            cfg.selected@[upto - 1]@,
        ) is Some {
            1nat
        } else {
            0nat
        }
    }
}

/// The number of parameters checked for the first `upto` selected features,
/// each feature counted once.
pub open spec fn parameters_checked(es: Seq<Entry<Element>>, cfg: ConfigElement, upto: int) -> nat
    decreases upto,
{
    if upto <= 0 {
        0
    } else {
        parameters_checked(es, cfg, upto - 1) + if first_time(cfg.selected@, upto - 1) {
            match schemas_of(es, cfg.selected@[upto - 1]@) {
                Some(ps) => ps.len(),
                None => 0nat,
            }
        } else {
            0nat
        }
    }
}

/// What is wrong with a constraint under the configuration, if anything.
pub open spec fn constraint_issue(
    es: Seq<Entry<Element>>,
    cfg: ConfigElement,
    feature: Seq<char>,
    constraint: Seq<char>,
) -> Option<Issue> {
    match verdict(parse_constraint_spec(constraint), cfg, es) {
        Ok(holds) => if holds {
            None
        } else {
            Some(Issue::Violated { feature, constraint })
        },
        Err(fault) => Some(Issue::EvaluationFailed { feature, constraint, fault }),
    }
}

/// The findings on the first `upto` constraints of a feature.
pub open spec fn constraints_issues(
    es: Seq<Entry<Element>>,
    cfg: ConfigElement,
    feature: Seq<char>,
    constraints: Seq<String>,
    upto: int,
) -> Seq<Issue>
    decreases upto,
{
    if upto <= 0 {
        Seq::empty()
    } else {
        with_issue(
            constraints_issues(es, cfg, feature, constraints, upto - 1),
            constraint_issue(es, cfg, feature, constraints[upto - 1]@),
        )
    }
}

/// The constraints of the feature that the registry holds under `feature`.
pub open spec fn constraints_of(es: Seq<Entry<Element>>, feature: Seq<char>) -> Seq<String> {
    match value_at(es, feature) {
        Some(Element::Feature(f)) => match f.constraints {
            Some(cs) => cs@,
            None => Seq::empty(),
        },
        _ => Seq::empty(),
    }
}

/// The findings on the constraints of the first `upto` selected features. A
/// feature that is selected again adds nothing.
pub open spec fn constraint_issues(es: Seq<Entry<Element>>, cfg: ConfigElement, upto: int) -> Seq<
    Issue,
>
    decreases upto,
{
    if upto <= 0 {
        Seq::empty()
    } else if !first_time(cfg.selected@, upto - 1) {
        constraint_issues(es, cfg, upto - 1)
    } else {
        let feature = cfg.selected@[upto - 1]@;
        let cs = constraints_of(es, feature);
        constraint_issues(es, cfg, upto - 1) + constraints_issues(
            es,
            cfg,
            feature,
            cs,
            cs.len() as int,
        )
    }
}

/// All findings on a configuration: those on its bindings, then those on the
/// constraints of its selected features.
pub open spec fn all_issues(es: Seq<Entry<Element>>, cfg: ConfigElement, config: Seq<char>) -> Seq<
    Issue,
> {
    binding_issues(es, cfg, config, cfg.selected@.len() as int) + constraint_issues(
        es,
        cfg,
        cfg.selected@.len() as int,
    )
}

/// The configuration that the registry holds for the identifier, under the
/// key that configurations have.
pub open spec fn config_at(es: Seq<Entry<Element>>, config: Seq<char>) -> Option<ConfigElement> {
    match value_at(es, "CONFIG:"@ + config) {
        Some(Element::Config(cfg)) => Some(cfg),
        _ => None,
    }
}

/// A count as a machine word holds it: the greatest word where it is greater.
pub open spec fn capped(n: nat) -> usize {
    if n <= usize::MAX {
        n as usize
    } else {
        usize::MAX
    }
}

/// The messages of a list of findings.
pub open spec fn issue_texts(issues: Seq<Issue>) -> Seq<Seq<char>> {
    Seq::new(issues.len(), |i: int| issue_text(issues[i]))
}

/// The message that sums the check up.
pub open spec fn summary_text(errors: nat, features: nat, parameters: nat) -> Seq<char> {
    if errors == 0 {
        "All parameter bindings and constraints are valid ("@ + decimal_text(features)
            + " features, "@ + decimal_text(parameters) + " parameters checked)"@
    } else {
        "Parameter validation failed with "@ + decimal_text(errors) + " error(s)"@
    }
}

/// The views of a list of findings.
pub open spec fn issue_views(issues: Seq<ParameterIssue>) -> Seq<Issue> {
    Seq::new(issues.len(), |i: int| issues[i]@)
}

/// Shows a value as a message does.
pub fn show_json(v: &JsonValue) -> (s: String)
    ensures
        s@ == json_text(*v),
{
    match v {
        JsonValue::Null => "Null".to_owned(),
        JsonValue::Bool(b) => {
            if *b {
                "Bool(true)".to_owned()
            } else {
                "Bool(false)".to_owned()
            }
        },
        JsonValue::Int(n) => {
            let mut s = "Number(".to_owned();
            s.append(signed_decimal(*n).as_str());
            s.append(")");
            s
        },
        JsonValue::Text(t) => {
            let mut s = "String(\"".to_owned();
            s.append(t.as_str());
            s.append("\")");
            s
        },
        JsonValue::List(_) => "Array".to_owned(),
        JsonValue::Other => "Other".to_owned(),
    }
}

fn head(feature_id: &String, param_name: &String) -> (s: String)
    ensures
        s@ == parameter_head(feature_id@, param_name@),
{
    let mut s = "Feature '".to_owned();
    s.append(feature_id.as_str());
    s.append("', parameter '");
    s.append(param_name.as_str());
    s.append("': ");
    s
}

impl ParameterIssue {
    /// The message of the finding.
    pub fn message(&self) -> (s: String)
        ensures
            s@ == issue_text(self@),
    {
        match self {
            ParameterIssue::UnknownFeature { config_id, feature_id } => {
                let mut s = "Configuration '".to_owned();
                s.append(config_id.as_str());
                s.append("' selects non-existent feature '");
                s.append(feature_id.as_str());
                s.append("'");
                s
            },
            ParameterIssue::NoValue { feature_id, param_name } => {
                let mut s = head(feature_id, param_name);
                s.append("No binding provided and no default value defined");
                s
            },
            ParameterIssue::ExpectedInteger { feature_id, param_name, got } => {
                let mut s = head(feature_id, param_name);
                s.append("Expected type Integer, got ");
                s.append(got.as_str());
                s
            },
            ParameterIssue::OutOfRange { feature_id, param_name, value, min, max } => {
                let mut s = head(feature_id, param_name);
                s.append("Value ");
                s.append(signed_decimal(*value).as_str());
                s.append(" out of range [");
                s.append(signed_decimal(*min).as_str());
                s.append(", ");
                s.append(signed_decimal(*max).as_str());
                s.append("]");
                s
            },
            ParameterIssue::ExpectedBoolean { feature_id, param_name, got } => {
                let mut s = head(feature_id, param_name);
                s.append("Expected type Boolean, got ");
                s.append(got.as_str());
                s
            },
            ParameterIssue::ExpectedEnumString { feature_id, param_name, got } => {
                let mut s = head(feature_id, param_name);
                s.append("Expected type String (for Enum), got ");
                s.append(got.as_str());
                s
            },
            ParameterIssue::NotInEnum { feature_id, param_name, value, allowed } => {
                let mut s = head(feature_id, param_name);
                s.append("Value '");
                s.append(value.as_str());
                s.append("' not in enum [");
                s.append(show_list(allowed.as_slice()).as_str());
                s.append("]");
                s
            },
            ParameterIssue::UnknownType { feature_id, param_name, param_type } => {
                let mut s = head(feature_id, param_name);
                s.append("Unknown parameter type '");
                s.append(param_type.as_str());
                s.append("'");
                s
            },
            ParameterIssue::Violated { feature_id, constraint } => {
                let mut s = "Feature '".to_owned();
                s.append(feature_id.as_str());
                s.append("': Constraint '");
                s.append(constraint.as_str());
                s.append("' violated");
                s
            },
            ParameterIssue::EvaluationFailed { feature_id, constraint, error } => {
                let mut s = "Feature '".to_owned();
                s.append(feature_id.as_str());
                s.append("': Failed to evaluate constraint '");
                s.append(constraint.as_str());
                s.append("': ");
                s.append(error.message().as_str());
                s
            },
        }
    }
}

/// Checks the value of an integer parameter: it must be an integer, and
/// within the range where the schema has one.
pub fn validate_integer(
    feature_id: &String,
    param_name: &String,
    value: &JsonValue,
    schema: &ParameterSchema,
) -> (r: Option<ParameterIssue>)
    ensures
        match r {
            Some(i) => integer_issue(feature_id@, param_name@, *schema, *value) == Some(i@),
            None => integer_issue(feature_id@, param_name@, *schema, *value) is None,
        },
{
    let int_value = match value.as_i64() {
        Some(v) => v,
        None => {
            return Some(
                ParameterIssue::ExpectedInteger {
                    feature_id: feature_id.clone(),
                    param_name: param_name.clone(),
                    got: show_json(value),
                },
            );
        },
    };
    if let Some((min, max)) = schema.range {
        if int_value < min || int_value > max {
            return Some(
                ParameterIssue::OutOfRange {
                    feature_id: feature_id.clone(),
                    param_name: param_name.clone(),
                    value: int_value,
                    min,
                    max,
                },
            );
        }
    }
    None
}

/// Checks the value of a boolean parameter.
pub fn validate_boolean(feature_id: &String, param_name: &String, value: &JsonValue) -> (r: Option<
    ParameterIssue,
>)
    ensures
        match r {
            Some(i) => boolean_issue(feature_id@, param_name@, *value) == Some(i@),
            None => boolean_issue(feature_id@, param_name@, *value) is None,
        },
{
    if !value.is_boolean() {
        Some(
            ParameterIssue::ExpectedBoolean {
                feature_id: feature_id.clone(),
                param_name: param_name.clone(),
                got: show_json(value),
            },
        )
    } else {
        None
    }
}

/// Checks the value of an enumeration parameter: it must be a string, and
/// one of the values where the schema lists them.
pub fn validate_enum(
    feature_id: &String,
    param_name: &String,
    value: &JsonValue,
    schema: &ParameterSchema,
) -> (r: Option<ParameterIssue>)
    ensures
        match r {
            Some(i) => enum_issue(feature_id@, param_name@, *schema, *value) == Some(i@),
            None => enum_issue(feature_id@, param_name@, *schema, *value) is None,
        },
{
    let str_value = match value.as_str() {
        Some(s) => s,
        None => {
            return Some(
                ParameterIssue::ExpectedEnumString {
                    feature_id: feature_id.clone(),
                    param_name: param_name.clone(),
                    got: show_json(value),
                },
            );
        },
    };
    if let Some(values) = &schema.values {
        if !contains_name(values, str_value) {
            return Some(
                ParameterIssue::NotInEnum {
                    feature_id: feature_id.clone(),
                    param_name: param_name.clone(),
                    value: str_value.clone(),
                    allowed: copy_strings(values),
                },
            );
        }
    }
    None
}

/// Checks a value against the schema of its parameter.
pub fn validate_value(
    feature_id: &String,
    param_name: &String,
    value: &JsonValue,
    schema: &ParameterSchema,
) -> (r: Option<ParameterIssue>)
    ensures
        match r {
            Some(i) => value_issue(feature_id@, param_name@, *schema, *value) == Some(i@),
            None => value_issue(feature_id@, param_name@, *schema, *value) is None,
        },
{
    if schema.param_type == "Integer".to_owned() {
        validate_integer(feature_id, param_name, value, schema)
    } else if schema.param_type == "Boolean".to_owned() {
        validate_boolean(feature_id, param_name, value)
    } else if schema.param_type == "Enum".to_owned() {
        validate_enum(feature_id, param_name, value, schema)
    } else {
        Some(
            ParameterIssue::UnknownType {
                feature_id: feature_id.clone(),
                param_name: param_name.clone(),
                param_type: schema.param_type.clone(),
            },
        )
    }
}

/// Checks a parameter: the value bound to it, or the default of its schema
/// where nothing is bound.
pub fn validate_parameter(
    feature_id: &String,
    param_name: &String,
    schema: &ParameterSchema,
    bound: Option<&JsonValue>,
) -> (r: Option<ParameterIssue>)
    ensures
        match r {
            Some(i) => parameter_issue(
                feature_id@,
                param_name@,
                *schema,
                match bound {
                    Some(v) => Some(*v),
                    None => None,
                },
            ) == Some(i@),
            None => parameter_issue(
                feature_id@,
                param_name@,
                *schema,
                match bound {
                    Some(v) => Some(*v),
                    None => None,
                },
            ) is None,
        },
{
    match bound {
        Some(v) => validate_value(feature_id, param_name, v, schema),
        None => {
            if schema.default.is_null() {
                Some(
                    ParameterIssue::NoValue {
                        feature_id: feature_id.clone(),
                        param_name: param_name.clone(),
                    },
                )
            } else {
                validate_value(feature_id, param_name, &schema.default, schema)
            }
        },
    }
}

/// Checks one constraint of a feature under the configuration.
pub fn validate_constraint(
    registry: &Registry,
    config: &ConfigElement,
    feature_id: &String,
    constraint: &String,
) -> (r: Option<ParameterIssue>)
    ensures
        match r {
            Some(i) => constraint_issue(registry@, *config, feature_id@, constraint@) == Some(i@),
            None => constraint_issue(registry@, *config, feature_id@, constraint@) is None,
        },
{
    let expr = parse_constraint(constraint.as_str()).unwrap();
    match evaluate_constraint(&expr, config, registry) {
        Ok(true) => None,
        Ok(false) => Some(
            ParameterIssue::Violated {
                feature_id: feature_id.clone(),
                constraint: constraint.clone(),
            },
        ),
        Err(e) => Some(
            ParameterIssue::EvaluationFailed {
                feature_id: feature_id.clone(),
                constraint: constraint.clone(),
                error: e,
            },
        ),
    }
}

/// The findings on the bindings of one selected feature, added to `issues`.
fn check_selected(
    registry: &Registry,
    config: &ConfigElement,
    config_id: &String,
    feature_id: &String,
    issues: &mut Vec<ParameterIssue>,
) -> (checked: Option<usize>)
    ensures
        issue_views(final(issues)@) == issue_views(old(issues)@) + selected_issues(
            registry@,
            *config,
            config_id@,
            feature_id@,
        ),
        match checked {
            Some(n) => schemas_of(registry@, feature_id@) matches Some(ps) && ps.len() == n,
            None => schemas_of(registry@, feature_id@) is None,
        },
{
    let ghost es = registry@;
    let ghost found0 = issue_views(issues@);
    let feature = match registry.get(feature_id) {
        Some(Element::Feature(f)) => f,
        _ => {
            issues.push(
                ParameterIssue::UnknownFeature {
                    config_id: config_id.clone(),
                    feature_id: feature_id.clone(),
                },
            );
            assert(issue_views(issues@) =~= found0 + selected_issues(
                es,
                *config,
                config_id@,
                feature_id@,
            ));
            return None;
        },
    };
    let parameters = match &feature.parameters {
        Some(params) => params,
        None => {
            assert(issue_views(issues@) =~= found0 + selected_issues(
                es,
                *config,
                config_id@,
                feature_id@,
            ));
            return None;
        },
    };
    if parameters.len() == 0 {
        assert(issue_views(issues@) =~= found0 + selected_issues(
            es,
            *config,
            config_id@,
            feature_id@,
        ));
        return None;
    }
    let bound: Option<&Vec<Entry<JsonValue>>> = match &config.bindings {
        Some(b) => get(b, feature_id),
        None => None,
    };
    let ghost fb = bindings_of(*config, feature_id@);
    let ghost ps = parameters@;
    let mut i: usize = 0;
    while i < parameters.len()
        invariant
            i <= parameters.len(),
            ps == parameters@,
            fb == bindings_of(*config, feature_id@),
            match bound {
                Some(b) => b@ == fb,
                None => fb == Seq::<Entry<JsonValue>>::empty(),
            },
            issue_views(issues@) == found0 + parameters_issues(feature_id@, ps, fb, i as int),
        decreases parameters.len() - i,
    {
        let entry = &parameters[i];
        let value: Option<&JsonValue> = match bound {
            Some(b) => get(b, &entry.key),
            None => None,
        };
        proof {
            if bound is None {
                assert(value_at(fb, entry.key@) is None) by {
                    crate::types::entry::lemma_key_index_none(fb, entry.key@);
                }
            }
        }
        let ghost before = issue_views(issues@);
        match validate_parameter(feature_id, &entry.key, &entry.value, value) {
            Some(issue) => {
                issues.push(issue);
                assert(issue_views(issues@) =~= before.push(issue@));
            },
            None => {},
        }
        assert(issue_views(issues@) =~= found0 + parameters_issues(feature_id@, ps, fb, i + 1));
        i = i + 1;
    }
    Some(parameters.len())
}

/// The findings on the constraints of one selected feature, added to `issues`.
fn check_constraints(
    registry: &Registry,
    config: &ConfigElement,
    feature_id: &String,
    issues: &mut Vec<ParameterIssue>,
)
    ensures
        issue_views(final(issues)@) == issue_views(old(issues)@) + constraints_issues(
            registry@,
            *config,
            feature_id@,
            constraints_of(registry@, feature_id@),
            constraints_of(registry@, feature_id@).len() as int,
        ),
{
    let ghost es = registry@;
    let ghost found0 = issue_views(issues@);
    let ghost cs = constraints_of(es, feature_id@);
    let feature = match registry.get(feature_id) {
        Some(Element::Feature(f)) => f,
        _ => {
            assert(issue_views(issues@) =~= found0 + constraints_issues(
                es,
                *config,
                feature_id@,
                cs,
                cs.len() as int,
            ));
            return ;
        },
    };
    let constraints = match &feature.constraints {
        Some(constraints) => constraints,
        None => {
            assert(issue_views(issues@) =~= found0 + constraints_issues(
                es,
                *config,
                feature_id@,
                cs,
                cs.len() as int,
            ));
            return ;
        },
    };
    let mut i: usize = 0;
    while i < constraints.len()
        invariant
            i <= constraints.len(),
            es == registry@,
            cs == constraints@,
            issue_views(issues@) == found0 + constraints_issues(
                es,
                *config,
                feature_id@,
                cs,
                i as int,
            ),
        decreases constraints.len() - i,
    {
        let ghost before = issue_views(issues@);
        match validate_constraint(registry, config, feature_id, &constraints[i]) {
            Some(issue) => {
                issues.push(issue);
                assert(issue_views(issues@) =~= before.push(issue@));
            },
            None => {},
        }
        assert(issue_views(issues@) =~= found0 + constraints_issues(
            es,
            *config,
            feature_id@,
            cs,
            i + 1,
        ));
        i = i + 1;
    }
}

/// Checks the bindings of the configuration `config_id` against the schemas
/// of its selected features, and the constraints of those features.
pub fn validate_parameter_bindings(registry: &Registry, config_id: &str) -> (r:
    ParameterValidationResult)
    ensures
        match config_at(registry@, config_id@) {
            None => {
                &&& !r.is_valid
                &&& r.message@ == "Configuration '"@ + config_id@ + "' not found"@
                &&& text_list(r.errors@) == seq![
                    "Configuration '"@ + config_id@ + "' does not exist"@,
                ]
                &&& r.num_features_checked == 0
                &&& r.num_parameters_checked == 0
            },
            Some(cfg) => {
                let issues = all_issues(registry@, cfg, config_id@);
                &&& r.is_valid == (issues.len() == 0)
                &&& text_list(r.errors@) == issue_texts(issues)
                &&& r.num_features_checked == features_checked(
                    registry@,
                    cfg,
                    cfg.selected@.len() as int,
                )
                &&& r.num_parameters_checked == capped(
                    parameters_checked(registry@, cfg, cfg.selected@.len() as int),
                )
                &&& r.message@ == summary_text(
                    issues.len(),
                    r.num_features_checked as nat,
                    r.num_parameters_checked as nat,
                )
            },
        },
{
    let ghost es = registry@;
    let id = config_id.to_owned();
    let mut config_key = "CONFIG:".to_owned();
    config_key.append(config_id);
    let config = match registry.get(&config_key) {
        Some(Element::Config(cfg)) => cfg,
        _ => {
            let mut message = "Configuration '".to_owned();
            message.append(config_id);
            message.append("' not found");
            let mut error = "Configuration '".to_owned();
            error.append(config_id);
            error.append("' does not exist");
            let mut errors: Vec<String> = Vec::new();
            errors.push(error);
            assert(text_list(errors@) =~= seq![
                "Configuration '"@ + config_id@ + "' does not exist"@,
            ]);
            return ParameterValidationResult {
                is_valid: false,
                message,
                errors,
                num_features_checked: 0,
                num_parameters_checked: 0,
            };
        },
    };
    let mut issues: Vec<ParameterIssue> = Vec::new();
    let mut num_features_checked: usize = 0;
    let mut num_parameters_checked: usize = 0;
    let n = config.selected.len();
    let mut i: usize = 0;
    assert(issue_views(issues@) =~= binding_issues(es, *config, id@, 0));
    while i < n
        invariant
            i <= n,
            n == config.selected@.len(),
            es == registry@,
            issue_views(issues@) == binding_issues(es, *config, id@, i as int),
            num_features_checked == features_checked(es, *config, i as int),
            num_features_checked <= i,
            num_parameters_checked == capped(parameters_checked(es, *config, i as int)),
        decreases n - i,
    {
        if is_first_time(config.selected.as_slice(), i) {
            let checked = check_selected(registry, config, &id, &config.selected[i], &mut issues);
            if let Some(count) = checked {
                num_features_checked = num_features_checked + 1;
                num_parameters_checked = if count > usize::MAX - num_parameters_checked {
                    usize::MAX
                } else {
                    num_parameters_checked + count
                };
            }
        }
        i = i + 1;
    }
    let ghost bound_part = issue_views(issues@);
    let mut j: usize = 0;
    assert(issue_views(issues@) =~= bound_part + constraint_issues(es, *config, 0));
    while j < n
        invariant
            j <= n,
            n == config.selected@.len(),
            es == registry@,
            issue_views(issues@) == bound_part + constraint_issues(es, *config, j as int),
        decreases n - j,
    {
        if is_first_time(config.selected.as_slice(), j) {
            check_constraints(registry, config, &config.selected[j], &mut issues);
        }
        assert(issue_views(issues@) =~= bound_part + constraint_issues(es, *config, j + 1));
        j = j + 1;
    }
    let ghost found = all_issues(es, *config, id@);
    assert(issue_views(issues@) == found);
    let mut errors: Vec<String> = Vec::new();
    let mut k: usize = 0;
    while k < issues.len()
        invariant
            k <= issues.len(),
            errors@.len() == k,
            forall|t: int| 0 <= t < k ==> (#[trigger] errors@[t])@ == issue_text(issues@[t]@),
        decreases issues.len() - k,
    {
        errors.push(issues[k].message());
        k = k + 1;
    }
    assert(text_list(errors@) =~= issue_texts(found));
    let is_valid = errors.len() == 0;
    let message = if is_valid {
        let mut m = "All parameter bindings and constraints are valid (".to_owned();
        m.append(decimal(num_features_checked as u64).as_str());
        m.append(" features, ");
        m.append(decimal(num_parameters_checked as u64).as_str());
        m.append(" parameters checked)");
        m
    } else {
        let mut m = "Parameter validation failed with ".to_owned();
        m.append(decimal(errors.len() as u64).as_str());
        m.append(" error(s)");
        m
    };
    ParameterValidationResult {
        is_valid,
        message,
        errors,
        num_features_checked,
        num_parameters_checked,
    }
}

/// A value passes the check of its schema exactly when it conforms to it.
pub proof fn lemma_value_conforms(
    feature: Seq<char>,
    param: Seq<char>,
    schema: ParameterSchema,
    v: JsonValue,
)
    ensures
        value_issue(feature, param, schema, v) is None <==> conforms(schema, v),
{
}

/// Where nothing is bound to a parameter and its schema has a default, the
/// parameter passes exactly when the default conforms to the schema.
pub proof fn lemma_default_fallback(feature: Seq<char>, param: Seq<char>, schema: ParameterSchema)
    requires
        !(schema.default is Null),
    ensures
        parameter_issue(feature, param, schema, None) is None <==> conforms(schema, schema.default),
{
    lemma_value_conforms(feature, param, schema, schema.default);
}

/// Two configurations bind the same values and select the same features in
/// the same order, where a feature counts at the place at which it is first
/// named.
pub open spec fn same_selection(c1: ConfigElement, c2: ConfigElement) -> bool {
    &&& c1.bindings == c2.bindings
    &&& distinct_names(c1.selected@, c1.selected@.len() as int) == distinct_names(
        c2.selected@,
        c2.selected@.len() as int,
    )
}

proof fn lemma_same_selection_same_choice(c1: ConfigElement, c2: ConfigElement)
    requires
        same_selection(c1, c2),
    ensures
        same_choice(c1, c2),
{
    let s1 = c1.selected@;
    let s2 = c2.selected@;
    let d = distinct_names(s1, s1.len() as int);
    lemma_distinct_names(s1, s1.len() as int);
    lemma_distinct_names(s2, s2.len() as int);
    assert forall|id: Seq<char>| names(s1, id) == names(s2, id) by {
        if names(s1, id) {
            let i = choose|i: int| 0 <= i < s1.len() && (#[trigger] s1[i])@ == id;
            assert(d.contains(s1[i]@));
            let k = choose|k: int| 0 <= k < d.len() && d[k] == id;
            let j = choose|j: int| 0 <= j < s2.len() && (#[trigger] s2[j])@ == d[k];
            assert(s2[j]@ == id);
        }
        if names(s2, id) {
            let i = choose|i: int| 0 <= i < s2.len() && (#[trigger] s2[i])@ == id;
            assert(d.contains(s2[i]@));
            let k = choose|k: int| 0 <= k < d.len() && d[k] == id;
            let j = choose|j: int| 0 <= j < s1.len() && (#[trigger] s1[j])@ == d[k];
            assert(s1[j]@ == id);
        }
    }
}

proof fn lemma_constraints_by_choice(
    es1: Seq<Entry<Element>>,
    c1: ConfigElement,
    es2: Seq<Entry<Element>>,
    c2: ConfigElement,
    feature: Seq<char>,
    constraints: Seq<String>,
    upto: int,
)
    requires
        same_choice(c1, c2),
        same_features(es1, es2),
    ensures
        constraints_issues(es1, c1, feature, constraints, upto) == constraints_issues(
            es2,
            c2,
            feature,
            constraints,
            upto,
        ),
    decreases upto,
{
    if upto > 0 {
        lemma_constraints_by_choice(es1, c1, es2, c2, feature, constraints, upto - 1);
        lemma_value_by_choice(parse_constraint_spec(constraints[upto - 1]@), c1, es1, c2, es2);
    }
}

proof fn lemma_same_selection_upto(
    es1: Seq<Entry<Element>>,
    c1: ConfigElement,
    u1: int,
    es2: Seq<Entry<Element>>,
    c2: ConfigElement,
    u2: int,
    config: Seq<char>,
)
    requires
        same_features(es1, es2),
        same_selection(c1, c2),
        0 <= u1 <= c1.selected@.len(),
        0 <= u2 <= c2.selected@.len(),
        distinct_names(c1.selected@, u1).len() == distinct_names(c2.selected@, u2).len(),
    ensures
        binding_issues(es1, c1, config, u1) == binding_issues(es2, c2, config, u2),
        constraint_issues(es1, c1, u1) == constraint_issues(es2, c2, u2),
        features_checked(es1, c1, u1) == features_checked(es2, c2, u2),
        parameters_checked(es1, c1, u1) == parameters_checked(es2, c2, u2),
    decreases u1 + u2,
{
    let s1 = c1.selected@;
    let s2 = c2.selected@;
    if u1 > 0 && !first_time(s1, u1 - 1) {
        lemma_same_selection_upto(es1, c1, u1 - 1, es2, c2, u2, config);
    } else if u2 > 0 && !first_time(s2, u2 - 1) {
        lemma_same_selection_upto(es1, c1, u1, es2, c2, u2 - 1, config);
    } else if u1 > 0 && u2 > 0 {
        lemma_same_selection_upto(es1, c1, u1 - 1, es2, c2, u2 - 1, config);
        let k = distinct_names(s1, u1 - 1).len() as int;
        let feature = s1[u1 - 1]@;
        lemma_distinct_names_grow(s1, u1, s1.len() as int);
        lemma_distinct_names_grow(s2, u2, s2.len() as int);
        assert(distinct_names(s1, u1)[k] == feature);
        assert(distinct_names(s2, u2)[k] == s2[u2 - 1]@);
        assert(distinct_names(s1, s1.len() as int)[k] == distinct_names(s1, u1)[k]);
        assert(distinct_names(s2, s2.len() as int)[k] == distinct_names(s2, u2)[k]);
        assert(s2[u2 - 1]@ == feature);
        assert(feature_under(es1, feature) == feature_under(es2, feature));
        assert(bindings_of(c1, feature) == bindings_of(c2, feature));
        assert(selected_issues(es1, c1, config, feature) == selected_issues(es2, c2, config, feature));
        lemma_same_selection_same_choice(c1, c2);
        let cs = constraints_of(es1, feature);
        assert(cs == constraints_of(es2, feature));
        lemma_constraints_by_choice(es1, c1, es2, c2, feature, cs, cs.len() as int);
    }
}

/// Naming a selected feature again changes nothing: two configurations that
/// bind the same values and first name the same features in the same order
/// have the same findings and the same counts, over registries that hold the
/// same features.
pub proof fn lemma_repeats_change_nothing(
    es1: Seq<Entry<Element>>,
    c1: ConfigElement,
    es2: Seq<Entry<Element>>,
    c2: ConfigElement,
    config: Seq<char>,
)
    requires
        same_features(es1, es2),
        same_selection(c1, c2),
    ensures
        all_issues(es1, c1, config) == all_issues(es2, c2, config),
        features_checked(es1, c1, c1.selected@.len() as int) == features_checked(
            es2,
            c2,
            c2.selected@.len() as int,
        ),
        parameters_checked(es1, c1, c1.selected@.len() as int) == parameters_checked(
            es2,
            c2,
            c2.selected@.len() as int,
        ),
{
    lemma_same_selection_upto(
        es1,
        c1,
        c1.selected@.len() as int,
        es2,
        c2,
        c2.selected@.len() as int,
        config,
    );
}

} // verus!
