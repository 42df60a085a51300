//! The evaluator of the constraint language.
//!
//! A term is reduced to an integer, a boolean or a string against a
//! configuration and a registry. Every failure is a value: a type that does
//! not fit, a feature or a parameter that is not there, a division by zero, a
//! result that does not fit 64 signed bits. An implication with a false
//! antecedent is true whatever its consequent is; nothing else in the language
//! leaves a part unevaluated.

use crate::constraint_parser::{ArithOp, CompOp, Expr, Term};
use crate::text::signed_decimal;
use crate::text::signed_decimal_text;
use crate::types::config::{contains_name, names, ConfigElement};
use crate::types::element::Element;
use crate::types::registry::Registry;
use crate::types::entry::{get, value_at, Entry};
use crate::types::feature::ParameterSchema;
use crate::types::json::JsonValue;
use vstd::prelude::*;

verus! {

/// A value of the language.
#[derive(Debug, Clone, PartialEq)]
pub enum Value {
    Int(i64),
    Bool(bool),
    String(String),
}

/// A value with its text as a sequence of characters.
pub ghost enum Val {
    Int(i64),
    Bool(bool),
    Text(Seq<char>),
}

impl View for Value {
    type V = Val;

    open spec fn view(&self) -> Val {
        match self {
            Value::Int(n) => Val::Int(*n),
            Value::Bool(b) => Val::Bool(*b),
            Value::String(s) => Val::Text(s@),
        }
    }
}

/// The ways in which an evaluation fails.
#[derive(Debug, Clone)]
pub enum EvalError {
    /// An integer was needed and the value is none.
    ExpectedInteger(Value),
    /// A boolean was needed and the value is none.
    ExpectedBoolean(Value),
    /// A string was needed and the value is none.
    ExpectedString(Value),
    /// The registry holds no feature under the key.
    FeatureNotFound(String),
    /// The feature has no parameter of the name.
    ParameterNotFound { param_name: String, feature_id: String },
    /// The parameter's value is neither an integer nor a boolean nor a string.
    CannotConvert,
    /// Booleans are compared for equality only.
    BooleanComparison,
    /// Strings are compared for equality only.
    StringComparison,
    /// The two sides of a comparison are of different types.
    TypeMismatch,
    DivisionByZero,
    /// The result of an arithmetic operation does not fit 64 signed bits.
    Overflow,
}

/// A failure with its texts as sequences of characters.
pub ghost enum Fault {
    ExpectedInteger(Val),
    ExpectedBoolean(Val),
    ExpectedString(Val),
    FeatureNotFound(Seq<char>),
    ParameterNotFound { param_name: Seq<char>, feature_id: Seq<char> },
    CannotConvert,
    BooleanComparison,
    StringComparison,
    TypeMismatch,
    DivisionByZero,
    Overflow,
}

impl View for EvalError {
    type V = Fault;

    open spec fn view(&self) -> Fault {
        match self {
            EvalError::ExpectedInteger(v) => Fault::ExpectedInteger(v@),
            EvalError::ExpectedBoolean(v) => Fault::ExpectedBoolean(v@),
            EvalError::ExpectedString(v) => Fault::ExpectedString(v@),
            EvalError::FeatureNotFound(id) => Fault::FeatureNotFound(id@),
            EvalError::ParameterNotFound { param_name, feature_id } => Fault::ParameterNotFound {
                param_name: param_name@,
                feature_id: feature_id@,
            },
            EvalError::CannotConvert => Fault::CannotConvert,
            EvalError::BooleanComparison => Fault::BooleanComparison,
            EvalError::StringComparison => Fault::StringComparison,
            EvalError::TypeMismatch => Fault::TypeMismatch,
            EvalError::DivisionByZero => Fault::DivisionByZero,
            EvalError::Overflow => Fault::Overflow,
        }
    }
}

/// The value as an integer.
pub open spec fn int_of(v: Val) -> Result<i64, Fault> {
    match v {
        Val::Int(n) => Ok(n),
        _ => Err(Fault::ExpectedInteger(v)),
    }
}

/// The value as a boolean.
pub open spec fn bool_of(v: Val) -> Result<bool, Fault> {
    match v {
        Val::Bool(b) => Ok(b),
        _ => Err(Fault::ExpectedBoolean(v)),
    }
}

/// The value as a string.
pub open spec fn text_of(v: Val) -> Result<Seq<char>, Fault> {
    match v {
        Val::Text(s) => Ok(s),
        _ => Err(Fault::ExpectedString(v)),
    }
}

/// What a comparison of two integers yields.
pub open spec fn compare_ints(op: CompOp, l: int, r: int) -> bool {
    match op {
        CompOp::Lt => l < r,
        CompOp::Gt => l > r,
        CompOp::Le => l <= r,
        CompOp::Ge => l >= r,
        CompOp::Eq => l == r,
        CompOp::Ne => l != r,
    }
}

/// What a comparison of two values yields: integers are ordered, booleans and
/// strings are compared for equality only, and values of different types are
/// not compared at all.
pub open spec fn compare(op: CompOp, l: Val, r: Val) -> Result<Val, Fault> {
    match (l, r) {
        (Val::Int(a), Val::Int(b)) => Ok(Val::Bool(compare_ints(op, a as int, b as int))),
        (Val::Bool(a), Val::Bool(b)) => match op {
            CompOp::Eq => Ok(Val::Bool(a == b)),
            CompOp::Ne => Ok(Val::Bool(a != b)),
            _ => Err(Fault::BooleanComparison),
        },
        (Val::Text(a), Val::Text(b)) => match op {
            CompOp::Eq => Ok(Val::Bool(a == b)),
            CompOp::Ne => Ok(Val::Bool(a != b)),
            _ => Err(Fault::StringComparison),
        },
        _ => Err(Fault::TypeMismatch),
    }
}

/// The quotient of two integers, rounded toward zero.
pub open spec fn quotient(l: int, r: int) -> int {
    if r == 0 {
        0
    } else if l >= 0 && r > 0 {
        l / r
    } else if l >= 0 && r < 0 {
        -(l / (-r))
    } else if l < 0 && r > 0 {
        -((-l) / r)
    } else {
        (-l) / (-r)
    }
}

/// The exact result of an arithmetic operation on two integers.
pub open spec fn exact(op: ArithOp, l: int, r: int) -> int {
    match op {
        ArithOp::Add => l + r,
        ArithOp::Sub => l - r,
        ArithOp::Mul => l * r,
        ArithOp::Div => quotient(l, r),
    }
}

/// What an arithmetic operation yields: its exact result where that fits 64
/// signed bits; a division by zero and a result that does not fit are failures.
pub open spec fn arith(op: ArithOp, l: i64, r: i64) -> Result<Val, Fault> {
    if op == ArithOp::Div && r == 0 {
        Err(Fault::DivisionByZero)
    } else if i64::MIN <= exact(op, l as int, r as int) <= i64::MAX {
        Ok(Val::Int(exact(op, l as int, r as int) as i64))
    } else {
        Err(Fault::Overflow)
    }
}

/// The value of a parameter as the language sees it.
pub open spec fn convert(v: JsonValue) -> Result<Val, Fault> {
    match v {
        JsonValue::Int(n) => Ok(Val::Int(n)),
        JsonValue::Bool(b) => Ok(Val::Bool(b)),
        JsonValue::Text(s) => Ok(Val::Text(s@)),
        _ => Err(Fault::CannotConvert),
    }
}

/// The value that the configuration binds to the parameter, if it binds one.
pub open spec fn bound_value(cfg: ConfigElement, feature: Seq<char>, name: Seq<char>) -> Option<
    JsonValue,
> {
    match cfg.bindings {
        Some(b) => match value_at(b@, feature) {
            Some(fb) => value_at(fb@, name),
            None => None,
        },
        None => None,
    }
}

/// The schema of a parameter of the feature that the registry holds under `feature`.
pub open spec fn schema_of(es: Seq<Entry<Element>>, feature: Seq<char>, name: Seq<char>) -> Result<
    ParameterSchema,
    Fault,
> {
    match value_at(es, feature) {
        Some(Element::Feature(f)) => match f.parameters {
            Some(ps) => match value_at(ps@, name) {
                Some(schema) => Ok(schema),
                None => Err(Fault::ParameterNotFound { param_name: name, feature_id: feature }),
            },
            None => Err(Fault::ParameterNotFound { param_name: name, feature_id: feature }),
        },
        _ => Err(Fault::FeatureNotFound(feature)),
    }
}

/// The value of a parameter: what the configuration binds to it, and the
/// default of its schema where it binds nothing.
pub open spec fn param_value(
    cfg: ConfigElement,
    es: Seq<Entry<Element>>,
    feature: Seq<char>,
    name: Seq<char>,
) -> Result<Val, Fault> {
    match schema_of(es, feature, name) {
        Ok(schema) => match bound_value(cfg, feature, name) {
            Some(v) => convert(v),
            None => convert(schema.default),
        },
        Err(e) => Err(e),
    }
}

/// The boolean to which a term reduces.
pub open spec fn eval_bool(t: Term, cfg: ConfigElement, es: Seq<Entry<Element>>) -> Result<
    bool,
    Fault,
>
    decreases t, 1int,
{
    match eval(t, cfg, es) {
        Ok(v) => bool_of(v),
        Err(e) => Err(e),
    }
}

/// The integer to which a term reduces.
pub open spec fn eval_int(t: Term, cfg: ConfigElement, es: Seq<Entry<Element>>) -> Result<i64, Fault>
    decreases t, 1int,
{
    match eval(t, cfg, es) {
        Ok(v) => int_of(v),
        Err(e) => Err(e),
    }
}

/// The value to which a term reduces.
pub open spec fn eval(t: Term, cfg: ConfigElement, es: Seq<Entry<Element>>) -> Result<Val, Fault>
    decreases t, 0int,
{
    match t {
        Term::Int(n) => Ok(Val::Int(n)),
        Term::Bool(b) => Ok(Val::Bool(b)),
        Term::Text(s) => Ok(Val::Text(s)),
        Term::Param { feature, name } => param_value(cfg, es, feature, name),
        Term::Selected(id) => Ok(Val::Bool(names(cfg.selected@, id))),
        Term::Compare { rel, left, right } => match eval(*left, cfg, es) {
            Ok(l) => match eval(*right, cfg, es) {
                Ok(r) => compare(rel, l, r),
                Err(e) => Err(e),
            },
            Err(e) => Err(e),
        },
        Term::Implies { left, right } => match eval_bool(*left, cfg, es) {
            Ok(l) => if !l {
                Ok(Val::Bool(true))
            } else {
                match eval_bool(*right, cfg, es) {
                    Ok(r) => Ok(Val::Bool(r)),
                    Err(e) => Err(e),
                }
            },
            Err(e) => Err(e),
        },
        Term::And { left, right } => match eval_bool(*left, cfg, es) {
            Ok(l) => match eval_bool(*right, cfg, es) {
                Ok(r) => Ok(Val::Bool(l && r)),
                Err(e) => Err(e),
            },
            Err(e) => Err(e),
        },
        Term::Or { left, right } => match eval_bool(*left, cfg, es) {
            Ok(l) => match eval_bool(*right, cfg, es) {
                Ok(r) => Ok(Val::Bool(l || r)),
                Err(e) => Err(e),
            },
            Err(e) => Err(e),
        },
        Term::Not(inner) => match eval_bool(*inner, cfg, es) {
            Ok(b) => Ok(Val::Bool(!b)),
            Err(e) => Err(e),
        },
        Term::Arith { sign, left, right } => match eval_int(*left, cfg, es) {
            Ok(l) => match eval_int(*right, cfg, es) {
                Ok(r) => arith(sign, l, r),
                Err(e) => Err(e),
            },
            Err(e) => Err(e),
        },
    }
}

/// The verdict of a constraint: the boolean to which its term reduces.
pub open spec fn verdict(t: Term, cfg: ConfigElement, es: Seq<Entry<Element>>) -> Result<bool, Fault> {
    eval_bool(t, cfg, es)
}

/// A copy of a value.
pub fn copy_value(v: &Value) -> (r: Value)
    ensures
        r@ == v@,
{
    match v {
        Value::Int(n) => Value::Int(*n),
        Value::Bool(b) => Value::Bool(*b),
        Value::String(s) => Value::String(s.clone()),
    }
}

impl Value {
    /// The integer that the value is, or the failure of a value that is none.
    pub fn as_int(&self) -> (r: Result<i64, EvalError>)
        ensures
            match r {
                Ok(n) => int_of(self@) == Ok::<i64, Fault>(n),
                Err(e) => int_of(self@) == Err::<i64, Fault>(e@),
            },
    {
        match self {
            Value::Int(n) => Ok(*n),
            _ => Err(EvalError::ExpectedInteger(copy_value(self))),
        }
    }

    /// The boolean that the value is, or the failure of a value that is none.
    pub fn as_bool(&self) -> (r: Result<bool, EvalError>)
        ensures
            match r {
                Ok(b) => bool_of(self@) == Ok::<bool, Fault>(b),
                Err(e) => bool_of(self@) == Err::<bool, Fault>(e@),
            },
    {
        match self {
            Value::Bool(b) => Ok(*b),
            _ => Err(EvalError::ExpectedBoolean(copy_value(self))),
        }
    }

    /// The string that the value is, or the failure of a value that is none.
    pub fn as_string(&self) -> (r: Result<String, EvalError>)
        ensures
            match r {
                Ok(s) => text_of(self@) == Ok::<Seq<char>, Fault>(s@),
                Err(e) => text_of(self@) == Err::<Seq<char>, Fault>(e@),
            },
    {
        match self {
            Value::String(s) => Ok(s.clone()),
            _ => Err(EvalError::ExpectedString(copy_value(self))),
        }
    }
}

/// The quotient of `l` by `r`, rounded toward zero.
fn divide(l: i64, r: i64) -> (q: i128)
    requires
        r != 0,
    ensures
        q == quotient(l as int, r as int),
{
    let a: i128 = l as i128;
    let b: i128 = r as i128;
    if a >= 0 && b > 0 {
        a / b
    } else if a >= 0 && b < 0 {
        -(a / (-b))
    } else if a < 0 && b > 0 {
        -((-a) / b)
    } else {
        (-a) / (-b)
    }
}

/// Applies an arithmetic operation to two integers.
pub fn apply_arith(op: ArithOp, l: i64, r: i64) -> (res: Result<Value, EvalError>)
    ensures
        match res {
            Ok(v) => arith(op, l, r) == Ok::<Val, Fault>(v@),
            Err(e) => arith(op, l, r) == Err::<Val, Fault>(e@),
        },
{
    let exact_value: i128 = match op {
        ArithOp::Add => l as i128 + r as i128,
        ArithOp::Sub => l as i128 - r as i128,
        ArithOp::Mul => {
            assert(-0x8000_0000_0000_0000 * 0x8000_0000_0000_0000 <= (l as int) * (r as int)
                <= 0x8000_0000_0000_0000 * 0x8000_0000_0000_0000) by (nonlinear_arith)
                requires
                    -0x8000_0000_0000_0000 <= l as int <= 0x7fff_ffff_ffff_ffff,
                    -0x8000_0000_0000_0000 <= r as int <= 0x7fff_ffff_ffff_ffff,
            ;
            (l as i128) * (r as i128)
        },
        ArithOp::Div => {
            if r == 0 {
                return Err(EvalError::DivisionByZero);
            }
            divide(l, r)
        },
    };
    if exact_value < -9223372036854775808 || exact_value > 9223372036854775807 {
        Err(EvalError::Overflow)
    } else {
        Ok(Value::Int(exact_value as i64))
    }
}

/// Compares two values.
pub fn apply_compare(op: CompOp, l: &Value, r: &Value) -> (res: Result<Value, EvalError>)
    ensures
        match res {
            Ok(v) => compare(op, l@, r@) == Ok::<Val, Fault>(v@),
            Err(e) => compare(op, l@, r@) == Err::<Val, Fault>(e@),
        },
{
    match (l, r) {
        (Value::Int(a), Value::Int(b)) => {
            let a = *a;
            let b = *b;
            Ok(
                Value::Bool(
                    match op {
                        CompOp::Lt => a < b,
                        CompOp::Gt => a > b,
                        CompOp::Le => a <= b,
                        CompOp::Ge => a >= b,
                        CompOp::Eq => a == b,
                        CompOp::Ne => a != b,
                    },
                ),
            )
        },
        (Value::Bool(a), Value::Bool(b)) => match op {
            CompOp::Eq => Ok(Value::Bool(*a == *b)),
            CompOp::Ne => Ok(Value::Bool(*a != *b)),
            _ => Err(EvalError::BooleanComparison),
        },
        (Value::String(a), Value::String(b)) => match op {
            CompOp::Eq => Ok(Value::Bool(*a == *b)),
            CompOp::Ne => Ok(Value::Bool(!(*a == *b))),
            _ => Err(EvalError::StringComparison),
        },
        _ => Err(EvalError::TypeMismatch),
    }
}

/// The value of a parameter of a feature under a configuration.
fn evaluate_param(
    feature_id: &String,
    param_name: &String,
    config: &ConfigElement,
    registry: &Registry,
) -> (res: Result<Value, EvalError>)
    ensures
        match res {
            Ok(v) => param_value(*config, registry@, feature_id@, param_name@) == Ok::<Val, Fault>(
                v@,
            ),
            Err(e) => param_value(*config, registry@, feature_id@, param_name@) == Err::<Val, Fault>(
                e@,
            ),
        },
{
    let feature = match registry.get(feature_id) {
        Some(Element::Feature(f)) => f,
        _ => {
            return Err(EvalError::FeatureNotFound(feature_id.clone()));
        },
    };
    let found = match &feature.parameters {
        Some(ps) => get(ps, param_name),
        None => None,
    };
    let schema = match found {
        Some(schema) => schema,
        None => {
            return Err(
                EvalError::ParameterNotFound {
                    param_name: param_name.clone(),
                    feature_id: feature_id.clone(),
                },
            );
        },
    };
    let bound = match &config.bindings {
        Some(b) => match get(b, feature_id) {
            Some(fb) => get(fb, param_name),
            None => None,
        },
        None => None,
    };
    let json = match bound {
        Some(v) => v,
        None => &schema.default,
    };
    match json {
        JsonValue::Int(n) => Ok(Value::Int(*n)),
        JsonValue::Bool(b) => Ok(Value::Bool(*b)),
        JsonValue::Text(s) => Ok(Value::String(s.clone())),
        _ => Err(EvalError::CannotConvert),
    }
}

/// Reduces an expression to a boolean.
fn evaluate_bool(expr: &Expr, config: &ConfigElement, registry: &Registry) -> (res: Result<
    bool,
    EvalError,
>)
    ensures
        match res {
            Ok(b) => eval_bool(expr@, *config, registry@) == Ok::<bool, Fault>(b),
            Err(e) => eval_bool(expr@, *config, registry@) == Err::<bool, Fault>(e@),
        },
    decreases expr, 1int,
{
    match evaluate_expr(expr, config, registry) {
        Ok(v) => v.as_bool(),
        Err(e) => Err(e),
    }
}

/// Reduces an expression to an integer.
fn evaluate_int(expr: &Expr, config: &ConfigElement, registry: &Registry) -> (res: Result<
    i64,
    EvalError,
>)
    ensures
        match res {
            Ok(n) => eval_int(expr@, *config, registry@) == Ok::<i64, Fault>(n),
            Err(e) => eval_int(expr@, *config, registry@) == Err::<i64, Fault>(e@),
        },
    decreases expr, 1int,
{
    match evaluate_expr(expr, config, registry) {
        Ok(v) => v.as_int(),
        Err(e) => Err(e),
    }
}

/// Reduces an expression to a value.
pub fn evaluate_expr(expr: &Expr, config: &ConfigElement, registry: &Registry) -> (res: Result<
    Value,
    EvalError,
>)
    ensures
        match res {
            Ok(v) => eval(expr@, *config, registry@) == Ok::<Val, Fault>(v@),
            Err(e) => eval(expr@, *config, registry@) == Err::<Val, Fault>(e@),
        },
    decreases expr, 0int,
{
    match expr {
        Expr::IntLiteral(n) => Ok(Value::Int(*n)),
        Expr::BoolLiteral(b) => Ok(Value::Bool(*b)),
        Expr::StringLiteral(s) => Ok(Value::String(s.clone())),
        Expr::ParamRef { feature_id, param_name } => evaluate_param(
            feature_id,
            param_name,
            config,
            registry,
        ),
        Expr::FeatureSelected(feature_id) => Ok(
            Value::Bool(contains_name(&config.selected, feature_id)),
        ),
        Expr::Comparison { op, left, right } => {
            match evaluate_expr(left, config, registry) {
                Ok(left_val) => match evaluate_expr(right, config, registry) {
                    Ok(right_val) => apply_compare(*op, &left_val, &right_val),
                    Err(e) => Err(e),
                },
                Err(e) => Err(e),
            }
        },
        Expr::Implication { left, right } => {
            match evaluate_bool(left, config, registry) {
                Ok(left_val) => {
                    if !left_val {
                        Ok(Value::Bool(true))
                    } else {
                        match evaluate_bool(right, config, registry) {
                            Ok(right_val) => Ok(Value::Bool(right_val)),
                            Err(e) => Err(e),
                        }
                    }
                },
                Err(e) => Err(e),
            }
        },
        Expr::And { left, right } => {
            match evaluate_bool(left, config, registry) {
                Ok(left_val) => match evaluate_bool(right, config, registry) {
                    Ok(right_val) => Ok(Value::Bool(left_val && right_val)),
                    Err(e) => Err(e),
                },
                Err(e) => Err(e),
            }
        },
        Expr::Or { left, right } => {
            match evaluate_bool(left, config, registry) {
                Ok(left_val) => match evaluate_bool(right, config, registry) {
                    Ok(right_val) => Ok(Value::Bool(left_val || right_val)),
                    Err(e) => Err(e),
                },
                Err(e) => Err(e),
            }
        },
        Expr::Not(inner) => {
            match evaluate_bool(inner, config, registry) {
                Ok(val) => Ok(Value::Bool(!val)),
                Err(e) => Err(e),
            }
        },
        Expr::Arithmetic { op, left, right } => {
            match evaluate_int(left, config, registry) {
                Ok(left_val) => match evaluate_int(right, config, registry) {
                    Ok(right_val) => apply_arith(*op, left_val, right_val),
                    Err(e) => Err(e),
                },
                Err(e) => Err(e),
            }
        },
    }
}

/// Evaluates a constraint: reduces it to a value, which must be a boolean.
pub fn evaluate_constraint(expr: &Expr, config: &ConfigElement, registry: &Registry) -> (res: Result<
    bool,
    EvalError,
>)
    ensures
        match res {
            Ok(b) => verdict(expr@, *config, registry@) == Ok::<bool, Fault>(b),
            Err(e) => verdict(expr@, *config, registry@) == Err::<bool, Fault>(e@),
        },
{
    evaluate_bool(expr, config, registry)
}

/// How a value is shown in a message.
pub open spec fn value_text(v: Val) -> Seq<char> {
    match v {
        Val::Int(n) => "Int("@ + signed_decimal_text(n as int) + ")"@,
        Val::Bool(b) => if b {
            "Bool(true)"@
        } else {
            "Bool(false)"@
        },
        Val::Text(s) => "String(\""@ + s + "\")"@,
    }
}

/// The message of a failure.
pub open spec fn fault_text(f: Fault) -> Seq<char> {
    match f {
        Fault::ExpectedInteger(v) => "Expected integer, got "@ + value_text(v),
        Fault::ExpectedBoolean(v) => "Expected boolean, got "@ + value_text(v),
        Fault::ExpectedString(v) => "Expected string, got "@ + value_text(v),
        Fault::FeatureNotFound(id) => "Feature '"@ + id + "' not found"@,
        Fault::ParameterNotFound { param_name, feature_id } => "Parameter '"@ + param_name
            + "' not found in feature '"@ + feature_id + "'"@,
        Fault::CannotConvert => "Cannot convert parameter value"@,
        Fault::BooleanComparison => "Comparison operator not supported for booleans"@,
        Fault::StringComparison => "Comparison operator not supported for strings"@,
        Fault::TypeMismatch => "Type mismatch in comparison"@,
        Fault::DivisionByZero => "Division by zero"@,
        Fault::Overflow => "Arithmetic overflow"@,
    }
}

/// Shows a value as a message does.
pub fn show_value(v: &Value) -> (s: String)
    ensures
        s@ == value_text(v@),
{
    match v {
        Value::Int(n) => {
            let mut s = "Int(".to_owned();
            s.append(signed_decimal(*n).as_str());
            s.append(")");
            s
        },
        Value::Bool(b) => {
            if *b {
                "Bool(true)".to_owned()
            } else {
                "Bool(false)".to_owned()
            }
        },
        Value::String(t) => {
            let mut s = "String(\"".to_owned();
            s.append(t.as_str());
            s.append("\")");
            s
        },
    }
}

impl EvalError {
    /// The message of the failure.
    pub fn message(&self) -> (s: String)
        ensures
            s@ == fault_text(self@),
    {
        match self {
            EvalError::ExpectedInteger(v) => {
                let mut s = "Expected integer, got ".to_owned();
                s.append(show_value(v).as_str());
                s
            },
            EvalError::ExpectedBoolean(v) => {
                let mut s = "Expected boolean, got ".to_owned();
                s.append(show_value(v).as_str());
                s
            },
            EvalError::ExpectedString(v) => {
                let mut s = "Expected string, got ".to_owned();
                s.append(show_value(v).as_str());
                s
            },
            EvalError::FeatureNotFound(id) => {
                let mut s = "Feature '".to_owned();
                s.append(id.as_str());
                s.append("' not found");
                s
            },
            EvalError::ParameterNotFound { param_name, feature_id } => {
                let mut s = "Parameter '".to_owned();
                s.append(param_name.as_str());
                s.append("' not found in feature '");
                s.append(feature_id.as_str());
                s.append("'");
                s
            },
            EvalError::CannotConvert => "Cannot convert parameter value".to_owned(),
            EvalError::BooleanComparison => "Comparison operator not supported for booleans".to_owned(),
            EvalError::StringComparison => "Comparison operator not supported for strings".to_owned(),
            EvalError::TypeMismatch => "Type mismatch in comparison".to_owned(),
            EvalError::DivisionByZero => "Division by zero".to_owned(),
            EvalError::Overflow => "Arithmetic overflow".to_owned(),
        }
    }
}

} // verus!
