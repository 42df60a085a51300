use assembly_plugin::constraint_parser::{
    find_operator, parse_constraint, parse_expr, ArithOp, CompOp, Expr,
};

#[test]
fn test_parse_simple_comparison() {
    let expr = parse_constraint("cache_size >= 16").unwrap();
    match expr {
        Expr::Comparison { op: CompOp::Ge, .. } => {}
        _ => panic!("Expected comparison"),
    }
}

#[test]
fn test_parse_implication() {
    let expr = parse_constraint("enable_compression => cache_size >= 128").unwrap();
    match expr {
        Expr::Implication { .. } => {}
        _ => panic!("Expected implication"),
    }
}

#[test]
fn test_parse_feature_selected() {
    let expr = parse_constraint("F-CACHE is selected").unwrap();
    match expr {
        Expr::FeatureSelected(id) => assert_eq!(id, "F-CACHE"),
        _ => panic!("Expected feature selected"),
    }
}

#[test]
fn test_parse_param_ref() {
    let expr = parse_expr("F-CACHE.cache_size").unwrap();
    match expr {
        Expr::ParamRef { feature_id, param_name } => {
            assert_eq!(feature_id, "F-CACHE");
            assert_eq!(param_name, "cache_size");
        }
        _ => panic!("Expected param ref"),
    }
}

#[test]
fn test_parse_arithmetic() {
    let expr = parse_expr("cache_size + 100").unwrap();
    match expr {
        Expr::Arithmetic { op: ArithOp::Add, .. } => {}
        _ => panic!("Expected arithmetic"),
    }
}

#[test]
fn test_parse_and() {
    let expr = parse_constraint("cache_size >= 16 && cache_size <= 2048").unwrap();
    match expr {
        Expr::And { .. } => {}
        _ => panic!("Expected AND"),
    }
}

#[test]
fn test_parse_or() {
    let expr = parse_constraint("cache_size == 1024 || cache_size == 2048").unwrap();
    match expr {
        Expr::Or { .. } => {}
        _ => panic!("Expected OR"),
    }
}

fn number(n: i64) -> Box<Expr> {
    Box::new(Expr::IntLiteral(n))
}

fn text(s: &str) -> Box<Expr> {
    Box::new(Expr::StringLiteral(s.to_string()))
}

fn param(feature: &str, name: &str) -> Box<Expr> {
    Box::new(Expr::ParamRef { feature_id: feature.to_string(), param_name: name.to_string() })
}

#[test]
fn hyphenated_identifier_is_not_subtraction() {
    let expr = parse_constraint("F-TEST.size + 50 >= 140").unwrap();
    let expected = Expr::Comparison {
        op: CompOp::Ge,
        left: Box::new(Expr::Arithmetic { op: ArithOp::Add, left: param("F-TEST", "size"), right: number(50) }),
        right: number(140),
    };
    assert_eq!(expr, expected);
}

#[test]
fn binary_operators_associate_to_the_right() {
    let expr = parse_expr("10 - 4 - 3").unwrap();
    let expected = Expr::Arithmetic {
        op: ArithOp::Sub,
        left: number(10),
        right: Box::new(Expr::Arithmetic { op: ArithOp::Sub, left: number(4), right: number(3) }),
    };
    assert_eq!(expr, expected);
    let expr = parse_constraint("a => b => c").unwrap();
    let expected = Expr::Implication {
        left: text("a"),
        right: Box::new(Expr::Implication { left: text("b"), right: text("c") }),
    };
    assert_eq!(expr, expected);
}

#[test]
fn implication_binds_weaker_than_or_and_or_weaker_than_and() {
    let expr = parse_constraint("a || b && c => d").unwrap();
    let expected = Expr::Implication {
        left: Box::new(Expr::Or {
            left: text("a"),
            right: Box::new(Expr::And { left: text("b"), right: text("c") }),
        }),
        right: text("d"),
    };
    assert_eq!(expr, expected);
}

#[test]
fn comparison_operators_in_their_order() {
    for (source, op) in [
        ("a >= 1", CompOp::Ge),
        ("a <= 1", CompOp::Le),
        ("a == 1", CompOp::Eq),
        ("a != 1", CompOp::Ne),
        ("a > 1", CompOp::Gt),
        ("a < 1", CompOp::Lt),
    ] {
        let expr = parse_constraint(source).unwrap();
        assert_eq!(expr, Expr::Comparison { op, left: text("a"), right: number(1) });
    }
}

#[test]
fn arithmetic_operators_need_white_space() {
    assert_eq!(
        parse_expr("3 * 4").unwrap(),
        Expr::Arithmetic { op: ArithOp::Mul, left: number(3), right: number(4) }
    );
    assert_eq!(
        parse_expr("12 / 4").unwrap(),
        Expr::Arithmetic { op: ArithOp::Div, left: number(12), right: number(4) }
    );
    assert_eq!(parse_expr("a-b").unwrap(), Expr::StringLiteral("a-b".to_string()));
    assert_eq!(
        parse_expr("a -b").unwrap(),
        Expr::Arithmetic { op: ArithOp::Sub, left: text("a"), right: text("b") }
    );
    assert_eq!(parse_expr("a- b").unwrap(), Expr::Arithmetic { op: ArithOp::Sub, left: text("a"), right: text("b") });
}

#[test]
fn the_leftmost_arithmetic_operator_splits() {
    assert_eq!(
        parse_expr("1 - 2 + 3").unwrap(),
        Expr::Arithmetic {
            op: ArithOp::Sub,
            left: number(1),
            right: Box::new(Expr::Arithmetic { op: ArithOp::Add, left: number(2), right: number(3) }),
        }
    );
    assert_eq!(
        parse_expr("2 * 3 + 4").unwrap(),
        Expr::Arithmetic {
            op: ArithOp::Mul,
            left: number(2),
            right: Box::new(Expr::Arithmetic { op: ArithOp::Add, left: number(3), right: number(4) }),
        }
    );
    assert_eq!(
        parse_expr("8 / 2 - 1").unwrap(),
        Expr::Arithmetic {
            op: ArithOp::Div,
            left: number(8),
            right: Box::new(Expr::Arithmetic { op: ArithOp::Sub, left: number(2), right: number(1) }),
        }
    );
    assert_eq!(
        parse_expr("1 + 2 * 3").unwrap(),
        Expr::Arithmetic {
            op: ArithOp::Add,
            left: number(1),
            right: Box::new(Expr::Arithmetic { op: ArithOp::Mul, left: number(2), right: number(3) }),
        }
    );
}

#[test]
fn a_sign_without_white_space_belongs_to_the_number() {
    assert_eq!(parse_expr("-5").unwrap(), Expr::IntLiteral(-5));
    assert_eq!(parse_expr("+5").unwrap(), Expr::IntLiteral(5));
    assert_eq!(parse_expr(" -5 ").unwrap(), Expr::IntLiteral(-5));
    assert_eq!(parse_expr("-9223372036854775808").unwrap(), Expr::IntLiteral(i64::MIN));
    assert_eq!(parse_expr("-").unwrap(), Expr::StringLiteral("-".to_string()));
    assert_eq!(parse_expr("5-").unwrap(), Expr::StringLiteral("5-".to_string()));
    assert_eq!(
        parse_constraint("x >= -5").unwrap(),
        Expr::Comparison { op: CompOp::Ge, left: text("x"), right: number(-5) }
    );
    assert_eq!(
        parse_expr("a - -5").unwrap(),
        Expr::Arithmetic { op: ArithOp::Sub, left: text("a"), right: number(-5) }
    );
    assert_eq!(
        parse_expr("- 5").unwrap(),
        Expr::Arithmetic { op: ArithOp::Sub, left: text(""), right: number(5) }
    );
    assert_eq!(find_operator("-5", "-"), None);
    assert_eq!(find_operator("5-", "-"), None);
    assert_eq!(find_operator("- 5", "-"), Some(0));
    assert_eq!(find_operator("5 -", "-"), Some(2));
}

#[test]
fn atoms() {
    assert_eq!(parse_expr("true").unwrap(), Expr::BoolLiteral(true));
    assert_eq!(parse_expr(" false ").unwrap(), Expr::BoolLiteral(false));
    assert_eq!(parse_expr("42").unwrap(), Expr::IntLiteral(42));
    assert_eq!(parse_expr("007").unwrap(), Expr::IntLiteral(7));
    assert_eq!(parse_expr("9223372036854775807").unwrap(), Expr::IntLiteral(i64::MAX));
    assert_eq!(
        parse_expr("9223372036854775808").unwrap(),
        Expr::StringLiteral("9223372036854775808".to_string())
    );
    assert_eq!(parse_expr("\"debug\"").unwrap(), Expr::StringLiteral("debug".to_string()));
    assert_eq!(parse_expr("'debug'").unwrap(), Expr::StringLiteral("debug".to_string()));
    assert_eq!(parse_expr("\"").unwrap(), Expr::StringLiteral("\"".to_string()));
    assert_eq!(parse_expr("debug").unwrap(), Expr::StringLiteral("debug".to_string()));
    assert_eq!(parse_expr("").unwrap(), Expr::StringLiteral("".to_string()));
    assert_eq!(parse_expr("a.b.c").unwrap(), Expr::StringLiteral("a.b.c".to_string()));
    assert_eq!(parse_expr(" F . p ").unwrap(), *param("F", "p"));
}

#[test]
fn negation_and_predicates() {
    assert_eq!(
        parse_constraint("!F-X is selected").unwrap(),
        Expr::Not(Box::new(Expr::FeatureSelected("F-X".to_string())))
    );
    assert_eq!(
        parse_constraint("  F-A is selected is selected ").unwrap(),
        Expr::FeatureSelected("F-A".to_string())
    );
    assert_eq!(parse_constraint("!true").unwrap(), Expr::Not(Box::new(Expr::BoolLiteral(true))));
    assert_eq!(parse_expr("! true").unwrap(), Expr::Not(Box::new(Expr::BoolLiteral(true))));
    assert_eq!(
        parse_expr("!!a").unwrap(),
        Expr::Not(Box::new(Expr::Not(text("a"))))
    );
    assert_eq!(parse_expr("!").unwrap(), Expr::Not(text("")));
}

#[test]
fn negation_binds_to_its_operand() {
    assert_eq!(
        parse_constraint("!a == b").unwrap(),
        Expr::Comparison { op: CompOp::Eq, left: Box::new(Expr::Not(text("a"))), right: text("b") }
    );
    assert_eq!(
        parse_constraint("!a && !b").unwrap(),
        Expr::And { left: Box::new(Expr::Not(text("a"))), right: Box::new(Expr::Not(text("b"))) }
    );
    assert_eq!(
        parse_constraint("a == !b").unwrap(),
        Expr::Comparison { op: CompOp::Eq, left: text("a"), right: Box::new(Expr::Not(text("b"))) }
    );
    assert_eq!(
        parse_expr("!F.n + 1").unwrap(),
        Expr::Arithmetic { op: ArithOp::Add, left: Box::new(Expr::Not(param("F", "n"))), right: number(1) }
    );
}

#[test]
fn a_predicate_is_an_operand() {
    assert_eq!(
        parse_constraint("F-A is selected == true").unwrap(),
        Expr::Comparison {
            op: CompOp::Eq,
            left: Box::new(Expr::FeatureSelected("F-A".to_string())),
            right: Box::new(Expr::BoolLiteral(true)),
        }
    );
    assert_eq!(
        parse_constraint("F-A is selected && F-B is selected").unwrap(),
        Expr::And {
            left: Box::new(Expr::FeatureSelected("F-A".to_string())),
            right: Box::new(Expr::FeatureSelected("F-B".to_string())),
        }
    );
}

#[test]
fn the_leftmost_comparison_operator_splits() {
    assert_eq!(
        parse_constraint("a > b >= c").unwrap(),
        Expr::Comparison { op: CompOp::Gt, left: text("a"), right: text("b >= c") }
    );
    assert_eq!(
        parse_constraint("a >= b > c").unwrap(),
        Expr::Comparison { op: CompOp::Ge, left: text("a"), right: text("b > c") }
    );
}

#[test]
fn operators_inside_parentheses_are_skipped() {
    assert_eq!(find_operator("(a => b) => c", "=>"), Some(9));
    assert_eq!(find_operator("(a => b)", "=>"), None);
    assert_eq!(find_operator("a >= 1", ">"), Some(2));
    assert_eq!(find_operator("F-CACHE", "-"), None);
    assert_eq!(find_operator("F - CACHE", "-"), Some(2));
    assert_eq!(find_operator("é + 1", "+"), Some(2));
    assert_eq!(find_operator(") a + b", "+"), None);
}

#[test]
fn false_antecedent_parses_to_an_implication() {
    let expr = parse_constraint("false => ((( + ").unwrap();
    match expr {
        Expr::Implication { left, .. } => assert_eq!(*left, Expr::BoolLiteral(false)),
        _ => panic!("Expected implication"),
    }
}

#[test]
fn text_built_character_by_character() {
    // The identifier is rebuilt from its characters: a parser that handed its
    // input back would keep the white space and the predicate.
    match parse_constraint("  Fü-1 is selected").unwrap() {
        Expr::FeatureSelected(id) => assert_eq!(id, "Fü-1"),
        _ => panic!("Expected feature selected"),
    }
}

#[test]
fn every_text_parses() {
    let alphabet: Vec<char> =
        vec!['a', '1', ' ', '=', '>', '<', '!', '&', '|', '+', '-', '*', '/', '.', '(', ')', '"', '\'', 'é'];
    let mut state: u64 = 0x2545F4914F6CDD1D;
    let mut next = move || {
        state ^= state << 13;
        state ^= state >> 7;
        state ^= state << 17;
        state
    };
    for _ in 0..5000 {
        let len = (next() % 12) as usize;
        let text: String = (0..len).map(|_| alphabet[(next() % alphabet.len() as u64) as usize]).collect();
        let first = parse_constraint(&text);
        let second = parse_constraint(&text);
        assert!(first.is_ok());
        assert_eq!(first, second);
        assert!(parse_expr(&text).is_ok());
    }
}
