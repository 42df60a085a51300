//! What holds of every constraint: the value of an arithmetic term, and the
//! truth of an implication whose antecedent is the word `false`.

use crate::constraint_evaluator::{arith, eval, eval_bool, eval_int, verdict, Fault, Val};
use crate::constraint_parser::{
    all_digits, digits_value, int_literal, is_digit,
    atom, depth_at, find_op, find_text, first_arith, first_compare, first_logical, is_arith_sign,
    is_first_op, lemma_find_op_found, lemma_find_op_none, lemma_find_text_none,
    lemma_first_sign_found, matches_at, op_at, parse_constraint_spec, parse_expr_spec, sign_at,
    single_dot, ArithOp, Term,
};
use crate::text::{
    decimal_text, digit_char,
    drop_spaces, is_space, lemma_drop_spaces, lemma_skip_spaces, lemma_trim_len, skip_spaces, trim,
};
use crate::types::config::{names, ConfigElement};
use crate::types::element::Element;
use crate::types::entry::{
    has_key, is_key_index, key_index, lemma_key_index_unique, value_at, Entry,
};
use crate::types::feature::FeatureElement;
use vstd::prelude::*;

verus! {

/// A character that is neither white space nor part of any operator.
pub open spec fn is_plain_char(c: char) -> bool {
    &&& !is_space(c)
    &&& c != '='
    &&& c != '|'
    &&& c != '&'
    &&& c != '>'
    &&& c != '<'
    &&& c != '!'
    &&& c != '+'
    &&& c != '-'
    &&& c != '*'
    &&& c != '/'
    &&& c != '.'
}

/// A text of plain characters.
pub open spec fn is_plain_text(w: Seq<char>) -> bool {
    forall|i: int| 0 <= i < w.len() ==> is_plain_char(#[trigger] w[i])
}

/// An operator whose first character the text does not hold stands nowhere in it.
pub proof fn lemma_find_op_absent(s: Seq<char>, op: Seq<char>)
    requires
        op.len() > 0,
        forall|i: int| 0 <= i < s.len() ==> #[trigger] s[i] != op[0],
    ensures
        find_op(s, op) is None,
{
    assert forall|j: int| 0 <= j < s.len() implies !#[trigger] op_at(s, op, j) by {
        if matches_at(s, op, j) {
            assert(s[j + 0] == op[0]);
        }
    }
    lemma_find_op_none(s, op);
}

/// A text whose first character the text `s` does not hold stands nowhere in it.
pub proof fn lemma_find_text_absent(s: Seq<char>, pat: Seq<char>)
    requires
        pat.len() > 0,
        forall|i: int| 0 <= i < s.len() ==> #[trigger] s[i] != pat[0],
    ensures
        find_text(s, pat) is None,
{
    assert forall|j: int| 0 <= j <= s.len() implies !#[trigger] matches_at(s, pat, j) by {
        if matches_at(s, pat, j) {
            assert(s[j + 0] == pat[0]);
        }
    }
    lemma_find_text_none(s, pat);
}

/// Before the first parenthesis the depth is zero.
pub proof fn lemma_depth_zero(s: Seq<char>, i: int)
    requires
        0 <= i <= s.len(),
        forall|k: int| 0 <= k < i ==> #[trigger] s[k] != '(' && s[k] != ')',
    ensures
        depth_at(s, i) == 0,
    decreases i,
{
    if i > 0 {
        lemma_depth_zero(s, i - 1);
        assert(s[i - 1] != '(' && s[i - 1] != ')');
    }
}

/// A text without white space at its ends is its own trimmed form.
pub proof fn lemma_trim_tight(w: Seq<char>)
    requires
        w.len() > 0 ==> !is_space(w[0]) && !is_space(w.last()),
    ensures
        trim(w) == w,
{
    lemma_skip_spaces(w, 0);
    let lo = skip_spaces(w, 0);
    assert(lo == 0);
    lemma_drop_spaces(w, 0, w.len() as int);
    let hi = drop_spaces(w, 0, w.len() as int);
    if hi < w.len() {
        assert(is_space(w[w.len() - 1]));
    }
    assert(w.subrange(0, w.len() as int) =~= w);
}

/// A text of plain characters is an atom, as an expression and as a constraint.
pub proof fn lemma_plain_is_atom(w: Seq<char>)
    requires
        is_plain_text(w),
    ensures
        trim(w) == w,
        parse_expr_spec(w) == atom(w),
        parse_constraint_spec(w) == atom(w),
{
    if w.len() > 0 {
        assert(is_plain_char(w[0]));
        assert(is_plain_char(w[w.len() - 1]));
    }
    lemma_trim_tight(w);
    assert forall|i: int| 0 <= i < w.len() implies is_plain_char(#[trigger] w[i]) by {}
    reveal_strlit(" is selected");
    assert(" is selected"@[0] == ' ');
    assert(is_space(' '));
    lemma_find_text_absent(w, " is selected"@);
    lemma_find_op_absent(w, seq!['+']);
    lemma_find_op_absent(w, seq!['-']);
    lemma_find_op_absent(w, seq!['*']);
    lemma_find_op_absent(w, seq!['/']);
    assert(first_arith(w) is None);
    assert(parse_expr_spec(w) == atom(w));
    lemma_find_op_absent(w, seq!['=', '>']);
    lemma_find_op_absent(w, seq!['|', '|']);
    lemma_find_op_absent(w, seq!['&', '&']);
    assert(first_logical(w) is None);
    lemma_find_op_absent(w, seq!['>', '=']);
    lemma_find_op_absent(w, seq!['<', '=']);
    lemma_find_op_absent(w, seq!['=', '=']);
    lemma_find_op_absent(w, seq!['!', '=']);
    lemma_find_op_absent(w, seq!['>']);
    lemma_find_op_absent(w, seq!['<']);
    assert(first_compare(w) is None);
    if w.len() > 0 {
        assert(w[0] != '!');
    }
    assert(parse_constraint_spec(w) == parse_expr_spec(w));
}

/// A constraint whose trimmed text is of plain characters is the atom of that text.
pub proof fn lemma_padded_plain_is_atom(u: Seq<char>)
    requires
        is_plain_text(trim(u)),
    ensures
        parse_constraint_spec(u) == atom(trim(u)),
{
    let w = trim(u);
    lemma_trim_len(u);
    lemma_plain_is_atom(w);
    assert(w.len() <= u.len());
    lemma_find_op_absent(w, seq!['=', '>']);
    lemma_find_op_absent(w, seq!['|', '|']);
    lemma_find_op_absent(w, seq!['&', '&']);
    assert(first_logical(w) is None);
    lemma_find_op_absent(w, seq!['>', '=']);
    lemma_find_op_absent(w, seq!['<', '=']);
    lemma_find_op_absent(w, seq!['=', '=']);
    lemma_find_op_absent(w, seq!['!', '=']);
    lemma_find_op_absent(w, seq!['>']);
    lemma_find_op_absent(w, seq!['<']);
    assert(first_compare(w) is None);
    if w.len() > 0 {
        assert(is_plain_char(w[0]));
    }
    assert(parse_constraint_spec(u) == parse_expr_spec(w));
}

/// The word `false` is the boolean literal.
pub proof fn lemma_false_word()
    ensures
        is_plain_text("false"@),
        atom("false"@) == Term::Bool(false),
{
    reveal_strlit("false");
    reveal_strlit("true");
    let w = "false"@;
    assert(w.len() == 5 && w[0] == 'f' && w[1] == 'a' && w[2] == 'l' && w[3] == 's' && w[4] == 'e');
    assert(is_plain_text(w)) by {
        assert forall|i: int| 0 <= i < w.len() implies is_plain_char(#[trigger] w[i]) by {
            if i == 0 {
            } else if i == 1 {
            } else if i == 2 {
            } else if i == 3 {
            } else {
            }
        }
    }
    reveal_strlit(" is selected");
    assert(" is selected"@[0] == ' ');
    assert(is_space(' '));
    lemma_find_text_absent(w, " is selected"@);
    lemma_find_text_absent(w, seq!['.']);
    assert(!single_dot(w));
    assert("true"@.len() == 4);
    assert(w != "true"@);
}

/// An implication with a false antecedent is true, whatever its consequent.
pub proof fn lemma_false_implies(right: Term, cfg: ConfigElement, es: Seq<Entry<Element>>)
    ensures
        verdict(
            Term::Implies { left: Box::new(Term::Bool(false)), right: Box::new(right) },
            cfg,
            es,
        ) == Ok::<bool, Fault>(true),
{
    let t = Term::Implies { left: Box::new(Term::Bool(false)), right: Box::new(right) };
    assert(eval(Term::Bool(false), cfg, es) == Ok::<Val, Fault>(Val::Bool(false)));
    assert(eval_bool(Term::Bool(false), cfg, es) == Ok::<bool, Fault>(false));
    assert(eval(t, cfg, es) == Ok::<Val, Fault>(Val::Bool(true)));
    assert(eval_bool(t, cfg, es) == Ok::<bool, Fault>(true));
}

/// The text `false =>` followed by anything parses to an implication whose
/// antecedent is the literal `false`, and evaluates to true: the consequent is
/// not evaluated, and cannot make the constraint fail.
pub proof fn lemma_false_antecedent(x: Seq<char>, cfg: ConfigElement, es: Seq<Entry<Element>>)
    ensures
        parse_constraint_spec("false =>"@ + x) matches Term::Implies { left, right } && *left
            == Term::Bool(false),
        verdict(parse_constraint_spec("false =>"@ + x), cfg, es) == Ok::<bool, Fault>(true),
{
    reveal_strlit("false =>");
    reveal_strlit("false");
    let head = "false =>"@;
    let s = head + x;
    assert(head.len() == 8);
    assert(s[0] == 'f' && s[1] == 'a' && s[2] == 'l' && s[3] == 's' && s[4] == 'e' && s[5] == ' '
        && s[6] == '=' && s[7] == '>') by {
        assert(s[0] == head[0] && s[1] == head[1] && s[2] == head[2] && s[3] == head[3]);
        assert(s[4] == head[4] && s[5] == head[5] && s[6] == head[6] && s[7] == head[7]);
    }
    lemma_trim_len(s);
    lemma_skip_spaces(s, 0);
    assert(skip_spaces(s, 0) == 0);
    lemma_drop_spaces(s, 0, s.len() as int);
    let hi = drop_spaces(s, 0, s.len() as int);
    if hi <= 7 {
        assert(is_space(s[7]));
    }
    let t = trim(s);
    assert(t == s.subrange(0, hi));
    assert(t.len() >= 8);
    assert(t[0] == 'f' && t[1] == 'a' && t[2] == 'l' && t[3] == 's' && t[4] == 'e' && t[5] == ' '
        && t[6] == '=' && t[7] == '>');
    let op = seq!['=', '>'];
    assert(is_first_op(t, op, 6)) by {
        lemma_depth_zero(t, 6);
        assert(matches_at(t, op, 6)) by {
            assert forall|k: int| 0 <= k < op.len() implies t[6 + k] == #[trigger] op[k] by {
                if k == 0 {
                } else {
                }
            }
        }
        assert(!is_arith_sign(op));
        assert(op_at(t, op, 6));
        assert forall|j: int| 0 <= j < 6 implies !#[trigger] op_at(t, op, j) by {
            if matches_at(t, op, j) {
                assert(t[j + 0] == op[0]);
            }
        }
    }
    lemma_find_op_found(t, op, 6);
    assert(first_logical(t) == Some((0int, 6int)));
    let u = t.subrange(0, 6);
    let rest = t.subrange(8, t.len() as int);
    assert(parse_constraint_spec(s) == Term::Implies {
        left: Box::new(parse_constraint_spec(u)),
        right: Box::new(parse_constraint_spec(rest)),
    });
    assert(u.len() == 6 && u[0] == 'f' && u[1] == 'a' && u[2] == 'l' && u[3] == 's' && u[4] == 'e'
        && u[5] == ' ');
    lemma_skip_spaces(u, 0);
    assert(skip_spaces(u, 0) == 0);
    lemma_drop_spaces(u, 0, 6);
    let uh = drop_spaces(u, 0, 6);
    assert(is_space(' '));
    if uh <= 4 {
        assert(is_space(u[4]));
    }
    assert(uh == 5);
    assert(trim(u) =~= "false"@);
    lemma_false_word();
    lemma_padded_plain_is_atom(u);
    assert(parse_constraint_spec(u) == Term::Bool(false));
    lemma_false_implies(parse_constraint_spec(rest), cfg, es);
}

/// The value of an arithmetic term over two terms that reduce to integers is
/// the result of the operation on those integers.
pub proof fn lemma_arithmetic_value(
    sign: ArithOp,
    left: Term,
    right: Term,
    a: i64,
    b: i64,
    cfg: ConfigElement,
    es: Seq<Entry<Element>>,
)
    requires
        eval(left, cfg, es) == Ok::<Val, Fault>(Val::Int(a)),
        eval(right, cfg, es) == Ok::<Val, Fault>(Val::Int(b)),
    ensures
        eval(Term::Arith { sign, left: Box::new(left), right: Box::new(right) }, cfg, es) == arith(
            sign,
            a,
            b,
        ),
{
    assert(eval_int(left, cfg, es) == Ok::<i64, Fault>(a));
    assert(eval_int(right, cfg, es) == Ok::<i64, Fault>(b));
}

/// Integer literals are added, subtracted and multiplied exactly where the
/// result fits 64 signed bits, and divided with rounding toward zero.
pub proof fn lemma_arithmetic_of_literals(
    sign: ArithOp,
    a: i64,
    b: i64,
    cfg: ConfigElement,
    es: Seq<Entry<Element>>,
)
    ensures
        eval(
            Term::Arith { sign, left: Box::new(Term::Int(a)), right: Box::new(Term::Int(b)) },
            cfg,
            es,
        ) == arith(sign, a, b),
{
    lemma_arithmetic_value(sign, Term::Int(a), Term::Int(b), a, b, cfg, es);
}

/// A decimal numeral is made of digits, and its value is the number it was made from.
pub proof fn lemma_numeral(n: nat)
    ensures
        decimal_text(n).len() >= 1,
        all_digits(decimal_text(n)),
        is_plain_text(decimal_text(n)),
        digits_value(decimal_text(n)) == n,
    decreases n,
{
    let s = decimal_text(n);
    if n < 10 {
        assert(s.len() == 1 && s[0] == digit_char(n as int));
        assert(s.drop_last() =~= Seq::<char>::empty());
        assert(digits_value(s.drop_last()) == 0);
    } else {
        lemma_numeral(n / 10);
        let head = decimal_text(n / 10);
        assert(s.drop_last() =~= head);
        assert(s.last() == digit_char((n % 10) as int));
        assert forall|i: int| 0 <= i < s.len() implies is_digit(#[trigger] s[i]) by {
            if i < head.len() {
                assert(s[i] == head[i]);
            }
        }
        assert forall|i: int| 0 <= i < s.len() implies is_plain_char(#[trigger] s[i]) by {
            if i < head.len() {
                assert(s[i] == head[i]);
            }
        }
    }
}

/// A numeral within 64 signed bits is the integer literal of its number.
pub proof fn lemma_numeral_is_literal(n: nat)
    requires
        n <= i64::MAX,
    ensures
        atom(decimal_text(n)) == Term::Int(n as i64),
{
    reveal_strlit("true");
    reveal_strlit("false");
    lemma_numeral(n);
    let s = decimal_text(n);
    assert(is_digit(s[0]));
    assert(is_plain_char(s[0]));
    reveal_strlit(" is selected");
    assert(" is selected"@[0] == ' ');
    assert(is_space(' '));
    lemma_find_text_absent(s, " is selected"@);
    lemma_find_text_absent(s, seq!['.']);
    assert(!single_dot(s));
    assert(s != "true"@) by {
        assert("true"@[0] == 't');
    }
    assert(s != "false"@) by {
        assert("false"@[0] == 'f');
    }
    assert(int_literal(s) == Some(n as i64));
}

/// An expression whose trimmed text is of plain characters is the atom of that text.
pub proof fn lemma_padded_plain_expr(u: Seq<char>)
    requires
        is_plain_text(trim(u)),
    ensures
        parse_expr_spec(u) == atom(trim(u)),
{
    let w = trim(u);
    lemma_plain_is_atom(w);
    assert(parse_expr_spec(u) == parse_expr_spec(w));
}

/// A text without white space at its ends, with one space before it or
/// after it, is trimmed to itself.
pub proof fn lemma_trim_one_space(w: Seq<char>)
    requires
        w.len() > 0,
        !is_space(w[0]),
        !is_space(w.last()),
    ensures
        trim(seq![' '] + w) == w,
        trim(w + seq![' ']) == w,
{
    assert(is_space(' '));
    let l = seq![' '] + w;
    lemma_skip_spaces(l, 0);
    lemma_skip_spaces(l, 1);
    assert(l[0] == ' ' && l[1] == w[0]);
    assert(skip_spaces(l, 1) == 1);
    assert(skip_spaces(l, 0) == 1);
    lemma_drop_spaces(l, 1, l.len() as int);
    assert(l[l.len() - 1] == w.last());
    assert(drop_spaces(l, 1, l.len() as int) == l.len());
    assert(l.subrange(1, l.len() as int) =~= w);
    let r = w + seq![' '];
    lemma_skip_spaces(r, 0);
    assert(r[0] == w[0]);
    assert(skip_spaces(r, 0) == 0);
    lemma_drop_spaces(r, 0, r.len() as int);
    let hi = drop_spaces(r, 0, r.len() as int);
    assert(r[r.len() - 1] == ' ' && r[r.len() - 2] == w.last());
    if hi <= r.len() - 2 {
        assert(is_space(r[r.len() - 2]));
    }
    assert(hi == r.len() - 1);
    assert(r.subrange(0, r.len() - 1) =~= w);
}

/// No arithmetic sign stands where the character is none of the four.
pub proof fn lemma_not_a_sign(t: Seq<char>, j: int)
    requires
        0 <= j < t.len() ==> t[j] != '+' && t[j] != '-' && t[j] != '*' && t[j] != '/',
    ensures
        sign_at(t, j) is None,
{
    if 0 <= j < t.len() {
        if matches_at(t, seq!['+'], j) {
            assert(t[j + 0] == seq!['+'][0]);
        }
        if matches_at(t, seq!['-'], j) {
            assert(t[j + 0] == seq!['-'][0]);
        }
        if matches_at(t, seq!['*'], j) {
            assert(t[j + 0] == seq!['*'][0]);
        }
        if matches_at(t, seq!['/'], j) {
            assert(t[j + 0] == seq!['/'][0]);
        }
    }
}

/// The character of an arithmetic operator.
pub open spec fn sign_char(sign: ArithOp) -> char {
    match sign {
        ArithOp::Add => '+',
        ArithOp::Sub => '-',
        ArithOp::Mul => '*',
        ArithOp::Div => '/',
    }
}

/// Two numerals with an arithmetic sign between them, set off by a space on
/// each side, parse to the operation on the two integers and evaluate to its
/// result.
pub proof fn lemma_arithmetic_round_trip(
    a: nat,
    b: nat,
    sign: ArithOp,
    cfg: ConfigElement,
    es: Seq<Entry<Element>>,
)
    requires
        a <= i64::MAX,
        b <= i64::MAX,
    ensures
        parse_expr_spec(decimal_text(a) + seq![' ', sign_char(sign), ' '] + decimal_text(b))
            == (Term::Arith {
            sign,
            left: Box::new(Term::Int(a as i64)),
            right: Box::new(Term::Int(b as i64)),
        }),
        eval(
            parse_expr_spec(decimal_text(a) + seq![' ', sign_char(sign), ' '] + decimal_text(b)),
            cfg,
            es,
        ) == arith(sign, a as i64, b as i64),
{
    let da = decimal_text(a);
    let db = decimal_text(b);
    let c = sign_char(sign);
    let t = da + seq![' ', c, ' '] + db;
    let p = da.len() as int + 1;
    lemma_numeral(a);
    lemma_numeral(b);
    assert(is_space(' '));
    assert forall|i: int| 0 <= i < t.len() implies (#[trigger] t[i] == ' ' || t[i] == c
        || is_plain_char(t[i])) by {
        if i < da.len() {
            assert(t[i] == da[i]);
        } else if i >= da.len() + 3 {
            assert(t[i] == db[i - da.len() - 3]);
        }
    }
    assert(t[p - 1] == ' ' && t[p] == c && t[p + 1] == ' ');
    assert(t[0] == da[0] && t[t.len() - 1] == db[db.len() - 1]);
    assert(is_plain_char(da[0]) && is_plain_char(db[db.len() - 1]));
    lemma_trim_tight(t);
    let op = seq![c];
    assert(op_at(t, op, p)) by {
        assert forall|k: int| 0 <= k < p implies #[trigger] t[k] != '(' && t[k] != ')' by {}
        lemma_depth_zero(t, p);
        assert(matches_at(t, op, p));
    }
    assert(sign_at(t, p) == Some(sign)) by {
        if sign != ArithOp::Add {
            if matches_at(t, seq!['+'], p) {
                assert(t[p + 0] == seq!['+'][0]);
            }
            if sign != ArithOp::Sub {
                if matches_at(t, seq!['-'], p) {
                    assert(t[p + 0] == seq!['-'][0]);
                }
                if sign != ArithOp::Mul {
                    if matches_at(t, seq!['*'], p) {
                        assert(t[p + 0] == seq!['*'][0]);
                    }
                }
            }
        }
    }
    assert forall|j: int| 0 <= j < p implies (#[trigger] sign_at(t, j)) is None by {
        if j < da.len() {
            assert(t[j] == da[j]);
            assert(is_plain_char(da[j]));
        }
        lemma_not_a_sign(t, j);
    }
    lemma_first_sign_found(t, p);
    assert(first_arith(t) == Some((sign, p)));
    let left = t.subrange(0, p);
    let right = t.subrange(p + 1, t.len() as int);
    assert(left =~= da + seq![' ']);
    assert(right =~= seq![' '] + db);
    lemma_trim_one_space(da);
    lemma_trim_one_space(db);
    lemma_padded_plain_expr(left);
    lemma_padded_plain_expr(right);
    lemma_numeral_is_literal(a);
    lemma_numeral_is_literal(b);
    assert(parse_expr_spec(t) == Term::Arith {
        sign,
        left: Box::new(parse_expr_spec(left)),
        right: Box::new(parse_expr_spec(right)),
    });
    lemma_arithmetic_of_literals(sign, a as i64, b as i64, cfg, es);
}

/// Two configurations select the same features and bind the same values.
pub open spec fn same_choice(c1: ConfigElement, c2: ConfigElement) -> bool {
    &&& c1.bindings == c2.bindings
    &&& forall|id: Seq<char>| names(c1.selected@, id) == names(c2.selected@, id)
}

/// The feature that a registry holds under a key, if it holds one there.
pub open spec fn feature_under(es: Seq<Entry<Element>>, key: Seq<char>) -> Option<FeatureElement> {
    match value_at(es, key) {
        Some(Element::Feature(f)) => Some(f),
        _ => None,
    }
}

/// Two registries hold the same features under the same keys.
pub open spec fn same_features(es1: Seq<Entry<Element>>, es2: Seq<Entry<Element>>) -> bool {
    forall|key: Seq<char>| #[trigger] feature_under(es1, key) == feature_under(es2, key)
}

proof fn lemma_same_keys_same_index(
    es1: Seq<Entry<Element>>,
    es2: Seq<Entry<Element>>,
    key: Seq<char>,
    i: int,
)
    requires
        es1.len() == es2.len(),
        forall|i: int| 0 <= i < es1.len() ==> (#[trigger] es1[i]).key@ == es2[i].key@,
        is_key_index(es1, key, i),
    ensures
        is_key_index(es2, key, i),
        key_index(es1, key) == Some(i),
        key_index(es2, key) == Some(i),
{
    assert(es1[i].key@ == es2[i].key@);
    assert forall|j: int| 0 <= j < i implies (#[trigger] es2[j]).key@ != key by {
        assert(es1[j].key@ == es2[j].key@);
    }
    lemma_key_index_unique(es1, key, i);
    lemma_key_index_unique(es2, key, i);
}

/// Registries with the same keys whose elements differ in configurations at
/// most hold the same features.
pub proof fn lemma_same_features_beside_configurations(
    es1: Seq<Entry<Element>>,
    es2: Seq<Entry<Element>>,
)
    requires
        es1.len() == es2.len(),
        forall|i: int| 0 <= i < es1.len() ==> (#[trigger] es1[i]).key@ == es2[i].key@,
        forall|i: int|
            0 <= i < es1.len() ==> (#[trigger] es1[i]).value == es2[i].value || (es1[i].value is Config
                && es2[i].value is Config),
    ensures
        same_features(es1, es2),
{
    assert forall|key: Seq<char>| #[trigger] feature_under(es1, key) == feature_under(es2, key) by {
        if has_key(es1, key) {
            let i = choose|i: int| is_key_index(es1, key, i);
            lemma_same_keys_same_index(es1, es2, key, i);
            assert(es1[i].value == es2[i].value || (es1[i].value is Config && es2[i].value is Config));
        } else if has_key(es2, key) {
            let i = choose|i: int| is_key_index(es2, key, i);
            assert forall|j: int| 0 <= j < es2.len() implies (#[trigger] es2[j]).key@ == es1[j].key@ by {
                assert(es1[j].key@ == es2[j].key@);
            }
            lemma_same_keys_same_index(es2, es1, key, i);
        }
    }
}

/// A term has one value under two configurations that select the same
/// features and bind the same values, in whatever order and however often the
/// features are listed, over registries that hold the same features.
pub proof fn lemma_value_by_choice(
    t: Term,
    c1: ConfigElement,
    es1: Seq<Entry<Element>>,
    c2: ConfigElement,
    es2: Seq<Entry<Element>>,
)
    requires
        same_choice(c1, c2),
        same_features(es1, es2),
    ensures
        eval(t, c1, es1) == eval(t, c2, es2),
        eval_bool(t, c1, es1) == eval_bool(t, c2, es2),
        eval_int(t, c1, es1) == eval_int(t, c2, es2),
        verdict(t, c1, es1) == verdict(t, c2, es2),
    decreases t,
{
    match t {
        Term::Compare { rel, left, right } => {
            lemma_value_by_choice(*left, c1, es1, c2, es2);
            lemma_value_by_choice(*right, c1, es1, c2, es2);
        },
        Term::Implies { left, right } => {
            lemma_value_by_choice(*left, c1, es1, c2, es2);
            lemma_value_by_choice(*right, c1, es1, c2, es2);
        },
        Term::And { left, right } => {
            lemma_value_by_choice(*left, c1, es1, c2, es2);
            lemma_value_by_choice(*right, c1, es1, c2, es2);
        },
        Term::Or { left, right } => {
            lemma_value_by_choice(*left, c1, es1, c2, es2);
            lemma_value_by_choice(*right, c1, es1, c2, es2);
        },
        Term::Not(inner) => {
            lemma_value_by_choice(*inner, c1, es1, c2, es2);
        },
        Term::Arith { sign, left, right } => {
            lemma_value_by_choice(*left, c1, es1, c2, es2);
            lemma_value_by_choice(*right, c1, es1, c2, es2);
        },
        Term::Selected(id) => {
            assert(names(c1.selected@, id) == names(c2.selected@, id));
        },
        Term::Param { feature, name } => {
            assert(feature_under(es1, feature) == feature_under(es2, feature));
        },
        _ => {},
    }
}

} // verus!
