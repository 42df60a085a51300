//! The parser of the constraint language.
//!
//! A constraint is split at the first operator of the weakest kind that
//! stands outside parentheses: `=>`, then `||`, `&&`, then the leftmost
//! comparison, then the leftmost arithmetic sign with white space on one
//! side; what is left is an atom, which a `!` in front negates. Every binary
//! operator therefore associates to the right. The grammar is stated as a
//! function from text to terms, and the parser computes it.

use crate::text::{
    chars_of, is_space, is_whitespace, lemma_trim_len, same_chars, slice_chars, string_of, trim,
    trim_chars,
};
use vstd::prelude::*;

verus! {

/// Comparison operators.
#[derive(Debug, Clone, Copy, PartialEq, Eq, Structural)]
pub enum CompOp {
    Lt,
    Gt,
    Le,
    Ge,
    Eq,
    Ne,
}

/// Arithmetic operators.
#[derive(Debug, Clone, Copy, PartialEq, Eq, Structural)]
pub enum ArithOp {
    Add,
    Sub,
    Mul,
    Div,
}

/// A parsed constraint.
#[derive(Debug, PartialEq)]
#[allow(inconsistent_fields)]
pub enum Expr {
    /// Integer literal
    IntLiteral(i64),
    /// Boolean literal
    BoolLiteral(bool),
    /// String literal
    StringLiteral(String),
    /// Parameter reference: feature_id.param_name
    ParamRef { feature_id: String, param_name: String },
    /// Feature selection: feature_id is selected
    FeatureSelected(String),
    /// Comparison: left op right
    Comparison { op: CompOp, left: Box<Expr>, right: Box<Expr> },
    /// Implication: left => right
    Implication { left: Box<Expr>, right: Box<Expr> },
    /// Logical AND: left && right
    And { left: Box<Expr>, right: Box<Expr> },
    /// Logical OR: left || right
    Or { left: Box<Expr>, right: Box<Expr> },
    /// Logical NOT: !expr
    Not(Box<Expr>),
    /// Arithmetic: left op right
    Arithmetic { op: ArithOp, left: Box<Expr>, right: Box<Expr> },
}

/// The term that an expression stands for, with its texts as sequences of characters.
pub ghost enum Term {
    Int(i64),
    Bool(bool),
    Text(Seq<char>),
    Param { feature: Seq<char>, name: Seq<char> },
    Selected(Seq<char>),
    Compare { rel: CompOp, left: Box<Term>, right: Box<Term> },
    Implies { left: Box<Term>, right: Box<Term> },
    And { left: Box<Term>, right: Box<Term> },
    Or { left: Box<Term>, right: Box<Term> },
    Not(Box<Term>),
    Arith { sign: ArithOp, left: Box<Term>, right: Box<Term> },
}

/// The term of an expression.
pub open spec fn term_of(e: Expr) -> Term
    decreases e,
{
    match e {
        Expr::IntLiteral(n) => Term::Int(n),
        Expr::BoolLiteral(b) => Term::Bool(b),
        Expr::StringLiteral(s) => Term::Text(s@),
        Expr::ParamRef { feature_id, param_name } => Term::Param {
            feature: feature_id@,
            name: param_name@,
        },
        Expr::FeatureSelected(id) => Term::Selected(id@),
        Expr::Comparison { op, left, right } => Term::Compare {
            rel: op,
            left: Box::new(term_of(*left)),
            right: Box::new(term_of(*right)),
        },
        Expr::Implication { left, right } => Term::Implies {
            left: Box::new(term_of(*left)),
            right: Box::new(term_of(*right)),
        },
        Expr::And { left, right } => Term::And {
            left: Box::new(term_of(*left)),
            right: Box::new(term_of(*right)),
        },
        Expr::Or { left, right } => Term::Or {
            left: Box::new(term_of(*left)),
            right: Box::new(term_of(*right)),
        },
        Expr::Not(inner) => Term::Not(Box::new(term_of(*inner))),
        Expr::Arithmetic { op, left, right } => Term::Arith {
            sign: op,
            left: Box::new(term_of(*left)),
            right: Box::new(term_of(*right)),
        },
    }
}

impl View for Expr {
    type V = Term;

    open spec fn view(&self) -> Term {
        term_of(*self)
    }
}

/// The depth of parentheses that the characters before `i` have opened.
pub open spec fn depth_at(s: Seq<char>, i: int) -> int
    decreases i,
{
    if i <= 0 {
        0
    } else {
        depth_at(s, i - 1) + if s[i - 1] == '(' {
            1int
        } else if s[i - 1] == ')' {
            -1int
        } else {
            0int
        }
    }
}

/// The text `pat` stands in `s` at position `i`.
pub open spec fn matches_at(s: Seq<char>, pat: Seq<char>, i: int) -> bool {
    &&& 0 <= i
    &&& i + pat.len() <= s.len()
    &&& forall|k: int| 0 <= k < pat.len() ==> s[i + k] == #[trigger] pat[k]
}

/// `op` is one of the arithmetic signs.
pub open spec fn is_arith_sign(op: Seq<char>) -> bool {
    op.len() == 1 && (op[0] == '+' || op[0] == '-' || op[0] == '*' || op[0] == '/')
}

/// The operator at `i` has white space before it or after it.
pub open spec fn spaced(s: Seq<char>, op: Seq<char>, i: int) -> bool {
    ||| (i > 0 && is_space(s[i - 1]))
    ||| (i + op.len() < s.len() && is_space(s[i + op.len()]))
}

/// The operator `op` stands at `i`, outside parentheses; an arithmetic sign
/// counts only where it is set off by white space on one side.
pub open spec fn op_at(s: Seq<char>, op: Seq<char>, i: int) -> bool {
    &&& 0 <= i < s.len()
    &&& s[i] != '('
    &&& s[i] != ')'
    &&& depth_at(s, i) == 0
    &&& matches_at(s, op, i)
    &&& is_arith_sign(op) ==> spaced(s, op, i)
}

/// `i` is the first position at which the operator stands.
pub open spec fn is_first_op(s: Seq<char>, op: Seq<char>, i: int) -> bool {
    &&& op_at(s, op, i)
    &&& forall|j: int| 0 <= j < i ==> !#[trigger] op_at(s, op, j)
}

/// The first position at which the operator stands, if it stands anywhere.
pub open spec fn find_op(s: Seq<char>, op: Seq<char>) -> Option<int> {
    if exists|i: int| is_first_op(s, op, i) {
        Some(choose|i: int| is_first_op(s, op, i))
    } else {
        None
    }
}

/// `i` is the first position at which the text `pat` stands.
pub open spec fn is_first_match(s: Seq<char>, pat: Seq<char>, i: int) -> bool {
    &&& matches_at(s, pat, i)
    &&& forall|j: int| 0 <= j < i ==> !#[trigger] matches_at(s, pat, j)
}

/// The first position at which the text `pat` stands, if it stands anywhere.
pub open spec fn find_text(s: Seq<char>, pat: Seq<char>) -> Option<int> {
    if exists|i: int| is_first_match(s, pat, i) {
        Some(choose|i: int| is_first_match(s, pat, i))
    } else {
        None
    }
}

/// The text with every occurrence of `pat` taken out, from left to right.
pub open spec fn remove_all(s: Seq<char>, pat: Seq<char>) -> Seq<char>
    decreases s.len(),
{
    if pat.len() == 0 {
        s
    } else {
        match find_text(s, pat) {
            Some(i) => {
                proof {
                    lemma_find_text_bounds(s, pat);
                }
                s.subrange(0, i) + remove_all(s.subrange(i + pat.len(), s.len() as int), pat)
            },
            None => s,
        }
    }
}

/// A decimal digit.
pub open spec fn is_digit(c: char) -> bool {
    48 <= c as u32 <= 57
}

/// The value of the numeral that the digits form.
pub open spec fn digits_value(s: Seq<char>) -> int
    decreases s.len(),
{
    if s.len() == 0 {
        0
    } else {
        digits_value(s.drop_last()) * 10 + (s.last() as u32 - 48)
    }
}

/// Every character is a decimal digit.
pub open spec fn all_digits(s: Seq<char>) -> bool {
    forall|i: int| 0 <= i < s.len() ==> is_digit(#[trigger] s[i])
}

/// The integer that the text denotes: digits, with `+` or `-` in front at
/// most, and a value that fits 64 signed bits.
pub open spec fn int_literal(s: Seq<char>) -> Option<i64> {
    let signed = s.len() > 0 && (s[0] == '-' || s[0] == '+');
    let body = if signed {
        s.subrange(1, s.len() as int)
    } else {
        s
    };
    let value = if s.len() > 0 && s[0] == '-' {
        -digits_value(body)
    } else {
        digits_value(body)
    };
    if body.len() > 0 && all_digits(body) && i64::MIN <= value <= i64::MAX {
        Some(value as i64)
    } else {
        None
    }
}

/// The text is enclosed in a pair of double or of single quotes.
pub open spec fn quoted(t: Seq<char>) -> bool {
    t.len() >= 2 && ((t[0] == '"' && t.last() == '"') || (t[0] == '\'' && t.last() == '\''))
}

/// The text holds exactly one dot.
pub open spec fn single_dot(t: Seq<char>) -> bool {
    find_text(t, seq!['.']) matches Some(i) && find_text(
        t.subrange(i + 1, t.len() as int),
        seq!['.'],
    ) is None
}

/// What a text without binary operators denotes: the negation of what
/// follows a `!`, a feature predicate, a parameter of a feature, a boolean,
/// an integer, or a string with or without quotes.
pub open spec fn atom(t: Seq<char>) -> Term
    decreases t.len(),
{
    if t.len() > 0 && t[0] == '!' {
        proof {
            lemma_trim_len(t.subrange(1, t.len() as int));
        }
        Term::Not(Box::new(atom(trim(t.subrange(1, t.len() as int)))))
    } else if find_text(t, " is selected"@) is Some {
        Term::Selected(trim(remove_all(t, " is selected"@)))
    } else if single_dot(t) {
        let i = find_text(t, seq!['.'])->0;
        Term::Param { feature: trim(t.subrange(0, i)), name: trim(t.subrange(i + 1, t.len() as int)) }
    } else if t == "true"@ {
        Term::Bool(true)
    } else if t == "false"@ {
        Term::Bool(false)
    } else if int_literal(t) is Some {
        Term::Int(int_literal(t)->0)
    } else if quoted(t) {
        Term::Text(t.subrange(1, t.len() - 1))
    } else {
        Term::Text(t)
    }
}

/// The arithmetic sign that stands at `p` as an operator, if one does.
pub open spec fn sign_at(t: Seq<char>, p: int) -> Option<ArithOp> {
    if op_at(t, seq!['+'], p) {
        Some(ArithOp::Add)
    } else if op_at(t, seq!['-'], p) {
        Some(ArithOp::Sub)
    } else if op_at(t, seq!['*'], p) {
        Some(ArithOp::Mul)
    } else if op_at(t, seq!['/'], p) {
        Some(ArithOp::Div)
    } else {
        None
    }
}

/// `p` is the first position at which an arithmetic sign stands as an operator.
pub open spec fn is_first_sign(t: Seq<char>, p: int) -> bool {
    &&& sign_at(t, p) is Some
    &&& forall|j: int| 0 <= j < p ==> (#[trigger] sign_at(t, j)) is None
}

/// The leftmost arithmetic sign of the text, of whichever kind, with its position.
pub open spec fn first_arith(t: Seq<char>) -> Option<(ArithOp, int)> {
    if exists|p: int| is_first_sign(t, p) {
        let p = choose|p: int| is_first_sign(t, p);
        Some((sign_at(t, p)->0, p))
    } else {
        None
    }
}

/// The comparison that stands at `p`, with its width, if one does. Where a
/// sign of two characters stands, it is that one.
pub open spec fn rel_at(t: Seq<char>, p: int) -> Option<(CompOp, int)> {
    if op_at(t, seq!['>', '='], p) {
        Some((CompOp::Ge, 2int))
    } else if op_at(t, seq!['<', '='], p) {
        Some((CompOp::Le, 2int))
    } else if op_at(t, seq!['=', '='], p) {
        Some((CompOp::Eq, 2int))
    } else if op_at(t, seq!['!', '='], p) {
        Some((CompOp::Ne, 2int))
    } else if op_at(t, seq!['>'], p) {
        Some((CompOp::Gt, 1int))
    } else if op_at(t, seq!['<'], p) {
        Some((CompOp::Lt, 1int))
    } else {
        None
    }
}

/// `p` is the first position at which a comparison stands.
pub open spec fn is_first_rel(t: Seq<char>, p: int) -> bool {
    &&& rel_at(t, p) is Some
    &&& forall|j: int| 0 <= j < p ==> (#[trigger] rel_at(t, j)) is None
}

/// The leftmost comparison of the text, of whichever kind, with its position
/// and its width.
pub open spec fn first_compare(t: Seq<char>) -> Option<(CompOp, int, int)> {
    if exists|p: int| is_first_rel(t, p) {
        let p = choose|p: int| is_first_rel(t, p);
        Some(((rel_at(t, p)->0).0, p, (rel_at(t, p)->0).1))
    } else {
        None
    }
}

/// The first of the operators `=>`, `||`, `&&` that the text holds, in that
/// order, with its position: 0 stands for `=>`, 1 for `||`, 2 for `&&`.
pub open spec fn first_logical(t: Seq<char>) -> Option<(int, int)> {
    if find_op(t, seq!['=', '>']) is Some {
        Some((0int, find_op(t, seq!['=', '>'])->0))
    } else if find_op(t, seq!['|', '|']) is Some {
        Some((1int, find_op(t, seq!['|', '|'])->0))
    } else if find_op(t, seq!['&', '&']) is Some {
        Some((2int, find_op(t, seq!['&', '&'])->0))
    } else {
        None
    }
}

/// The term of an expression: the text is split at its leftmost arithmetic
/// sign, of whichever kind; without one it is an atom.
pub open spec fn parse_expr_spec(s: Seq<char>) -> Term
    decreases s.len(),
{
    let t = trim(s);
    match first_arith(t) {
        Some((op, p)) => {
            proof {
                lemma_trim_len(s);
                lemma_first_arith_bounds(t);
            }
            Term::Arith {
                sign: op,
                left: Box::new(parse_expr_spec(t.subrange(0, p))),
                right: Box::new(parse_expr_spec(t.subrange(p + 1, t.len() as int))),
            }
        },
        None => atom(t),
    }
}

/// The term of a constraint: the text is split at its first `=>`, else at its
/// first `||`, else at its first `&&`, else at its leftmost comparison;
/// without any of them it is an expression.
pub open spec fn parse_constraint_spec(s: Seq<char>) -> Term
    decreases s.len(),
{
    let t = trim(s);
    match first_logical(t) {
        Some((kind, p)) => {
            proof {
                lemma_trim_len(s);
                lemma_first_logical_bounds(t);
            }
            let left = Box::new(parse_constraint_spec(t.subrange(0, p)));
            let right = Box::new(parse_constraint_spec(t.subrange(p + 2, t.len() as int)));
            if kind == 0 {
                Term::Implies { left, right }
            } else if kind == 1 {
                Term::Or { left, right }
            } else {
                Term::And { left, right }
            }
        },
        None => match first_compare(t) {
            Some((op, p, width)) => Term::Compare {
                rel: op,
                left: Box::new(parse_expr_spec(t.subrange(0, p))),
                right: Box::new(parse_expr_spec(t.subrange(p + width, t.len() as int))),
            },
            None => parse_expr_spec(t),
        },
    }
}

/// An operator that is found stands inside the text.
pub proof fn lemma_find_op_bounds(s: Seq<char>, op: Seq<char>)
    requires
        find_op(s, op) is Some,
    ensures
        is_first_op(s, op, find_op(s, op)->0),
        0 <= find_op(s, op)->0 < s.len(),
        find_op(s, op)->0 + op.len() <= s.len(),
{
}

/// An arithmetic sign that is found stands inside the text.
pub proof fn lemma_first_arith_bounds(t: Seq<char>)
    ensures
        first_arith(t) matches Some(found) ==> 0 <= found.1 < t.len() && is_first_sign(t, found.1)
            && sign_at(t, found.1) == Some(found.0),
{
}

/// The first position at which a sign stands is the position that is found.
pub proof fn lemma_first_sign_found(t: Seq<char>, p: int)
    requires
        is_first_sign(t, p),
    ensures
        first_arith(t) == Some((sign_at(t, p)->0, p)),
{
    let c = choose|c: int| is_first_sign(t, c);
    if c < p {
        assert(sign_at(t, c) is None);
    }
    if p < c {
        assert(sign_at(t, p) is None);
    }
}

/// Where no sign stands at any position, none is found.
pub proof fn lemma_first_sign_none(t: Seq<char>)
    requires
        forall|j: int| 0 <= j < t.len() ==> (#[trigger] sign_at(t, j)) is None,
    ensures
        first_arith(t) is None,
{
    if exists|p: int| is_first_sign(t, p) {
        let c = choose|c: int| is_first_sign(t, c);
        assert(sign_at(t, c) is Some);
    }
}

/// The first position at which a comparison stands is the position that is found.
pub proof fn lemma_first_rel_found(t: Seq<char>, p: int)
    requires
        is_first_rel(t, p),
    ensures
        first_compare(t) == Some(((rel_at(t, p)->0).0, p, (rel_at(t, p)->0).1)),
{
    let c = choose|c: int| is_first_rel(t, c);
    if c < p {
        assert(rel_at(t, c) is None);
    }
    if p < c {
        assert(rel_at(t, p) is None);
    }
}

/// Where no comparison stands at any position, none is found.
pub proof fn lemma_first_rel_none(t: Seq<char>)
    requires
        forall|j: int| 0 <= j < t.len() ==> (#[trigger] rel_at(t, j)) is None,
    ensures
        first_compare(t) is None,
{
    if exists|p: int| is_first_rel(t, p) {
        let c = choose|c: int| is_first_rel(t, c);
        assert(rel_at(t, c) is Some);
    }
}

/// A logical operator that is found stands inside the text, with both of its characters.
pub proof fn lemma_first_logical_bounds(t: Seq<char>)
    ensures
        first_logical(t) matches Some(found) ==> 0 <= found.1 && found.1 + 2 <= t.len(),
{
    if find_op(t, seq!['=', '>']) is Some {
        lemma_find_op_bounds(t, seq!['=', '>']);
    } else if find_op(t, seq!['|', '|']) is Some {
        lemma_find_op_bounds(t, seq!['|', '|']);
    } else if find_op(t, seq!['&', '&']) is Some {
        lemma_find_op_bounds(t, seq!['&', '&']);
    }
}

/// The first place at which an operator stands is the place that is found.
pub proof fn lemma_find_op_found(s: Seq<char>, op: Seq<char>, i: int)
    requires
        is_first_op(s, op, i),
    ensures
        find_op(s, op) == Some(i),
{
    let c = choose|c: int| is_first_op(s, op, c);
    if c < i {
        assert(!op_at(s, op, c));
    }
    if i < c {
        assert(!op_at(s, op, i));
    }
}

/// An operator that stands at no place is not found.
pub proof fn lemma_find_op_none(s: Seq<char>, op: Seq<char>)
    requires
        forall|j: int| 0 <= j < s.len() ==> !#[trigger] op_at(s, op, j),
    ensures
        find_op(s, op) is None,
{
    if exists|i: int| is_first_op(s, op, i) {
        let c = choose|c: int| is_first_op(s, op, c);
        assert(op_at(s, op, c));
    }
}

/// A text that is found stands inside the text in which it was sought.
pub proof fn lemma_find_text_bounds(s: Seq<char>, pat: Seq<char>)
    ensures
        find_text(s, pat) matches Some(i) ==> 0 <= i && i + pat.len() <= s.len(),
{
}

/// The first place at which a text stands is the place that is found.
pub proof fn lemma_find_text_found(s: Seq<char>, pat: Seq<char>, i: int)
    requires
        is_first_match(s, pat, i),
    ensures
        find_text(s, pat) == Some(i),
{
    let c = choose|c: int| is_first_match(s, pat, c);
    if c < i {
        assert(!matches_at(s, pat, c));
    }
    if i < c {
        assert(!matches_at(s, pat, i));
    }
}

/// A text that stands at no place is not found.
pub proof fn lemma_find_text_none(s: Seq<char>, pat: Seq<char>)
    requires
        forall|j: int| 0 <= j <= s.len() ==> !#[trigger] matches_at(s, pat, j),
    ensures
        find_text(s, pat) is None,
{
    if exists|i: int| is_first_match(s, pat, i) {
        let c = choose|c: int| is_first_match(s, pat, c);
        assert(matches_at(s, pat, c));
    }
}

/// Whether `pat` stands in `s` at position `i`.
fn matches_here(s: &Vec<char>, pat: &Vec<char>, i: usize) -> (r: bool)
    requires
        i <= s.len(),
    ensures
        r == matches_at(s@, pat@, i as int),
{
    if pat.len() > s.len() - i {
        return false;
    }
    let mut k: usize = 0;
    while k < pat.len()
        invariant
            k <= pat.len(),
            i + pat.len() <= s.len(),
            forall|t: int| 0 <= t < k ==> s@[i + t] == #[trigger] pat@[t],
        decreases pat.len() - k,
    {
        if s[i + k] != pat[k] {
            assert(s@[i + k] != pat@[k as int]);
            return false;
        }
        k = k + 1;
    }
    true
}

/// The first position at which `pat` stands in `s`.
fn find_text_chars(s: &Vec<char>, pat: &Vec<char>) -> (r: Option<usize>)
    ensures
        match r {
            Some(i) => find_text(s@, pat@) == Some(i as int) && i + pat.len() <= s.len(),
            None => find_text(s@, pat@) is None,
        },
{
    let mut i: usize = 0;
    loop
        invariant
            i <= s.len(),
            forall|j: int| 0 <= j < i ==> !#[trigger] matches_at(s@, pat@, j),
        decreases s.len() - i,
    {
        if matches_here(s, pat, i) {
            proof {
                lemma_find_text_found(s@, pat@, i as int);
            }
            return Some(i);
        }
        if i == s.len() {
            proof {
                lemma_find_text_none(s@, pat@);
            }
            return None;
        }
        i = i + 1;
    }
}

/// Whether the operator stands at `i`, where `depth` parentheses are open.
fn op_stands(s: &Vec<char>, op: &Vec<char>, i: usize, depth: i128) -> (r: bool)
    requires
        i < s.len(),
        depth == depth_at(s@, i as int),
    ensures
        r == op_at(s@, op@, i as int),
{
    let c = s[i];
    if c == '(' || c == ')' || depth != 0 {
        return false;
    }
    if !matches_here(s, op, i) {
        return false;
    }
    if op.len() == 1 && (op[0] == '+' || op[0] == '-' || op[0] == '*' || op[0] == '/') {
        let before = i > 0 && is_whitespace(s[i - 1]);
        let after = i + 1 < s.len() && is_whitespace(s[i + 1]);
        before || after
    } else {
        true
    }
}

/// The depth of parentheses after the character `c`.
fn next_depth(c: char, depth: i128) -> (r: i128)
    requires
        -0x1_0000_0000_0000_0000 <= depth <= 0x1_0000_0000_0000_0000,
    ensures
        r == depth + if c == '(' {
            1int
        } else if c == ')' {
            -1int
        } else {
            0int
        },
{
    if c == '(' {
        depth + 1
    } else if c == ')' {
        depth - 1
    } else {
        depth
    }
}

/// The first position at which the operator stands outside parentheses.
fn find_op_chars(s: &Vec<char>, op: &Vec<char>) -> (r: Option<usize>)
    ensures
        match r {
            Some(i) => find_op(s@, op@) == Some(i as int) && i < s.len() && i + op.len() <= s.len(),
            None => find_op(s@, op@) is None,
        },
{
    let mut depth: i128 = 0;
    let mut i: usize = 0;
    while i < s.len()
        invariant
            i <= s.len(),
            depth == depth_at(s@, i as int),
            -(i as int) <= depth <= i as int,
            forall|j: int| 0 <= j < i ==> !#[trigger] op_at(s@, op@, j),
        decreases s.len() - i,
    {
        if op_stands(s, op, i, depth) {
            proof {
                lemma_find_op_found(s@, op@, i as int);
            }
            return Some(i);
        }
        depth = next_depth(s[i], depth);
        i = i + 1;
    }
    proof {
        lemma_find_op_none(s@, op@);
    }
    None
}

/// The position of the operator `op` in `input`, counted in characters: the
/// first place outside parentheses where it stands, and for an arithmetic
/// sign the first such place with white space before it or after it.
pub fn find_operator(input: &str, op: &str) -> (r: Option<usize>)
    ensures
        match r {
            Some(i) => find_op(input@, op@) == Some(i as int),
            None => find_op(input@, op@) is None,
        },
{
    let s = chars_of(input);
    let o = chars_of(op);
    find_op_chars(&s, &o)
}

fn one(a: char) -> (v: Vec<char>)
    ensures
        v@ == seq![a],
{
    let mut v: Vec<char> = Vec::new();
    v.push(a);
    assert(v@ =~= seq![a]);
    v
}

fn two(a: char, b: char) -> (v: Vec<char>)
    ensures
        v@ == seq![a, b],
{
    let mut v: Vec<char> = Vec::new();
    v.push(a);
    v.push(b);
    assert(v@ =~= seq![a, b]);
    v
}

/// The text with every occurrence of `pat` taken out.
fn remove_all_chars(s: &Vec<char>, pat: &Vec<char>) -> (r: Vec<char>)
    requires
        pat.len() > 0,
    ensures
        r@ == remove_all(s@, pat@),
    decreases s@.len(),
{
    match find_text_chars(s, pat) {
        Some(i) => {
            let mut head = slice_chars(s, 0, i);
            let rest = slice_chars(s, i + pat.len(), s.len());
            let tail = remove_all_chars(&rest, pat);
            let ghost h0 = head@;
            let mut k: usize = 0;
            while k < tail.len()
                invariant
                    k <= tail.len(),
                    head@ == h0 + tail@.take(k as int),
                decreases tail.len() - k,
            {
                head.push(tail[k]);
                assert(tail@.take(k + 1) =~= tail@.take(k as int).push(tail@[k as int]));
                assert(head@ =~= h0 + tail@.take(k + 1));
                k = k + 1;
            }
            assert(tail@.take(tail@.len() as int) =~= tail@);
            head
        },
        None => slice_chars(s, 0, s.len()),
    }
}

proof fn lemma_digits_value_bounds(s: Seq<char>, k: int)
    requires
        all_digits(s),
        0 <= k <= s.len(),
    ensures
        0 <= digits_value(s.take(k)) <= digits_value(s),
    decreases s.len() - k,
{
    lemma_digits_nonneg(s.take(k));
    if k < s.len() {
        let a = s.take(k);
        let b = s.take(k + 1);
        assert(b.drop_last() =~= a);
        assert(is_digit(s[k]));
        assert(b.last() == s[k]);
        lemma_digits_value_bounds(s, k + 1);
    } else {
        assert(s.take(k) =~= s);
    }
}

proof fn lemma_digits_nonneg(s: Seq<char>)
    requires
        all_digits(s),
    ensures
        0 <= digits_value(s),
    decreases s.len(),
{
    if s.len() > 0 {
        assert(is_digit(s[s.len() - 1]));
        assert forall|i: int| 0 <= i < s.drop_last().len() implies is_digit(
            #[trigger] s.drop_last()[i],
        ) by {
            assert(is_digit(s[i]));
        }
        lemma_digits_nonneg(s.drop_last());
    }
}

/// The integer that the text denotes, if it denotes one.
fn parse_int(s: &Vec<char>) -> (r: Option<i64>)
    ensures
        r == int_literal(s@),
{
    if s.len() == 0 {
        return None;
    }
    let negative = s[0] == '-';
    let start: usize = if s[0] == '-' || s[0] == '+' {
        1
    } else {
        0
    };
    let ghost body = s@.subrange(start as int, s@.len() as int);
    assert(start == 0 ==> body =~= s@);
    if start == s.len() {
        return None;
    }
    let limit: i128 = 9223372036854775808;
    let mut acc: i128 = 0;
    let mut i: usize = start;
    while i < s.len()
        invariant
            start <= i <= s.len(),
            start < s.len(),
            negative == (s@[0] == '-'),
            start == 1 <==> (s@[0] == '-' || s@[0] == '+'),
            start == 0 || start == 1,
            start == 0 ==> body == s@,
            body == s@.subrange(start as int, s@.len() as int),
            forall|k: int| 0 <= k < i - start ==> is_digit(#[trigger] body[k]),
            acc == digits_value(body.take(i - start)),
            0 <= acc <= limit,
            limit == 9223372036854775808,
        decreases s.len() - i,
    {
        let c = s[i];
        let u: u32 = c as u32;
        if u < 48 || u > 57 {
            assert(!is_digit(body[i - start]));
            return None;
        }
        assert(is_digit(body[i - start]));
        let d: i128 = (u - 48) as i128;
        acc = acc * 10 + d;
        proof {
            let a = body.take(i - start);
            let b = body.take(i - start + 1);
            assert(b.drop_last() =~= a);
            assert(b.last() == c);
            assert(acc == digits_value(b));
        }
        if acc > limit {
            proof {
                let b = body.take(i - start + 1);
                if all_digits(body) {
                    lemma_digits_value_bounds(body, i - start + 1);
                }
            }
            return None;
        }
        i = i + 1;
    }
    proof {
        assert(body.take(body.len() as int) =~= body);
        assert(all_digits(body));
    }
    if negative {
        Some((-acc) as i64)
    } else if acc == limit {
        None
    } else {
        Some(acc as i64)
    }
}

/// The expression of a text that holds no binary operator.
fn parse_atom(t: &Vec<char>) -> (e: Expr)
    ensures
        e@ == atom(t@),
    decreases t@.len(),
{
    if t.len() > 0 && t[0] == '!' {
        let rest = slice_chars(t, 1, t.len());
        proof {
            lemma_trim_len(rest@);
        }
        let inner = parse_atom(&trim_chars(&rest));
        return Expr::Not(Box::new(inner));
    }
    let marker = chars_of(" is selected");
    proof {
        reveal_strlit(" is selected");
    }
    if find_text_chars(t, &marker).is_some() {
        let bare = remove_all_chars(t, &marker);
        return Expr::FeatureSelected(string_of(&trim_chars(&bare)));
    }
    let dot = one('.');
    if let Some(i) = find_text_chars(t, &dot) {
        let after = slice_chars(t, i + 1, t.len());
        if find_text_chars(&after, &dot).is_none() {
            let before = slice_chars(t, 0, i);
            return Expr::ParamRef {
                feature_id: string_of(&trim_chars(&before)),
                param_name: string_of(&trim_chars(&after)),
            };
        }
    }
    assert(!single_dot(t@));
    if same_chars(t, &chars_of("true")) {
        return Expr::BoolLiteral(true);
    }
    if same_chars(t, &chars_of("false")) {
        return Expr::BoolLiteral(false);
    }
    if let Some(n) = parse_int(t) {
        return Expr::IntLiteral(n);
    }
    let n = t.len();
    if n >= 2 && ((t[0] == '"' && t[n - 1] == '"') || (t[0] == '\'' && t[n - 1] == '\'')) {
        return Expr::StringLiteral(string_of(&slice_chars(t, 1, n - 1)));
    }
    Expr::StringLiteral(string_of(t))
}

/// The leftmost arithmetic sign of the text with its position.
fn find_arith(t: &Vec<char>) -> (r: Option<(ArithOp, usize)>)
    ensures
        match r {
            Some((op, p)) => first_arith(t@) == Some((op, p as int)) && p < t.len(),
            None => first_arith(t@) is None,
        },
{
    let plus = one('+');
    let minus = one('-');
    let times = one('*');
    let over = one('/');
    let mut depth: i128 = 0;
    let mut i: usize = 0;
    while i < t.len()
        invariant
            i <= t.len(),
            plus@ == seq!['+'],
            minus@ == seq!['-'],
            times@ == seq!['*'],
            over@ == seq!['/'],
            depth == depth_at(t@, i as int),
            -(i as int) <= depth <= i as int,
            forall|j: int| 0 <= j < i ==> (#[trigger] sign_at(t@, j)) is None,
        decreases t.len() - i,
    {
        let found = if op_stands(t, &plus, i, depth) {
            Some(ArithOp::Add)
        } else if op_stands(t, &minus, i, depth) {
            Some(ArithOp::Sub)
        } else if op_stands(t, &times, i, depth) {
            Some(ArithOp::Mul)
        } else if op_stands(t, &over, i, depth) {
            Some(ArithOp::Div)
        } else {
            None
        };
        assert(found == sign_at(t@, i as int));
        if let Some(op) = found {
            proof {
                lemma_first_sign_found(t@, i as int);
            }
            return Some((op, i));
        }
        depth = next_depth(t[i], depth);
        i = i + 1;
    }
    proof {
        lemma_first_sign_none(t@);
    }
    None
}

/// The leftmost comparison of the text with its position and width.
fn find_compare(t: &Vec<char>) -> (r: Option<(CompOp, usize, usize)>)
    ensures
        match r {
            Some((op, p, w)) => first_compare(t@) == Some((op, p as int, w as int)) && p < t.len() && p
                + w <= t.len(),
            None => first_compare(t@) is None,
        },
{
    let ge = two('>', '=');
    let le = two('<', '=');
    let eq = two('=', '=');
    let ne = two('!', '=');
    let gt = one('>');
    let lt = one('<');
    let mut depth: i128 = 0;
    let mut i: usize = 0;
    while i < t.len()
        invariant
            i <= t.len(),
            ge@ == seq!['>', '='],
            le@ == seq!['<', '='],
            eq@ == seq!['=', '='],
            ne@ == seq!['!', '='],
            gt@ == seq!['>'],
            lt@ == seq!['<'],
            depth == depth_at(t@, i as int),
            -(i as int) <= depth <= i as int,
            forall|j: int| 0 <= j < i ==> (#[trigger] rel_at(t@, j)) is None,
        decreases t.len() - i,
    {
        let found: Option<(CompOp, usize)> = if op_stands(t, &ge, i, depth) {
            Some((CompOp::Ge, 2))
        } else if op_stands(t, &le, i, depth) {
            Some((CompOp::Le, 2))
        } else if op_stands(t, &eq, i, depth) {
            Some((CompOp::Eq, 2))
        } else if op_stands(t, &ne, i, depth) {
            Some((CompOp::Ne, 2))
        } else if op_stands(t, &gt, i, depth) {
            Some((CompOp::Gt, 1))
        } else if op_stands(t, &lt, i, depth) {
            Some((CompOp::Lt, 1))
        } else {
            None
        };
        assert(found is Some == rel_at(t@, i as int) is Some);
        if let Some((op, w)) = found {
            proof {
                assert(rel_at(t@, i as int) == Some((op, w as int)));
                lemma_first_rel_found(t@, i as int);
            }
            return Some((op, i, w));
        }
        depth = next_depth(t[i], depth);
        i = i + 1;
    }
    proof {
        lemma_first_rel_none(t@);
    }
    None
}

/// The first of `=>`, `||`, `&&` with its position.
fn find_logical(t: &Vec<char>) -> (r: Option<(u8, usize)>)
    ensures
        match r {
            Some((kind, p)) => first_logical(t@) == Some((kind as int, p as int)) && p + 2 <= t.len()
                && kind <= 2,
            None => first_logical(t@) is None,
        },
{
    if let Some(p) = find_op_chars(t, &two('=', '>')) {
        return Some((0, p));
    }
    if let Some(p) = find_op_chars(t, &two('|', '|')) {
        return Some((1, p));
    }
    if let Some(p) = find_op_chars(t, &two('&', '&')) {
        return Some((2, p));
    }
    None
}

fn parse_expr_chars(s: &Vec<char>) -> (e: Expr)
    ensures
        e@ == parse_expr_spec(s@),
    decreases s@.len(),
{
    proof {
        lemma_trim_len(s@);
    }
    let t = trim_chars(s);
    match find_arith(&t) {
        Some((op, p)) => {
            let left = parse_expr_chars(&slice_chars(&t, 0, p));
            let right = parse_expr_chars(&slice_chars(&t, p + 1, t.len()));
            Expr::Arithmetic { op, left: Box::new(left), right: Box::new(right) }
        },
        None => parse_atom(&t),
    }
}

fn parse_constraint_chars(s: &Vec<char>) -> (e: Expr)
    ensures
        e@ == parse_constraint_spec(s@),
    decreases s@.len(),
{
    proof {
        lemma_trim_len(s@);
    }
    let t = trim_chars(s);
    if let Some((kind, p)) = find_logical(&t) {
        let left = Box::new(parse_constraint_chars(&slice_chars(&t, 0, p)));
        let right = Box::new(parse_constraint_chars(&slice_chars(&t, p + 2, t.len())));
        return if kind == 0 {
            Expr::Implication { left, right }
        } else if kind == 1 {
            Expr::Or { left, right }
        } else {
            Expr::And { left, right }
        };
    }
    if let Some((op, p, w)) = find_compare(&t) {
        let left = parse_expr_chars(&slice_chars(&t, 0, p));
        let right = parse_expr_chars(&slice_chars(&t, p + w, t.len()));
        return Expr::Comparison { op, left: Box::new(left), right: Box::new(right) };
    }
    parse_expr_chars(&t)
}

/// Parses a constraint. Every text denotes a constraint: what holds no
/// operator and is no boolean, integer or parameter is a string.
pub fn parse_constraint(input: &str) -> (r: Result<Expr, String>)
    ensures
        r matches Ok(e) && e@ == parse_constraint_spec(input@),
{
    let s = chars_of(input);
    Ok(parse_constraint_chars(&s))
}

/// Parses an expression: an arithmetic term or an atom.
pub fn parse_expr(input: &str) -> (r: Result<Expr, String>)
    ensures
        r matches Ok(e) && e@ == parse_expr_spec(input@),
{
    let s = chars_of(input);
    Ok(parse_expr_chars(&s))
}

} // verus!
