//! The mathematical model of the satisfiability kernel.
//!
//! A formula is a sequence of clauses, a clause a sequence of literals, and a
//! literal a non-zero integer whose absolute value names a variable. A total
//! assignment is a sequence of booleans indexed by variable (index 0 is not
//! used); a partial assignment holds `None` where a variable is still free.
//! The search procedure is defined here as a function from a formula and a
//! partial assignment to the model it finds, and is shown to find one exactly
//! when one exists.

use vstd::prelude::*;

verus! {

/// The variable that a literal speaks of.
pub open spec fn var_of(l: i32) -> int {
    if l < 0 {
        -(l as int)
    } else {
        l as int
    }
}

/// A literal is in range when its variable lies in `1..=n`.
pub open spec fn lit_ok(l: i32, n: int) -> bool {
    1 <= var_of(l) <= n
}

/// Every literal of the formula names a variable in `1..=n`.
pub open spec fn formula_ok(f: Seq<Seq<i32>>, n: int) -> bool {
    forall|i: int, j: int| 0 <= i < f.len() && 0 <= j < f[i].len() ==> lit_ok(#[trigger] f[i][j], n)
}

/// Truth of a literal under a total assignment.
pub open spec fn lit_holds(l: i32, m: Seq<bool>) -> bool {
    if l > 0 {
        m[var_of(l)]
    } else {
        !m[var_of(l)]
    }
}

/// A clause is a disjunction of its literals.
pub open spec fn clause_holds(c: Seq<i32>, m: Seq<bool>) -> bool {
    exists|j: int| 0 <= j < c.len() && lit_holds(#[trigger] c[j], m)
}

/// A formula is a conjunction of its clauses.
pub open spec fn formula_holds(f: Seq<Seq<i32>>, m: Seq<bool>) -> bool {
    forall|i: int| 0 <= i < f.len() ==> clause_holds(#[trigger] f[i], m)
}

/// Some total assignment of the variables `1..=n` makes every clause true.
pub open spec fn satisfiable(f: Seq<Seq<i32>>, n: int) -> bool {
    exists|m: Seq<bool>| m.len() == n + 1 && #[trigger] formula_holds(f, m)
}

/// Value of a literal under a partial assignment; `None` while its variable is free.
pub open spec fn value_of(l: i32, a: Seq<Option<bool>>) -> Option<bool> {
    match a[var_of(l)] {
        Some(b) => Some(if l > 0 {
            b
        } else {
            !b
        }),
        None => None,
    }
}

/// Some literal of the clause is already true.
pub open spec fn clause_sat(c: Seq<i32>, a: Seq<Option<bool>>) -> bool {
    exists|j: int| 0 <= j < c.len() && value_of(#[trigger] c[j], a) == Some(true)
}

/// Every clause already has a true literal.
pub open spec fn all_sat(f: Seq<Seq<i32>>, a: Seq<Option<bool>>) -> bool {
    forall|i: int| 0 <= i < f.len() ==> clause_sat(#[trigger] f[i], a)
}

/// The total assignment `m` gives every assigned variable of `a` its value.
pub open spec fn agrees(m: Seq<bool>, a: Seq<Option<bool>>) -> bool {
    &&& m.len() == a.len()
    &&& forall|v: int| 0 <= v < a.len() && (#[trigger] a[v]) is Some ==> a[v] == Some(m[v])
}

/// `b` keeps every assignment that `a` has made.
pub open spec fn extends(a: Seq<Option<bool>>, b: Seq<Option<bool>>) -> bool {
    &&& a.len() == b.len()
    &&& forall|v: int| 0 <= v < a.len() && (#[trigger] a[v]) is Some ==> b[v] == a[v]
}

/// Some total assignment that agrees with `a` makes every clause true.
pub open spec fn sat_under(f: Seq<Seq<i32>>, a: Seq<Option<bool>>) -> bool {
    exists|m: Seq<bool>| agrees(m, a) && #[trigger] formula_holds(f, m)
}

/// The assignment in which every variable of `1..=n` is free.
pub open spec fn all_free(n: int) -> Seq<Option<bool>> {
    Seq::new((n + 1) as nat, |v: int| None::<bool>)
}

/// Number of free positions of a partial assignment.
pub open spec fn count_free(a: Seq<Option<bool>>) -> nat
    decreases a.len(),
{
    if a.len() == 0 {
        0
    } else {
        count_free(a.drop_last()) + if a.last() is None {
            1nat
        } else {
            0nat
        }
    }
}

/// Every literal of the clause is false.
pub open spec fn conflict(c: Seq<i32>, a: Seq<Option<bool>>) -> bool {
    forall|j: int| 0 <= j < c.len() ==> value_of(#[trigger] c[j], a) == Some(false)
}

/// The literal at `j` is free and every other literal of the clause is false.
pub open spec fn unit_at(c: Seq<i32>, a: Seq<Option<bool>>, j: int) -> bool {
    &&& 0 <= j < c.len()
    &&& value_of(c[j], a) is None
    &&& forall|k: int| 0 <= k < c.len() && k != j ==> value_of(#[trigger] c[k], a) == Some(false)
}

/// The clause has exactly one free literal and no true one.
pub open spec fn is_unit(c: Seq<i32>, a: Seq<Option<bool>>) -> bool {
    exists|j: int| unit_at(c, a, j)
}

/// The free literal of a unit clause.
pub open spec fn unit_lit(c: Seq<i32>, a: Seq<Option<bool>>) -> i32 {
    c[choose|j: int| unit_at(c, a, j)]
}

/// The assignment that makes the literal true.
pub open spec fn assign_lit(a: Seq<Option<bool>>, l: i32) -> Seq<Option<bool>> {
    a.update(var_of(l), Some(l > 0))
}

/// One pass of unit propagation over the clauses from index `i` on: a clause
/// whose literals are all false is a conflict (`None`), the free literal of a
/// unit clause is made true, and later clauses see that assignment.
pub open spec fn pass(f: Seq<Seq<i32>>, a: Seq<Option<bool>>, i: int) -> Option<Seq<Option<bool>>>
    decreases f.len() - i,
{
    if i < 0 || i >= f.len() {
        Some(a)
    } else if conflict(f[i], a) {
        None
    } else if is_unit(f[i], a) {
        pass(f, assign_lit(a, unit_lit(f[i], a)), i + 1)
    } else {
        pass(f, a, i + 1)
    }
}

/// The variable `v` occurs positively in a clause that is not yet satisfied.
pub open spec fn occurs_pos(f: Seq<Seq<i32>>, a: Seq<Option<bool>>, v: int) -> bool {
    exists|i: int, j: int|
        0 <= i < f.len() && 0 <= j < f[i].len() && !clause_sat(f[i], a) && #[trigger] f[i][j] == v
}

/// The variable `v` occurs negated in a clause that is not yet satisfied.
pub open spec fn occurs_neg(f: Seq<Seq<i32>>, a: Seq<Option<bool>>, v: int) -> bool {
    exists|i: int, j: int|
        0 <= i < f.len() && 0 <= j < f[i].len() && !clause_sat(f[i], a) && #[trigger] f[i][j] == -v
}

/// What pure-literal elimination makes of the variable `v`: a free variable
/// that occurs with one polarity only gets that polarity.
pub open spec fn pure_value(f: Seq<Seq<i32>>, a: Seq<Option<bool>>, v: int) -> Option<bool> {
    if a[v] is Some {
        a[v]
    } else if occurs_pos(f, a, v) && !occurs_neg(f, a, v) {
        Some(true)
    } else if occurs_neg(f, a, v) && !occurs_pos(f, a, v) {
        Some(false)
    } else {
        None
    }
}

/// Pure-literal elimination, all variables at once.
pub open spec fn eliminate_pure(f: Seq<Seq<i32>>, a: Seq<Option<bool>>) -> Seq<Option<bool>> {
    Seq::new(
        a.len(),
        |v: int|
            if v >= 1 {
                pure_value(f, a, v)
            } else {
                a[v]
            },
    )
}

/// `v` is the free variable of lowest index.
pub open spec fn is_first_free(a: Seq<Option<bool>>, v: int) -> bool {
    &&& 1 <= v < a.len()
    &&& a[v] is None
    &&& forall|u: int| 1 <= u < v ==> (#[trigger] a[u]) is Some
}

/// Some variable of `1..=n` is free.
pub open spec fn has_free(a: Seq<Option<bool>>) -> bool {
    exists|v: int| is_first_free(a, v)
}

/// The free variable of lowest index.
pub open spec fn first_free(a: Seq<Option<bool>>) -> int {
    choose|v: int| is_first_free(a, v)
}


/// Unit propagation to its fixpoint: passes are repeated until one of them
/// assigns nothing. `None` stands for a conflict.
pub open spec fn propagate(f: Seq<Seq<i32>>, a: Seq<Option<bool>>) -> Option<Seq<Option<bool>>>
    decreases count_free(a),
    when formula_ok(f, a.len() - 1)
{
    match pass(f, a, 0) {
        None => None,
        Some(b) => if b == a {
            Some(a)
        } else {
            proof {
                lemma_pass_extends(f, a, 0);
                lemma_count_free_extends(a, b);
            }
            propagate(f, b)
        },
    }
}

/// The search: propagate, eliminate pure literals, stop when every clause is
/// satisfied, and otherwise branch on the free variable of lowest index, first
/// with `true`, then with `false`. `Some` holds the assignment that was found.
pub open spec fn search(f: Seq<Seq<i32>>, a: Seq<Option<bool>>) -> Option<Seq<Option<bool>>>
    decreases count_free(a),
    when formula_ok(f, a.len() - 1)
{
    match propagate(f, a) {
        None => None,
        Some(a1) => {
            let a2 = eliminate_pure(f, a1);
            if all_sat(f, a2) {
                Some(a2)
            } else if has_free(a2) {
                let v = first_free(a2);
                proof {
                    lemma_branch_decreases(f, a, true);
                    lemma_branch_decreases(f, a, false);
                }
                match search(f, a2.update(v, Some(true))) {
                    Some(m) => Some(m),
                    None => search(f, a2.update(v, Some(false))),
                }
            } else {
                None
            }
        },
    }
}

/// The model that the search finds from the assignment in which every
/// variable is free.
pub open spec fn model_of(f: Seq<Seq<i32>>, n: int) -> Option<Seq<Option<bool>>> {
    search(f, all_free(n))
}

/// What extends an extension extends what that one extends.
pub proof fn lemma_extends_trans(a: Seq<Option<bool>>, b: Seq<Option<bool>>, c: Seq<Option<bool>>)
    requires
        extends(a, b),
        extends(b, c),
    ensures
        extends(a, c),
{
    assert forall|v: int| 0 <= v < a.len() && (#[trigger] a[v]) is Some implies c[v] == a[v] by {
        assert(b[v] == a[v]);
    }
}

/// An extension has no more free positions, and fewer where it differs.
pub proof fn lemma_count_free_extends(a: Seq<Option<bool>>, b: Seq<Option<bool>>)
    requires
        extends(a, b),
    ensures
        count_free(b) <= count_free(a),
        a != b ==> count_free(b) < count_free(a),
    decreases a.len(),
{
    if a.len() == 0 {
        assert(a =~= b);
    } else {
        let a1 = a.drop_last();
        let b1 = b.drop_last();
        assert(extends(a1, b1)) by {
            assert forall|v: int| 0 <= v < a1.len() && (#[trigger] a1[v]) is Some implies b1[v]
                == a1[v] by {
                assert(a[v] is Some);
            }
        }
        lemma_count_free_extends(a1, b1);
        let k = a.len() - 1;
        if a[k] is Some {
            assert(b[k] == a[k]);
        }
        if a != b && a1 == b1 {
            if a.last() == b.last() {
                assert(a =~= a1.push(a.last()));
                assert(b =~= b1.push(b.last()));
            }
        }
    }
}

/// Assigning a free variable leaves one free position less.
pub proof fn lemma_count_free_update(a: Seq<Option<bool>>, v: int, x: bool)
    requires
        0 <= v < a.len(),
        a[v] is None,
    ensures
        extends(a, a.update(v, Some(x))),
        count_free(a.update(v, Some(x))) < count_free(a),
{
    let b = a.update(v, Some(x));
    assert(b[v] != a[v]);
    lemma_count_free_extends(a, b);
}

/// A unit clause has one free literal only, and is neither a conflict nor
/// satisfied.
pub proof fn lemma_unit_unique(c: Seq<i32>, a: Seq<Option<bool>>, j: int)
    requires
        unit_at(c, a, j),
    ensures
        is_unit(c, a),
        !conflict(c, a),
        !clause_sat(c, a),
        unit_lit(c, a) == c[j],
{
    let k = choose|k: int| unit_at(c, a, k);
    if k != j {
        assert(value_of(c[k], a) == Some(false));
    }
    assert(value_of(c[j], a) is None);
}

/// Under a total assignment that agrees with the partial one, a literal with a
/// value has that value.
pub proof fn lemma_value_agrees(l: i32, a: Seq<Option<bool>>, m: Seq<bool>)
    requires
        agrees(m, a),
        lit_ok(l, a.len() - 1),
        value_of(l, a) is Some,
    ensures
        value_of(l, a) == Some(lit_holds(l, m)),
{
    assert(a[var_of(l)] is Some);
}

/// A pass keeps every assignment that was made.
pub proof fn lemma_pass_extends(f: Seq<Seq<i32>>, a: Seq<Option<bool>>, i: int)
    requires
        formula_ok(f, a.len() - 1),
    ensures
        pass(f, a, i) matches Some(b) ==> extends(a, b),
    decreases f.len() - i,
{
    if i < 0 || i >= f.len() {
    } else if conflict(f[i], a) {
    } else if is_unit(f[i], a) {
        let j = choose|j: int| unit_at(f[i], a, j);
        let u = f[i][j];
        assert(lit_ok(u, a.len() - 1));
        let b = assign_lit(a, u);
        lemma_count_free_update(a, var_of(u), u > 0);
        lemma_pass_extends(f, b, i + 1);
        if let Some(r) = pass(f, b, i + 1) {
            lemma_extends_trans(a, b, r);
        }
    } else {
        lemma_pass_extends(f, a, i + 1);
    }
}

/// A pass loses no model: a total assignment that agrees with `a` and makes
/// the formula true agrees with what the pass returns, and the pass meets no
/// conflict.
pub proof fn lemma_pass_keeps(f: Seq<Seq<i32>>, a: Seq<Option<bool>>, i: int, m: Seq<bool>)
    requires
        formula_ok(f, a.len() - 1),
        agrees(m, a),
        formula_holds(f, m),
    ensures
        pass(f, a, i) matches Some(b) && agrees(m, b),
    decreases f.len() - i,
{
    if i < 0 || i >= f.len() {
    } else {
        let c = f[i];
        assert(clause_holds(c, m));
        let t = choose|t: int| 0 <= t < c.len() && lit_holds(#[trigger] c[t], m);
        assert(lit_ok(c[t], a.len() - 1));
        if value_of(c[t], a) is Some {
            lemma_value_agrees(c[t], a, m);
        }
        if conflict(c, a) {
            assert(value_of(c[t], a) == Some(false));
        } else if is_unit(c, a) {
            let j = choose|j: int| unit_at(c, a, j);
            let u = c[j];
            assert(lit_ok(u, a.len() - 1));
            if t != j {
                assert(value_of(c[t], a) == Some(false));
            }
            let b = assign_lit(a, u);
            assert(agrees(m, b)) by {
                assert forall|v: int| 0 <= v < b.len() && (#[trigger] b[v]) is Some implies b[v]
                    == Some(m[v]) by {
                    if v != var_of(u) {
                        assert(a[v] is Some);
                    }
                }
            }
            lemma_pass_keeps(f, b, i + 1, m);
        } else {
            lemma_pass_keeps(f, a, i + 1, m);
        }
    }
}

/// Unit propagation keeps every assignment that was made.
pub proof fn lemma_propagate_extends(f: Seq<Seq<i32>>, a: Seq<Option<bool>>)
    requires
        formula_ok(f, a.len() - 1),
    ensures
        propagate(f, a) matches Some(b) ==> extends(a, b),
    decreases count_free(a),
{
    lemma_pass_extends(f, a, 0);
    if let Some(b) = pass(f, a, 0) {
        if b != a {
            lemma_count_free_extends(a, b);
            lemma_propagate_extends(f, b);
            if let Some(r) = propagate(f, b) {
                lemma_extends_trans(a, b, r);
            }
        }
    }
}

/// Unit propagation loses no model.
pub proof fn lemma_propagate_keeps(f: Seq<Seq<i32>>, a: Seq<Option<bool>>, m: Seq<bool>)
    requires
        formula_ok(f, a.len() - 1),
        agrees(m, a),
        formula_holds(f, m),
    ensures
        propagate(f, a) matches Some(b) && agrees(m, b),
    decreases count_free(a),
{
    lemma_pass_extends(f, a, 0);
    lemma_pass_keeps(f, a, 0, m);
    let b = pass(f, a, 0)->0;
    if b != a {
        lemma_count_free_extends(a, b);
        lemma_propagate_keeps(f, b, m);
    }
}

/// Pure-literal elimination keeps every assignment that was made.
pub proof fn lemma_pure_extends(f: Seq<Seq<i32>>, a: Seq<Option<bool>>)
    ensures
        extends(a, eliminate_pure(f, a)),
{
}

/// The total assignment that takes the values of `a` where it has any, and
/// those of `m` elsewhere.
pub open spec fn overlay(a: Seq<Option<bool>>, m: Seq<bool>) -> Seq<bool> {
    Seq::new(
        a.len(),
        |v: int|
            match a[v] {
                Some(b) => b,
                None => m[v],
            },
    )
}

/// Pure-literal elimination keeps the formula satisfiable: a model that agrees
/// with `a` becomes one that agrees with the result when each pure variable is
/// given its polarity.
pub proof fn lemma_pure_keeps(f: Seq<Seq<i32>>, a: Seq<Option<bool>>, m: Seq<bool>)
    requires
        formula_ok(f, a.len() - 1),
        agrees(m, a),
        formula_holds(f, m),
    ensures
        agrees(overlay(eliminate_pure(f, a), m), eliminate_pure(f, a)),
        formula_holds(f, overlay(eliminate_pure(f, a), m)),
{
    let a2 = eliminate_pure(f, a);
    let m2 = overlay(a2, m);
    assert forall|i: int| 0 <= i < f.len() implies clause_holds(#[trigger] f[i], m2) by {
        let c = f[i];
        if clause_sat(c, a) {
            let j = choose|j: int| 0 <= j < c.len() && value_of(#[trigger] c[j], a) == Some(true);
            assert(lit_ok(c[j], a.len() - 1));
            assert(a[var_of(c[j])] is Some);
            assert(a2[var_of(c[j])] == a[var_of(c[j])]);
            assert(lit_holds(c[j], m2));
        } else {
            assert(clause_holds(c, m));
            let t = choose|t: int| 0 <= t < c.len() && lit_holds(#[trigger] c[t], m);
            let l = c[t];
            let v = var_of(l);
            assert(lit_ok(l, a.len() - 1));
            if a[v] is Some {
                lemma_value_agrees(l, a, m);
                assert(value_of(c[t], a) == Some(true));
                assert(false);
            }
            if l > 0 {
                assert(f[i][t] == v);
                assert(occurs_pos(f, a, v));
            } else {
                assert(f[i][t] == -v);
                assert(occurs_neg(f, a, v));
            }
            assert(lit_holds(c[t], m2));
        }
    }
}

/// Once every clause has a true literal, every total assignment that agrees
/// makes the formula true.
pub proof fn lemma_all_sat_holds(f: Seq<Seq<i32>>, a: Seq<Option<bool>>, m: Seq<bool>)
    requires
        formula_ok(f, a.len() - 1),
        all_sat(f, a),
        agrees(m, a),
    ensures
        formula_holds(f, m),
{
    assert forall|i: int| 0 <= i < f.len() implies clause_holds(#[trigger] f[i], m) by {
        let c = f[i];
        assert(clause_sat(c, a));
        let j = choose|j: int| 0 <= j < c.len() && value_of(#[trigger] c[j], a) == Some(true);
        assert(lit_ok(c[j], a.len() - 1));
        lemma_value_agrees(c[j], a, m);
    }
}

/// A partial assignment that satisfies every clause can be completed.
pub proof fn lemma_all_sat_sat_under(f: Seq<Seq<i32>>, a: Seq<Option<bool>>)
    requires
        formula_ok(f, a.len() - 1),
        all_sat(f, a),
    ensures
        sat_under(f, a),
{
    let m = overlay(a, Seq::new(a.len(), |v: int| false));
    assert(agrees(m, a));
    lemma_all_sat_holds(f, a, m);
}

/// A model of an extension is a model of what it extends.
pub proof fn lemma_sat_under_extends(f: Seq<Seq<i32>>, a: Seq<Option<bool>>, b: Seq<Option<bool>>)
    requires
        extends(a, b),
        sat_under(f, b),
    ensures
        sat_under(f, a),
{
    let m = choose|m: Seq<bool>| agrees(m, b) && #[trigger] formula_holds(f, m);
    assert(agrees(m, a)) by {
        assert forall|v: int| 0 <= v < a.len() && (#[trigger] a[v]) is Some implies a[v] == Some(
            m[v],
        ) by {
            assert(b[v] == a[v]);
        }
    }
}

/// Where a variable is free, the free variable of lowest index exists.
pub proof fn lemma_free_has_first(a: Seq<Option<bool>>, v: int)
    requires
        1 <= v < a.len(),
        a[v] is None,
    ensures
        has_free(a),
        1 <= first_free(a) <= v,
        is_first_free(a, first_free(a)),
    decreases v,
{
    if forall|u: int| 1 <= u < v ==> (#[trigger] a[u]) is Some {
        assert(is_first_free(a, v));
        let w = first_free(a);
        if w > v {
            assert(a[v] is Some);
        }
    } else {
        let u = choose|u: int| 1 <= u < v && !((#[trigger] a[u]) is Some);
        lemma_free_has_first(a, u);
    }
}

/// The free variable of lowest index is the one that `first_free` names.
pub proof fn lemma_first_free_unique(a: Seq<Option<bool>>, v: int)
    requires
        is_first_free(a, v),
    ensures
        has_free(a),
        first_free(a) == v,
{
    let w = first_free(a);
    if w < v {
        assert(a[w] is Some);
    }
    if v < w {
        assert(a[v] is Some);
    }
}

/// Both branches of the search start from fewer free variables.
pub proof fn lemma_branch_decreases(f: Seq<Seq<i32>>, a: Seq<Option<bool>>, x: bool)
    requires
        formula_ok(f, a.len() - 1),
        propagate(f, a) is Some,
        has_free(eliminate_pure(f, propagate(f, a)->0)),
    ensures
        ({
            let a2 = eliminate_pure(f, propagate(f, a)->0);
            let a3 = a2.update(first_free(a2), Some(x));
            &&& extends(a, a2)
            &&& extends(a2, a3)
            &&& a3.len() == a.len()
            &&& count_free(a3) < count_free(a)
        }),
{
    let a1 = propagate(f, a)->0;
    let a2 = eliminate_pure(f, a1);
    let v = first_free(a2);
    lemma_propagate_extends(f, a);
    lemma_pure_extends(f, a1);
    lemma_extends_trans(a, a1, a2);
    lemma_count_free_extends(a, a2);
    lemma_count_free_update(a2, v, x);
}

/// The search is sound and complete: it returns an assignment exactly when
/// some total assignment that agrees with `a` makes the formula true, and the
/// assignment it returns keeps `a` and gives every clause a true literal.
pub proof fn lemma_search_correct(f: Seq<Seq<i32>>, a: Seq<Option<bool>>)
    requires
        formula_ok(f, a.len() - 1),
        a.len() >= 1,
    ensures
        search(f, a) is Some <==> sat_under(f, a),
        search(f, a) matches Some(b) ==> extends(a, b) && all_sat(f, b),
    decreases count_free(a),
{
    lemma_propagate_extends(f, a);
    match propagate(f, a) {
        None => {
            if sat_under(f, a) {
                let m = choose|m: Seq<bool>| agrees(m, a) && #[trigger] formula_holds(f, m);
                lemma_propagate_keeps(f, a, m);
            }
        },
        Some(a1) => {
            let a2 = eliminate_pure(f, a1);
            lemma_pure_extends(f, a1);
            lemma_extends_trans(a, a1, a2);
            if sat_under(f, a) {
                let m = choose|m: Seq<bool>| agrees(m, a) && #[trigger] formula_holds(f, m);
                lemma_propagate_keeps(f, a, m);
                lemma_pure_keeps(f, a1, m);
                assert(sat_under(f, a2));
            }
            if all_sat(f, a2) {
                lemma_all_sat_sat_under(f, a2);
                lemma_sat_under_extends(f, a, a2);
            } else if has_free(a2) {
                let v = first_free(a2);
                let at = a2.update(v, Some(true));
                let af = a2.update(v, Some(false));
                lemma_branch_decreases(f, a, true);
                lemma_branch_decreases(f, a, false);
                lemma_search_correct(f, at);
                lemma_search_correct(f, af);
                if let Some(r) = search(f, at) {
                    lemma_extends_trans(a, at, r);
                    lemma_extends_trans(a, a2, at);
                }
                if let Some(r) = search(f, af) {
                    lemma_extends_trans(a, a2, af);
                    lemma_extends_trans(a, af, r);
                }
                if sat_under(f, at) {
                    lemma_sat_under_extends(f, a2, at);
                    lemma_sat_under_extends(f, a, a2);
                }
                if sat_under(f, af) {
                    lemma_sat_under_extends(f, a2, af);
                    lemma_sat_under_extends(f, a, a2);
                }
                if sat_under(f, a2) {
                    let m = choose|m: Seq<bool>| agrees(m, a2) && #[trigger] formula_holds(f, m);
                    if m[v] {
                        assert(agrees(m, at));
                    } else {
                        assert(agrees(m, af));
                    }
                }
            } else {
                if sat_under(f, a2) {
                    let m = choose|m: Seq<bool>| agrees(m, a2) && #[trigger] formula_holds(f, m);
                    let i = choose|i: int| 0 <= i < f.len() && !clause_sat(#[trigger] f[i], a2);
                    let c = f[i];
                    assert(clause_holds(c, m));
                    let t = choose|t: int| 0 <= t < c.len() && lit_holds(#[trigger] c[t], m);
                    assert(lit_ok(c[t], a.len() - 1));
                    if a2[var_of(c[t])] is None {
                        lemma_free_has_first(a2, var_of(c[t]));
                    }
                    lemma_value_agrees(c[t], a2, m);
                    assert(value_of(c[t], a2) == Some(true));
                }
            }
        },
    }
}

/// Where every variable is free, the search decides satisfiability.
pub proof fn lemma_model_of_correct(f: Seq<Seq<i32>>, n: int)
    requires
        0 <= n,
        formula_ok(f, n),
    ensures
        model_of(f, n) is Some <==> satisfiable(f, n),
        model_of(f, n) matches Some(b) ==> b.len() == n + 1 && all_sat(f, b),
{
    let a = all_free(n);
    lemma_search_correct(f, a);
    if satisfiable(f, n) {
        let m = choose|m: Seq<bool>| m.len() == n + 1 && #[trigger] formula_holds(f, m);
        assert(agrees(m, a));
    }
    if sat_under(f, a) {
        let m = choose|m: Seq<bool>| agrees(m, a) && #[trigger] formula_holds(f, m);
        assert(m.len() == n + 1);
    }
}

} // verus!
