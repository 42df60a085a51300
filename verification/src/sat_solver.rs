//! A satisfiability solver for formulas in conjunctive normal form.
//!
//! The solver runs the search of [`crate::sat_model`]: unit propagation to a
//! fixpoint, pure-literal elimination, and branching on the free variable of
//! lowest index, `true` before `false`. Its verdict is exact, and the
//! assignment it leaves behind is the one that the model's `search` names.

use crate::sat_model::{
    all_free, all_sat, assign_lit, clause_sat, conflict, count_free, eliminate_pure, extends,
    formula_ok, has_free, is_first_free, is_unit, lemma_branch_decreases, lemma_count_free_extends,
    lemma_count_free_update, lemma_extends_trans, lemma_first_free_unique, lemma_model_of_correct,
    lemma_search_correct, lemma_unit_unique, lit_ok, model_of, occurs_neg, occurs_pos, pass,
    propagate, sat_under, satisfiable, search, unit_at, value_of, var_of,
};
use std::collections::HashMap;
use vstd::prelude::*;

verus! {

/// A literal: `+v` for the variable `v`, `-v` for its negation.
pub type Literal = i32;

/// A disjunction of literals.
pub type Clause = Vec<Literal>;

/// A conjunction of clauses.
pub type CNF = Vec<Clause>;

/// The formula that a vector of clauses stands for.
pub open spec fn cnf_view(clauses: Seq<Vec<i32>>) -> Seq<Seq<i32>> {
    Seq::new(clauses.len(), |i: int| clauses[i]@)
}

/// The assigned variables of a partial assignment, as a map from variable to value.
pub open spec fn model_map(a: Seq<Option<bool>>) -> Map<i32, bool> {
    Map::new(|v: i32| 1 <= v < a.len() && a[v as int] is Some, |v: i32| a[v as int]->0)
}

/// What a pure-literal scan has seen of the literal `l` before position
/// `(hi, hj)`: an occurrence in a clause that is not yet satisfied.
pub open spec fn seen(f: Seq<Seq<i32>>, a: Seq<Option<bool>>, l: int, hi: int, hj: int) -> bool {
    exists|i: int, j: int|
        0 <= i < f.len() && 0 <= j < f[i].len() && (i < hi || (i == hi && j < hj)) && !clause_sat(
            f[i],
            a,
        ) && #[trigger] f[i][j] == l
}

enum ClauseState {
    Satisfied,
    Conflict,
    Unit(usize),
    Open,
}

enum Scan {
    Conflict,
    Unit(usize, i32),
    Done,
}

/// The solver: a formula over the variables `1..=num_vars` and a partial
/// assignment of them.
pub struct SatSolver {
    clauses: CNF,
    num_vars: usize,
    assignment: Vec<Option<bool>>,
}

fn copy_assignment(a: &Vec<Option<bool>>) -> (r: Vec<Option<bool>>)
    ensures
        r@ == a@,
{
    let mut r: Vec<Option<bool>> = Vec::new();
    let mut i: usize = 0;
    while i < a.len()
        invariant
            i <= a.len(),
            r@ == a@.take(i as int),
        decreases a.len() - i,
    {
        r.push(a[i]);
        assert(a@.take(i + 1) =~= a@.take(i as int).push(a@[i as int]));
        i = i + 1;
    }
    assert(a@.take(a.len() as int) =~= a@);
    r
}

fn copy_clause(c: &Vec<i32>) -> (r: Vec<i32>)
    ensures
        r@ == c@,
{
    let mut r: Vec<i32> = Vec::new();
    let mut i: usize = 0;
    while i < c.len()
        invariant
            i <= c.len(),
            r@ == c@.take(i as int),
        decreases c.len() - i,
    {
        r.push(c[i]);
        assert(c@.take(i + 1) =~= c@.take(i as int).push(c@[i as int]));
        i = i + 1;
    }
    assert(c@.take(c.len() as int) =~= c@);
    r
}

fn copy_formula(f: &Vec<Vec<i32>>) -> (r: Vec<Vec<i32>>)
    ensures
        cnf_view(r@) == cnf_view(f@),
{
    let mut r: Vec<Vec<i32>> = Vec::new();
    let mut i: usize = 0;
    while i < f.len()
        invariant
            i <= f.len(),
            r@.len() == i,
            forall|k: int| 0 <= k < i ==> (#[trigger] r@[k])@ == f@[k]@,
        decreases f.len() - i,
    {
        let c = copy_clause(&f[i]);
        r.push(c);
        i = i + 1;
    }
    assert(cnf_view(r@) =~= cnf_view(f@));
    r
}

/// Whether every literal of the formula names a variable in `1..=num_vars`.
pub fn literals_in_range(clauses: &CNF, num_vars: usize) -> (ok: bool)
    ensures
        ok == formula_ok(cnf_view(clauses@), num_vars as int),
{
    let ghost f = cnf_view(clauses@);
    let mut i: usize = 0;
    while i < clauses.len()
        invariant
            i <= clauses.len(),
            f == cnf_view(clauses@),
            forall|p: int, q: int| 0 <= p < i && 0 <= q < f[p].len() ==> lit_ok(#[trigger] f[p][q], num_vars as int),
        decreases clauses.len() - i,
    {
        let clause = &clauses[i];
        let mut j: usize = 0;
        while j < clause.len()
            invariant
                j <= clause.len(),
                i < clauses.len(),
                f == cnf_view(clauses@),
                clause@ == f[i as int],
                forall|q: int| 0 <= q < j ==> lit_ok(#[trigger] f[i as int][q], num_vars as int),
            decreases clause.len() - j,
        {
            let l = clause[j];
            let good = if l > 0 {
                l as usize <= num_vars
            } else if l == i32::MIN {
                num_vars >= 2147483648usize
            } else {
                l != 0 && (-l) as usize <= num_vars
            };
            assert(f[i as int][j as int] == l);
            assert(good == lit_ok(l, num_vars as int));
            if !good {
                return false;
            }
            j = j + 1;
        }
        i = i + 1;
    }
    true
}

impl SatSolver {
    /// The formula that the solver holds.
    pub closed spec fn formula(&self) -> Seq<Seq<i32>> {
        cnf_view(self.clauses@)
    }

    /// The number of variables.
    pub closed spec fn vars(&self) -> int {
        self.num_vars as int
    }

    /// The current partial assignment, indexed by variable.
    pub closed spec fn assignment(&self) -> Seq<Option<bool>> {
        self.assignment@
    }

    /// The solver's invariant: one slot for each variable and one in front,
    /// and every literal in range.
    pub closed spec fn wf(&self) -> bool {
        &&& self.num_vars <= i32::MAX
        &&& self.assignment@.len() == self.num_vars + 1
        &&& formula_ok(self.formula(), self.num_vars as int)
    }

    /// A solver for `clauses` over the variables `1..=num_vars`, all of them free.
    pub fn new(clauses: CNF, num_vars: usize) -> (s: Self)
        requires
            num_vars <= i32::MAX,
            formula_ok(cnf_view(clauses@), num_vars as int),
        ensures
            s.wf(),
            s.formula() == cnf_view(clauses@),
            s.vars() == num_vars,
            s.assignment() == all_free(num_vars as int),
    {
        let mut assignment: Vec<Option<bool>> = Vec::new();
        let mut i: usize = 0;
        while i <= num_vars
            invariant
                i <= num_vars + 1,
                num_vars <= i32::MAX,
                assignment@.len() == i,
                forall|k: int| 0 <= k < i ==> (#[trigger] assignment@[k]) is None,
            decreases num_vars + 1 - i,
        {
            assignment.push(None);
            i = i + 1;
        }
        assert(assignment@ =~= all_free(num_vars as int));
        SatSolver { clauses, num_vars, assignment }
    }

    /// Decides the formula under the current assignment. On `true` the
    /// assignment is the one that the search finds, and it gives every clause a
    /// true literal; in either case what was assigned before stays assigned.
    pub fn solve(&mut self) -> (sat: bool)
        requires
            old(self).wf(),
        ensures
            final(self).wf(),
            final(self).formula() == old(self).formula(),
            final(self).vars() == old(self).vars(),
            sat == sat_under(old(self).formula(), old(self).assignment()),
            sat == (search(old(self).formula(), old(self).assignment()) is Some),
            sat ==> Some(final(self).assignment()) == search(
                old(self).formula(),
                old(self).assignment(),
            ),
            sat ==> all_sat(final(self).formula(), final(self).assignment()),
            extends(old(self).assignment(), final(self).assignment()),
    {
        proof {
            lemma_search_correct(self.formula(), self.assignment());
        }
        self.dpll()
    }

    /// The assigned variables with their values.
    pub fn get_model(&self) -> (model: HashMap<i32, bool>)
        requires
            self.wf(),
        ensures
            model@ == model_map(self.assignment()),
    {
        broadcast use vstd::std_specs::hash::group_hash_axioms;

        let mut model: HashMap<i32, bool> = HashMap::new();
        let mut var: usize = 1;
        let ghost a = self.assignment@;
        while var <= self.num_vars
            invariant
                1 <= var <= self.num_vars + 1,
                self.wf(),
                a == self.assignment@,
                model@ == Map::new(
                    |v: i32| 1 <= v < var && a[v as int] is Some,
                    |v: i32| a[v as int]->0,
                ),
            decreases self.num_vars + 1 - var,
        {
            if let Some(val) = self.assignment[var] {
                model.insert(var as i32, val);
            }
            var = var + 1;
            assert(model@ =~= Map::new(
                |v: i32| 1 <= v < var && a[v as int] is Some,
                |v: i32| a[v as int]->0,
            ));
        }
        assert(model@ =~= model_map(a));
        model
    }

    fn dpll(&mut self) -> (sat: bool)
        requires
            old(self).wf(),
        ensures
            final(self).wf(),
            final(self).formula() == old(self).formula(),
            final(self).vars() == old(self).vars(),
            sat == (search(old(self).formula(), old(self).assignment()) is Some),
            sat ==> Some(final(self).assignment()) == search(
                old(self).formula(),
                old(self).assignment(),
            ),
            extends(old(self).assignment(), final(self).assignment()),
        decreases count_free(old(self).assignment()),
    {
        let ghost f = self.formula();
        let ghost a0 = self.assignment@;
        if !self.unit_propagate() {
            return false;
        }
        let ghost a1 = self.assignment@;
        self.pure_literal_elimination();
        let ghost a2 = self.assignment@;
        proof {
            lemma_extends_trans(a0, a1, a2);
        }
        if self.all_clauses_satisfied() {
            return true;
        }
        match self.select_variable() {
            Some(var) => {
                proof {
                    lemma_first_free_unique(a2, var as int);
                    lemma_branch_decreases(f, a0, true);
                    lemma_branch_decreases(f, a0, false);
                }
                let saved = copy_assignment(&self.assignment);
                self.assignment.set(var, Some(true));
                let ghost at = self.assignment@;
                if self.dpll() {
                    proof {
                        lemma_extends_trans(a2, at, self.assignment@);
                        lemma_extends_trans(a0, a2, self.assignment@);
                    }
                    return true;
                }
                self.assignment = copy_assignment(&saved);
                self.assignment.set(var, Some(false));
                let ghost af = self.assignment@;
                if self.dpll() {
                    proof {
                        lemma_extends_trans(a2, af, self.assignment@);
                        lemma_extends_trans(a0, a2, self.assignment@);
                    }
                    return true;
                }
                self.assignment = saved;
                false
            },
            None => false,
        }
    }

    /// Runs passes of unit propagation until one assigns nothing; `false` on a conflict.
    fn unit_propagate(&mut self) -> (ok: bool)
        requires
            old(self).wf(),
        ensures
            final(self).wf(),
            final(self).formula() == old(self).formula(),
            final(self).vars() == old(self).vars(),
            ok == (propagate(old(self).formula(), old(self).assignment()) is Some),
            ok ==> Some(final(self).assignment()) == propagate(
                old(self).formula(),
                old(self).assignment(),
            ),
            extends(old(self).assignment(), final(self).assignment()),
    {
        let ghost f = self.formula();
        let ghost a0 = self.assignment@;
        loop
            invariant
                self.wf(),
                self.formula() == f,
                f == old(self).formula(),
                a0 == old(self).assignment(),
                self.vars() == old(self).vars(),
                propagate(f, self.assignment@) == propagate(f, a0),
                extends(a0, self.assignment@),
            decreases count_free(self.assignment@),
        {
            let ghost start = self.assignment@;
            let (ok, changed) = self.unit_pass();
            proof {
                lemma_extends_trans(a0, start, self.assignment@);
                assert(formula_ok(f, start.len() - 1));
            }
            if !ok {
                assert(propagate(f, start) is None);
                return false;
            }
            if !changed {
                assert(propagate(f, start) == Some(start));
                return true;
            }
            proof {
                lemma_count_free_extends(start, self.assignment@);
                assert(propagate(f, start) == propagate(f, self.assignment@));
            }
        }
    }

    /// One pass over the clauses: makes the free literal of each unit clause
    /// true as it comes, and stops at a conflict. Returns whether no conflict
    /// was met, and whether anything was assigned.
    fn unit_pass(&mut self) -> (r: (bool, bool))
        requires
            old(self).wf(),
        ensures
            final(self).wf(),
            final(self).formula() == old(self).formula(),
            final(self).vars() == old(self).vars(),
            extends(old(self).assignment(), final(self).assignment()),
            r.0 == (pass(old(self).formula(), old(self).assignment(), 0) is Some),
            r.0 ==> Some(final(self).assignment()) == pass(
                old(self).formula(),
                old(self).assignment(),
                0,
            ),
            r.0 ==> r.1 == (final(self).assignment() != old(self).assignment()),
    {
        let ghost f = self.formula();
        let ghost start = self.assignment@;
        let mut changed = false;
        let mut i: usize = 0;
        loop
            invariant
                self.wf(),
                self.formula() == f,
                f == old(self).formula(),
                start == old(self).assignment(),
                self.vars() == old(self).vars(),
                i <= self.clauses.len(),
                pass(f, self.assignment@, i as int) == pass(f, start, 0),
                extends(start, self.assignment@),
                changed == (self.assignment@ != start),
            ensures
                pass(f, start, 0) == Some(self.assignment@),
            decreases self.clauses.len() - i,
        {
            match self.find_unit_clause(i) {
                Scan::Conflict => {
                    return (false, changed);
                },
                Scan::Unit(k, lit) => {
                    let ghost before = self.assignment@;
                    let var: usize = if lit > 0 {
                        lit as usize
                    } else {
                        (-lit) as usize
                    };
                    self.assignment.set(var, Some(lit > 0));
                    proof {
                        assert(self.assignment@ == assign_lit(before, lit));
                        lemma_count_free_update(before, var as int, lit > 0);
                        lemma_extends_trans(start, before, self.assignment@);
                        assert(start[var as int] is None);
                        assert(self.assignment@[var as int] != start[var as int]);
                    }
                    changed = true;
                    i = k + 1;
                },
                Scan::Done => {
                    break ;
                },
            }
        }
        (true, changed)
    }

    /// Finds, from clause `from` on, the first clause that is a conflict or a unit.
    fn find_unit_clause(&self, from: usize) -> (r: Scan)
        requires
            self.wf(),
            from <= self.clauses.len(),
        ensures
            match r {
                Scan::Conflict => pass(self.formula(), self.assignment(), from as int) is None,
                Scan::Unit(k, lit) => {
                    &&& from <= k < self.clauses.len()
                    &&& lit_ok(lit, self.vars())
                    &&& value_of(lit, self.assignment()) is None
                    &&& pass(self.formula(), self.assignment(), from as int) == pass(
                        self.formula(),
                        assign_lit(self.assignment(), lit),
                        k + 1,
                    )
                },
                Scan::Done => pass(self.formula(), self.assignment(), from as int) == Some(
                    self.assignment(),
                ),
            },
    {
        let ghost f = self.formula();
        let ghost a = self.assignment@;
        let mut i: usize = from;
        while i < self.clauses.len()
            invariant
                self.wf(),
                f == self.formula(),
                a == self.assignment@,
                from <= i <= self.clauses.len(),
                pass(f, a, from as int) == pass(f, a, i as int),
            decreases self.clauses.len() - i,
        {
            let ghost c = f[i as int];
            match self.classify(i) {
                ClauseState::Conflict => {
                    return Scan::Conflict;
                },
                ClauseState::Unit(j) => {
                    proof {
                        lemma_unit_unique(c, a, j as int);
                    }
                    return Scan::Unit(i, self.clauses[i][j]);
                },
                _ => {},
            }
            i = i + 1;
        }
        Scan::Done
    }

    /// Tells what the current assignment makes of clause `i`.
    fn classify(&self, i: usize) -> (r: ClauseState)
        requires
            self.wf(),
            i < self.clauses.len(),
        ensures
            match r {
                ClauseState::Satisfied => clause_sat(self.formula()[i as int], self.assignment()),
                ClauseState::Conflict => conflict(self.formula()[i as int], self.assignment()),
                ClauseState::Unit(j) => unit_at(
                    self.formula()[i as int],
                    self.assignment(),
                    j as int,
                ),
                ClauseState::Open => {
                    &&& !clause_sat(self.formula()[i as int], self.assignment())
                    &&& !conflict(self.formula()[i as int], self.assignment())
                    &&& !is_unit(self.formula()[i as int], self.assignment())
                },
            },
            !(r is Satisfied) ==> !clause_sat(self.formula()[i as int], self.assignment()),
            r is Satisfied ==> !conflict(self.formula()[i as int], self.assignment()) && !is_unit(
                self.formula()[i as int],
                self.assignment(),
            ),
    {
        let clause = &self.clauses[i];
        let ghost c = self.formula()[i as int];
        let ghost a = self.assignment@;
        let mut first: Option<usize> = None;
        let mut many = false;
        let ghost mut second: int = 0;
        let mut j: usize = 0;
        while j < clause.len()
            invariant
                self.wf(),
                i < self.clauses.len(),
                clause@ == c,
                c == self.formula()[i as int],
                a == self.assignment@,
                j <= clause.len(),
                forall|k: int| 0 <= k < j ==> value_of(#[trigger] c[k], a) != Some(true),
                first is None ==> forall|k: int|
                    0 <= k < j ==> value_of(#[trigger] c[k], a) == Some(false),
                first matches Some(p) ==> p < j && value_of(c[p as int], a) is None,
                first matches Some(p) ==> !many ==> forall|k: int|
                    0 <= k < j && k != p ==> value_of(#[trigger] c[k], a) == Some(false),
                many ==> first is Some && first->0 < second < j && value_of(c[second], a) is None,
            decreases clause.len() - j,
        {
            let lit = clause[j];
            assert(lit_ok(c[j as int], self.vars()));
            match self.evaluate_literal(lit) {
                Some(true) => {
                    assert(value_of(c[j as int], a) == Some(true));
                    assert(!conflict(c, a));
                    assert forall|t: int| !unit_at(c, a, t) by {
                        if unit_at(c, a, t) {
                            if t != j {
                                assert(value_of(c[j as int], a) == Some(false));
                            }
                        }
                    }
                    return ClauseState::Satisfied;
                },
                Some(false) => {},
                None => {
                    if first.is_none() {
                        first = Some(j);
                    } else {
                        many = true;
                        proof {
                            second = j as int;
                        }
                    }
                },
            }
            j = j + 1;
        }
        assert(!clause_sat(c, a));
        match first {
            None => ClauseState::Conflict,
            Some(p) => {
                if many {
                    assert(!conflict(c, a)) by {
                        assert(value_of(c[p as int], a) is None);
                    }
                    assert forall|t: int| !unit_at(c, a, t) by {
                        if unit_at(c, a, t) {
                            if t != p {
                                assert(value_of(c[p as int], a) == Some(false));
                            } else {
                                assert(value_of(c[second], a) == Some(false));
                            }
                        }
                    }
                    ClauseState::Open
                } else {
                    ClauseState::Unit(p)
                }
            },
        }
    }

    /// Gives every free variable that occurs with one polarity only, in the
    /// clauses that are not yet satisfied, that polarity.
    fn pure_literal_elimination(&mut self)
        requires
            old(self).wf(),
        ensures
            final(self).wf(),
            final(self).formula() == old(self).formula(),
            final(self).vars() == old(self).vars(),
            final(self).assignment() == eliminate_pure(old(self).formula(), old(self).assignment()),
            extends(old(self).assignment(), final(self).assignment()),
    {
        let ghost f = self.formula();
        let ghost a = self.assignment@;
        let n = self.num_vars;
        let mut pos: Vec<bool> = Vec::new();
        let mut neg: Vec<bool> = Vec::new();
        let mut t: usize = 0;
        while t <= n
            invariant
                t <= n + 1,
                n <= i32::MAX,
                pos@.len() == t,
                neg@.len() == t,
                forall|k: int| 0 <= k < t ==> !(#[trigger] pos@[k]),
                forall|k: int| 0 <= k < t ==> !(#[trigger] neg@[k]),
            decreases n + 1 - t,
        {
            pos.push(false);
            neg.push(false);
            t = t + 1;
        }
        let mut i: usize = 0;
        while i < self.clauses.len()
            invariant
                self.wf(),
                f == self.formula(),
                a == self.assignment@,
                n == self.num_vars,
                i <= self.clauses.len(),
                pos@.len() == n + 1,
                neg@.len() == n + 1,
                forall|v: int| 1 <= v <= n ==> (#[trigger] pos@[v]) == seen(f, a, v, i as int, 0),
                forall|v: int| 1 <= v <= n ==> (#[trigger] neg@[v]) == seen(f, a, -v, i as int, 0),
            decreases self.clauses.len() - i,
        {
            if !self.is_clause_satisfied(i) {
                let clause = &self.clauses[i];
                let mut j: usize = 0;
                while j < clause.len()
                    invariant
                        self.wf(),
                        f == self.formula(),
                        a == self.assignment@,
                        n == self.num_vars,
                        i < self.clauses.len(),
                        clause@ == f[i as int],
                        !clause_sat(f[i as int], a),
                        j <= clause.len(),
                        pos@.len() == n + 1,
                        neg@.len() == n + 1,
                        forall|v: int|
                            1 <= v <= n ==> (#[trigger] pos@[v]) == seen(f, a, v, i as int, j as int),
                        forall|v: int|
                            1 <= v <= n ==> (#[trigger] neg@[v]) == seen(f, a, -v, i as int, j as int),
                    decreases clause.len() - j,
                {
                    let lit = clause[j];
                    assert(lit_ok(f[i as int][j as int], n as int));
                    proof {
                        lemma_seen_step(f, a, i as int, j as int);
                    }
                    if lit > 0 {
                        pos.set(lit as usize, true);
                    } else {
                        neg.set((-lit) as usize, true);
                    }
                    j = j + 1;
                }
                proof {
                    lemma_seen_next_clause(f, a, i as int, j as int);
                }
            } else {
                proof {
                    lemma_seen_skip(f, a, i as int);
                }
            }
            i = i + 1;
        }
        proof {
            lemma_seen_all(f, a);
        }
        let mut var: usize = 1;
        while var <= n
            invariant
                self.wf(),
                f == self.formula(),
                n == self.num_vars,
                self.vars() == old(self).vars(),
                1 <= var <= n + 1,
                pos@.len() == n + 1,
                neg@.len() == n + 1,
                a.len() == n + 1,
                forall|v: int| 1 <= v <= n ==> (#[trigger] pos@[v]) == occurs_pos(f, a, v),
                forall|v: int| 1 <= v <= n ==> (#[trigger] neg@[v]) == occurs_neg(f, a, v),
                forall|v: int| 0 <= v < var ==> (#[trigger] self.assignment@[v]) == eliminate_pure(f, a)[v],
                forall|v: int| var <= v <= n ==> (#[trigger] self.assignment@[v]) == a[v],
            decreases n + 1 - var,
        {
            if self.assignment[var].is_none() {
                let p = pos[var];
                let q = neg[var];
                if p && !q {
                    self.assignment.set(var, Some(true));
                } else if q && !p {
                    self.assignment.set(var, Some(false));
                }
            }
            var = var + 1;
        }
        assert(self.assignment@ =~= eliminate_pure(f, a));
    }

    /// Whether clause `i` has a true literal.
    fn is_clause_satisfied(&self, i: usize) -> (r: bool)
        requires
            self.wf(),
            i < self.clauses.len(),
        ensures
            r == clause_sat(self.formula()[i as int], self.assignment()),
    {
        let clause = &self.clauses[i];
        let ghost c = self.formula()[i as int];
        let ghost a = self.assignment@;
        let mut j: usize = 0;
        while j < clause.len()
            invariant
                self.wf(),
                i < self.clauses.len(),
                clause@ == c,
                c == self.formula()[i as int],
                a == self.assignment@,
                j <= clause.len(),
                forall|k: int| 0 <= k < j ==> value_of(#[trigger] c[k], a) != Some(true),
            decreases clause.len() - j,
        {
            let lit = clause[j];
            assert(lit_ok(c[j as int], self.vars()));
            if let Some(true) = self.evaluate_literal(lit) {
                assert(value_of(c[j as int], a) == Some(true));
                return true;
            }
            j = j + 1;
        }
        false
    }

    /// Whether every clause has a true literal.
    fn all_clauses_satisfied(&self) -> (r: bool)
        requires
            self.wf(),
        ensures
            r == all_sat(self.formula(), self.assignment()),
    {
        let ghost f = self.formula();
        let ghost a = self.assignment@;
        let mut i: usize = 0;
        while i < self.clauses.len()
            invariant
                self.wf(),
                f == self.formula(),
                a == self.assignment@,
                i <= self.clauses.len(),
                forall|k: int| 0 <= k < i ==> clause_sat(#[trigger] f[k], a),
            decreases self.clauses.len() - i,
        {
            if !self.is_clause_satisfied(i) {
                return false;
            }
            i = i + 1;
        }
        true
    }

    /// The value of a literal under the current assignment.
    fn evaluate_literal(&self, lit: Literal) -> (r: Option<bool>)
        requires
            self.wf(),
            lit_ok(lit, self.vars()),
        ensures
            r == value_of(lit, self.assignment()),
    {
        let var: usize = if lit > 0 {
            lit as usize
        } else {
            (-lit) as usize
        };
        match self.assignment[var] {
            Some(val) => Some(
                if lit > 0 {
                    val
                } else {
                    !val
                },
            ),
            None => None,
        }
    }

    /// The free variable of lowest index, if any variable is free.
    fn select_variable(&self) -> (r: Option<usize>)
        requires
            self.wf(),
        ensures
            match r {
                Some(v) => is_first_free(self.assignment(), v as int),
                None => !has_free(self.assignment()),
            },
    {
        let mut var: usize = 1;
        while var <= self.num_vars
            invariant
                self.wf(),
                1 <= var <= self.num_vars + 1,
                forall|u: int| 1 <= u < var ==> (#[trigger] self.assignment@[u]) is Some,
            decreases self.num_vars + 1 - var,
        {
            if self.assignment[var].is_none() {
                return Some(var);
            }
            var = var + 1;
        }
        assert forall|v: int| !is_first_free(self.assignment@, v) by {
            if is_first_free(self.assignment@, v) {
                assert(self.assignment@[v] is Some);
            }
        }
        None
    }
}

proof fn lemma_seen_step(f: Seq<Seq<i32>>, a: Seq<Option<bool>>, i: int, j: int)
    requires
        0 <= i < f.len(),
        0 <= j < f[i].len(),
        !clause_sat(f[i], a),
    ensures
        forall|l: int| seen(f, a, l, i, j + 1) == (seen(f, a, l, i, j) || l == f[i][j]),
{
    assert forall|l: int| seen(f, a, l, i, j + 1) == (seen(f, a, l, i, j) || l == f[i][j]) by {
        if seen(f, a, l, i, j) {
            let (p, q) = choose|p: int, q: int|
                0 <= p < f.len() && 0 <= q < f[p].len() && (p < i || (p == i && q < j))
                    && !clause_sat(f[p], a) && #[trigger] f[p][q] == l;
            assert(f[p][q] == l);
            assert(seen(f, a, l, i, j + 1));
        }
        if l == f[i][j] {
            assert(f[i][j] == l);
            assert(seen(f, a, l, i, j + 1));
        }
        if seen(f, a, l, i, j + 1) {
            let (p, q) = choose|p: int, q: int|
                0 <= p < f.len() && 0 <= q < f[p].len() && (p < i || (p == i && q < j + 1))
                    && !clause_sat(f[p], a) && #[trigger] f[p][q] == l;
            if !(p == i && q == j) {
                assert(f[p][q] == l);
                assert(seen(f, a, l, i, j));
            }
        }
    }
}

proof fn lemma_seen_next_clause(f: Seq<Seq<i32>>, a: Seq<Option<bool>>, i: int, j: int)
    requires
        0 <= i < f.len(),
        j == f[i].len(),
    ensures
        forall|l: int| seen(f, a, l, i + 1, 0) == seen(f, a, l, i, j),
{
    assert forall|l: int| seen(f, a, l, i + 1, 0) == seen(f, a, l, i, j) by {
        if seen(f, a, l, i, j) {
            let (p, q) = choose|p: int, q: int|
                0 <= p < f.len() && 0 <= q < f[p].len() && (p < i || (p == i && q < j))
                    && !clause_sat(f[p], a) && #[trigger] f[p][q] == l;
            assert(f[p][q] == l);
            assert(seen(f, a, l, i + 1, 0));
        }
        if seen(f, a, l, i + 1, 0) {
            let (p, q) = choose|p: int, q: int|
                0 <= p < f.len() && 0 <= q < f[p].len() && (p < i + 1 || (p == i + 1 && q < 0))
                    && !clause_sat(f[p], a) && #[trigger] f[p][q] == l;
            assert(f[p][q] == l);
            assert(seen(f, a, l, i, j));
        }
    }
}

proof fn lemma_seen_skip(f: Seq<Seq<i32>>, a: Seq<Option<bool>>, i: int)
    requires
        0 <= i < f.len(),
        clause_sat(f[i], a),
    ensures
        forall|l: int| seen(f, a, l, i + 1, 0) == seen(f, a, l, i, 0),
{
    assert forall|l: int| seen(f, a, l, i + 1, 0) == seen(f, a, l, i, 0) by {
        if seen(f, a, l, i, 0) {
            let (p, q) = choose|p: int, q: int|
                0 <= p < f.len() && 0 <= q < f[p].len() && (p < i || (p == i && q < 0))
                    && !clause_sat(f[p], a) && #[trigger] f[p][q] == l;
            assert(f[p][q] == l);
            assert(seen(f, a, l, i + 1, 0));
        }
        if seen(f, a, l, i + 1, 0) {
            let (p, q) = choose|p: int, q: int|
                0 <= p < f.len() && 0 <= q < f[p].len() && (p < i + 1 || (p == i + 1 && q < 0))
                    && !clause_sat(f[p], a) && #[trigger] f[p][q] == l;
            assert(f[p][q] == l);
            assert(seen(f, a, l, i, 0));
        }
    }
}

proof fn lemma_seen_all(f: Seq<Seq<i32>>, a: Seq<Option<bool>>)
    ensures
        forall|v: int| seen(f, a, v, f.len() as int, 0) == occurs_pos(f, a, v),
        forall|v: int| seen(f, a, -v, f.len() as int, 0) == occurs_neg(f, a, v),
{
    assert forall|v: int| seen(f, a, v, f.len() as int, 0) == occurs_pos(f, a, v) by {
        if seen(f, a, v, f.len() as int, 0) {
            let (p, q) = choose|p: int, q: int|
                0 <= p < f.len() && 0 <= q < f[p].len() && (p < f.len() || (p == f.len() && q < 0))
                    && !clause_sat(f[p], a) && #[trigger] f[p][q] == v;
            assert(f[p][q] == v);
        }
        if occurs_pos(f, a, v) {
            let (p, q) = choose|p: int, q: int|
                0 <= p < f.len() && 0 <= q < f[p].len() && !clause_sat(f[p], a) && #[trigger] f[p][q]
                    == v;
            assert(f[p][q] == v);
            assert(seen(f, a, v, f.len() as int, 0));
        }
    }
    assert forall|v: int| seen(f, a, -v, f.len() as int, 0) == occurs_neg(f, a, v) by {
        if seen(f, a, -v, f.len() as int, 0) {
            let (p, q) = choose|p: int, q: int|
                0 <= p < f.len() && 0 <= q < f[p].len() && (p < f.len() || (p == f.len() && q < 0))
                    && !clause_sat(f[p], a) && #[trigger] f[p][q] == -v;
            assert(f[p][q] == -v);
        }
        if occurs_neg(f, a, v) {
            let (p, q) = choose|p: int, q: int|
                0 <= p < f.len() && 0 <= q < f[p].len() && !clause_sat(f[p], a) && #[trigger] f[p][q]
                    == -v;
            assert(f[p][q] == -v);
            assert(seen(f, a, -v, f.len() as int, 0));
        }
    }
}

/// Decides whether some assignment of the variables `1..=num_vars` makes
/// every clause true.
pub fn is_sat(clauses: &CNF, num_vars: usize) -> (sat: bool)
    requires
        num_vars <= i32::MAX,
        formula_ok(cnf_view(clauses@), num_vars as int),
    ensures
        sat == satisfiable(cnf_view(clauses@), num_vars as int),
        sat == (model_of(cnf_view(clauses@), num_vars as int) is Some),
{
    proof {
        lemma_model_of_correct(cnf_view(clauses@), num_vars as int);
    }
    if clauses.len() == 0 {
        return true;
    }
    let mut solver = SatSolver::new(copy_formula(clauses), num_vars);
    solver.solve()
}

/// After a successful decision the model satisfies every clause: each clause
/// holds a literal whose variable the model maps to the literal's polarity.
pub proof fn lemma_model_satisfies(f: Seq<Seq<i32>>, a: Seq<Option<bool>>, i: int)
    requires
        a.len() >= 1,
        a.len() - 1 <= i32::MAX,
        formula_ok(f, a.len() - 1),
        search(f, a) is Some,
        0 <= i < f.len(),
    ensures
        exists|j: int|
            0 <= j < f[i].len() && model_map(search(f, a)->0).contains_pair(
                if (#[trigger] f[i][j]) > 0 {
                    f[i][j]
                } else {
                    (-f[i][j]) as i32
                },
                f[i][j] > 0,
            ),
{
    lemma_search_correct(f, a);
    let b = search(f, a)->0;
    assert(clause_sat(f[i], b));
    let j = choose|j: int| 0 <= j < f[i].len() && value_of(#[trigger] f[i][j], b) == Some(true);
    let l = f[i][j];
    assert(lit_ok(l, a.len() - 1));
    let v: i32 = if l > 0 {
        l
    } else {
        (-l) as i32
    };
    assert(v as int == var_of(l));
    assert(model_map(b).contains_pair(v, l > 0));
}

/// The model of a satisfiable formula satisfies every clause: the search finds
/// a model, and each clause holds a literal whose variable the model maps to
/// the literal's polarity.
pub proof fn lemma_satisfiable_has_model(f: Seq<Seq<i32>>, n: int, i: int)
    requires
        0 <= n <= i32::MAX,
        formula_ok(f, n),
        satisfiable(f, n),
        0 <= i < f.len(),
    ensures
        model_of(f, n) is Some,
        exists|j: int|
            0 <= j < f[i].len() && model_map(model_of(f, n)->0).contains_pair(
                if (#[trigger] f[i][j]) > 0 {
                    f[i][j]
                } else {
                    (-f[i][j]) as i32
                },
                f[i][j] > 0,
            ),
{
    lemma_model_of_correct(f, n);
    lemma_model_satisfies(f, all_free(n), i);
}

/// The verdict and the model depend on the formula and on the number of
/// variables alone: the same input gives the same verdict and the same model.
pub proof fn lemma_same_input_same_outcome(f1: Seq<Seq<i32>>, n1: int, f2: Seq<Seq<i32>>, n2: int)
    requires
        f1 =~~= f2,
        n1 == n2,
    ensures
        satisfiable(f1, n1) == satisfiable(f2, n2),
        model_of(f1, n1) == model_of(f2, n2),
{
}

} // verus!
