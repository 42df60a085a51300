//! Consistency of a feature model, and validity of a configuration under it,
//! decided by encoding the model as clauses and asking the solver.

use crate::feature_model::{
    allocate, allocate_all, at_least_one, children, clause_covered, configuration_valid,
    count_features, covered, edge_clauses, encoding, encoding_mentions, excludes_of, feature,
    feature_clauses, feature_index, feature_named, group_clauses, group_mentions,
    hierarchy_clauses, is_child, is_feature, is_plain, lemma_allocate, lemma_feature_index_none,
    lemma_feature_index_unique, lemma_model_mentions_grow, lemma_numbered_in_range,
    lemma_numbered_stable, lemma_numbering_faithful, mandatory, marked_mandatory, model_clauses,
    model_consistent, model_mentions, numbered, numbered_clause, numbered_lit, own_mentions,
    pair_row, pair_rows, parent_of, plain_mentions, requires_of, selection_clauses, selection_ok,
    variable, variable_count, lemma_configuration_valid, Sym, MENTION_LIMIT,
};
use crate::feature_meaning::{
    has_product, has_product_with, lemma_consistency_meaning, lemma_validity_meaning,
};
use crate::text::{decimal, decimal_text, text_list};
use crate::sat_solver::{cnf_view, is_sat, Clause, CNF};
use crate::types::config::{distinct, distinct_names};
use crate::types::element::Element;
use crate::types::registry::Registry;
use crate::types::entry::{get, Entry};
use crate::types::feature::{FeatureElement, VariabilityGroup};
use crate::types::json::parse_string_or_array;
use vstd::hash_map::StringHashMap;
use vstd::prelude::*;

verus! {

/// What a check of a feature model found.
#[derive(Debug, Clone)]
pub struct FeatureModelValidation {
    pub is_consistent: bool,
    pub message: String,
    pub num_features: usize,
    pub num_clauses: usize,
}

/// The feature at entry `k`.
fn feature_at(registry: &Registry, k: usize) -> (f: &FeatureElement)
    requires
        is_feature(registry@, k as int),
    ensures
        *f == feature(registry@, k as int),
{
    registry.entry(k).value.as_feature().unwrap()
}

/// The first entry that is a feature with the identifier `id`.
pub fn find_feature(registry: &Registry, id: &String) -> (r: Option<usize>)
    ensures
        match r {
            Some(k) => feature_index(registry@, id@) == Some(k as int) && is_feature(
                registry@,
                k as int,
            ),
            None => feature_index(registry@, id@) is None,
        },
{
    let mut k: usize = 0;
    while k < registry.len()
        invariant
            k <= registry@.len(),
            forall|j: int| 0 <= j < k ==> !#[trigger] feature_named(registry@, j, id@),
        decreases registry@.len() - k,
    {
        if let Element::Feature(f) = &registry.entry(k).value {
            if f.id == *id {
                proof {
                    lemma_feature_index_unique(registry@, id@, k as int);
                }
                return Some(k);
            }
        }
        k = k + 1;
    }
    proof {
        lemma_feature_index_none(registry@, id@);
    }
    None
}

/// The number of features of the registry.
pub fn feature_count(registry: &Registry) -> (n: usize)
    ensures
        n == count_features(registry@, registry@.len() as int),
{
    let mut n: usize = 0;
    let mut k: usize = 0;
    while k < registry.len()
        invariant
            k <= registry@.len(),
            n <= k,
            n == count_features(registry@, k as int),
        decreases registry@.len() - k,
    {
        if let Element::Feature(_) = &registry.entry(k).value {
            n = n + 1;
        }
        k = k + 1;
    }
    n
}

/// The entries that are children of `pid`, in the order of the registry.
fn collect_children(registry: &Registry, pid: &String) -> (r: Vec<usize>)
    ensures
        r@.len() == children(registry@, pid@, registry@.len() as int).len(),
        forall|t: int|
            0 <= t < r@.len() ==> is_feature(registry@, (#[trigger] r@[t]) as int) && feature(
                registry@,
                r@[t] as int,
            ).id@ == children(registry@, pid@, registry@.len() as int)[t],
{
    let mut out: Vec<usize> = Vec::new();
    let mut k: usize = 0;
    while k < registry.len()
        invariant
            k <= registry@.len(),
            out@.len() == children(registry@, pid@, k as int).len(),
            forall|t: int|
                0 <= t < out@.len() ==> is_feature(registry@, (#[trigger] out@[t]) as int)
                    && feature(registry@, out@[t] as int).id@ == children(registry@, pid@, k as int)[t],
        decreases registry@.len() - k,
    {
        let mut child = false;
        if let Element::Feature(f) = &registry.entry(k).value {
            if let Some(p) = &f.parent {
                if *p == *pid {
                    child = true;
                }
            }
        }
        assert(child == is_child(registry@, k as int, pid@));
        if child {
            out.push(k);
        }
        k = k + 1;
    }
    out
}

/// Whether the feature at `k` is mandatory.
fn is_mandatory(registry: &Registry, k: usize) -> (r: bool)
    requires
        is_feature(registry@, k as int),
    ensures
        r == mandatory(registry@, k as int),
{
    let f = feature_at(registry, k);
    let key = "mandatory".to_owned();
    if let Some(v) = get(&f.tags, &key) {
        if let Some(b) = v.as_bool() {
            if b {
                return true;
            }
        }
    }
    assert(!marked_mandatory(*f));
    match &f.parent {
        Some(p) => match find_feature(registry, p) {
            Some(pi) => {
                let parent = feature_at(registry, pi);
                if parent.is_variability_group() {
                    false
                } else {
                    let siblings = collect_children(registry, p);
                    siblings.len() == 1
                }
            },
            None => false,
        },
        None => false,
    }
}

/// The encoder: the variables given so far, and the clauses written so far.
struct CnfEncoder {
    var_map: StringHashMap<i32>,
    next_var: i32,
    clauses: CNF,
    names: Ghost<Seq<Seq<char>>>,
    mentions: Ghost<Seq<Seq<char>>>,
    syms: Ghost<Seq<Seq<Sym>>>,
}

impl CnfEncoder {
    /// The variables are numbered in the order in which their identifiers
    /// were first met, and the clauses written are the numbered form of the
    /// clauses over identifiers.
    spec fn wf(&self) -> bool {
        &&& self.names@ == allocate_all(Seq::empty(), self.mentions@)
        &&& self.names@.no_duplicates()
        &&& self.names@.len() <= self.mentions@.len() <= MENTION_LIMIT
        &&& self.next_var == self.names@.len() + 1
        &&& forall|id: Seq<char>| #[trigger]
            self.var_map@.contains_key(id) <==> self.names@.contains(id)
        &&& forall|id: Seq<char>|
            self.names@.contains(id) ==> #[trigger] self.var_map@[id] == variable(self.names@, id)
        &&& cnf_view(self.clauses@) == numbered(self.names@, self.syms@)
        &&& covered(self.names@, self.syms@)
    }

    fn new() -> (e: Self)
        ensures
            e.wf(),
            e.mentions@ == Seq::<Seq<char>>::empty(),
            e.syms@ == Seq::<Seq<Sym>>::empty(),
    {
        let e = CnfEncoder {
            var_map: StringHashMap::new(),
            next_var: 1,
            clauses: Vec::new(),
            names: Ghost(Seq::empty()),
            mentions: Ghost(Seq::empty()),
            syms: Ghost(Seq::empty()),
        };
        assert(cnf_view(e.clauses@) =~= numbered(e.names@, e.syms@));
        e
    }

    /// The variable of an identifier; a new one where it was not met before.
    fn get_or_create_var(&mut self, feature_id: &String) -> (v: i32)
        requires
            old(self).wf(),
            old(self).mentions@.len() < MENTION_LIMIT,
        ensures
            final(self).wf(),
            final(self).mentions@ == old(self).mentions@.push(feature_id@),
            final(self).names@ == allocate(old(self).names@, feature_id@),
            final(self).syms@ == old(self).syms@,
            final(self).clauses == old(self).clauses,
            final(self).names@.contains(feature_id@),
            v == variable(final(self).names@, feature_id@),
            1 <= v <= final(self).names@.len(),
    {
        let ghost id = feature_id@;
        let ghost names = self.names@;
        let ghost ms = self.mentions@;
        proof {
            lemma_allocate(names, id);
            lemma_numbered_stable(names, id, self.syms@);
            assert(ms.push(id).drop_last() =~= ms);
        }
        let found = match self.var_map.get(feature_id.as_str()) {
            Some(v) => Some(*v),
            None => None,
        };
        match found {
            Some(var) => {
                self.mentions = Ghost(ms.push(id));
                var
            },
            None => {
                let var = self.next_var;
                self.var_map.insert(feature_id.clone(), var);
                self.next_var = self.next_var + 1;
                self.names = Ghost(names.push(id));
                self.mentions = Ghost(ms.push(id));
                var
            },
        }
    }

    /// Writes a clause, unless it is empty.
    fn add_clause(&mut self, clause: Clause, Ghost(sym): Ghost<Seq<Sym>>)
        requires
            old(self).wf(),
            clause@ == numbered_clause(old(self).names@, sym),
            clause_covered(old(self).names@, sym),
        ensures
            final(self).wf(),
            final(self).mentions@ == old(self).mentions@,
            final(self).names@ == old(self).names@,
            final(self).syms@ == if sym.len() > 0 {
                old(self).syms@.push(sym)
            } else {
                old(self).syms@
            },
    {
        if clause.len() > 0 {
            let ghost syms = self.syms@;
            let ghost before = self.clauses@;
            self.clauses.push(clause);
            self.syms = Ghost(syms.push(sym));
            proof {
                assert(cnf_view(before).len() == syms.len());
                assert forall|i: int| 0 <= i < self.clauses@.len() implies cnf_view(
                    self.clauses@,
                )[i] == numbered(self.names@, self.syms@)[i] by {
                    if i < before.len() {
                        assert(cnf_view(before)[i] == numbered(self.names@, syms)[i]);
                    }
                }
                assert(cnf_view(self.clauses@) =~= numbered(self.names@, self.syms@));
            }
        }
    }

    /// Writes, for each target, the clause by which the feature implies the
    /// target (`present`) or its absence.
    fn encode_edges(
        &mut self,
        feature_var: i32,
        Ghost(id): Ghost<Seq<char>>,
        targets: &Vec<String>,
        present: bool,
    )
        requires
            old(self).wf(),
            old(self).names@.contains(id),
            feature_var == variable(old(self).names@, id),
            old(self).mentions@.len() + targets@.len() <= MENTION_LIMIT,
        ensures
            final(self).wf(),
            final(self).names@.contains(id),
            feature_var == variable(final(self).names@, id),
            final(self).mentions@ == old(self).mentions@ + text_list(targets@),
            final(self).syms@ == old(self).syms@ + edge_clauses(id, text_list(targets@), present),
            forall|x: Seq<char>| #[trigger]
                old(self).names@.contains(x) ==> final(self).names@.contains(x) && variable(
                    final(self).names@,
                    x,
                ) == variable(old(self).names@, x),
    {
        let ghost m0 = self.mentions@;
        let ghost s0 = self.syms@;
        let ghost n0 = self.names@;
        let ghost ts = text_list(targets@);
        let mut i: usize = 0;
        while i < targets.len()
            invariant
                i <= targets.len(),
                self.wf(),
                ts == text_list(targets@),
                self.names@.contains(id),
                feature_var == variable(self.names@, id),
                m0.len() + targets@.len() <= MENTION_LIMIT,
                self.mentions@ == m0 + ts.take(i as int),
                self.syms@ == s0 + edge_clauses(id, ts, present).take(i as int),
                forall|x: Seq<char>| #[trigger]
                    n0.contains(x) ==> self.names@.contains(x) && variable(self.names@, x)
                        == variable(n0, x),
            decreases targets.len() - i,
        {
            let ghost names = self.names@;
            proof {
                lemma_allocate(names, ts[i as int]);
            }
            let target_var = self.get_or_create_var(&targets[i]);
            let mut clause: Vec<i32> = Vec::new();
            clause.push(-feature_var);
            clause.push(
                if present {
                    target_var
                } else {
                    -target_var
                },
            );
            let ghost sym: Seq<Sym> = seq![(id, false), (ts[i as int], present)];
            assert(clause@ =~= numbered_clause(self.names@, sym));
            self.add_clause(clause, Ghost(sym));
            proof {
                assert(ts.take(i + 1) =~= ts.take(i as int).push(ts[i as int]));
                assert(edge_clauses(id, ts, present).take(i + 1) =~= edge_clauses(
                    id,
                    ts,
                    present,
                ).take(i as int).push(sym));
                assert(self.mentions@ =~= m0 + ts.take(i + 1));
                assert(self.syms@ =~= s0 + edge_clauses(id, ts, present).take(i + 1));
            }
            i = i + 1;
        }
        proof {
            assert(ts.take(targets@.len() as int) =~= ts);
            assert(edge_clauses(id, ts, present).take(targets@.len() as int) =~= edge_clauses(
                id,
                ts,
                present,
            ));
        }
    }

    /// Writes the clauses of the group that the children of the feature at `k` form.
    fn encode_group(&mut self, registry: &Registry, k: usize, feature_var: i32)
        requires
            old(self).wf(),
            is_feature(registry@, k as int),
            old(self).names@.contains(feature(registry@, k as int).id@),
            feature_var == variable(old(self).names@, feature(registry@, k as int).id@),
            old(self).mentions@.len() + group_mentions(registry@, k as int).len() <= MENTION_LIMIT,
        ensures
            final(self).wf(),
            final(self).mentions@ == old(self).mentions@ + group_mentions(registry@, k as int),
            final(self).syms@ == old(self).syms@ + group_clauses(registry@, k as int),
    {
        let ghost es = registry@;
        let ghost m0 = self.mentions@;
        let ghost s0 = self.syms@;
        let f = feature_at(registry, k);
        let ghost id = f.id@;
        let ghost ch = children(es, id, es.len() as int);
        let kind = match f.group_type() {
            Some(kind) => kind,
            None => {
                assert(self.mentions@ =~= m0 + group_mentions(es, k as int));
                assert(self.syms@ =~= s0 + group_clauses(es, k as int));
                return ;
            },
        };
        let kids = collect_children(registry, &f.id);
        if kids.len() == 0 {
            assert(self.mentions@ =~= m0 + group_mentions(es, k as int));
            assert(self.syms@ =~= s0 + group_clauses(es, k as int));
            return ;
        }
        assert(group_mentions(es, k as int) == ch);
        let mut clause: Vec<i32> = Vec::new();
        clause.push(-feature_var);
        let mut child_vars: Vec<i32> = Vec::new();
        let mut t: usize = 0;
        while t < kids.len()
            invariant
                t <= kids.len(),
                self.wf(),
                es == registry@,
                kids@.len() == ch.len(),
                forall|u: int|
                    0 <= u < kids@.len() ==> is_feature(es, (#[trigger] kids@[u]) as int) && feature(
                        es,
                        kids@[u] as int,
                    ).id@ == ch[u],
                m0.len() + ch.len() <= MENTION_LIMIT,
                self.mentions@ == m0 + ch.take(t as int),
                self.syms@ == s0,
                self.names@.contains(id),
                feature_var == variable(self.names@, id),
                child_vars@.len() == t,
                clause@.len() == t + 1,
                clause@[0] == -feature_var,
                forall|u: int| 0 <= u < t ==> (#[trigger] clause@[u + 1]) == child_vars@[u],
                forall|u: int|
                    0 <= u < t ==> self.names@.contains(#[trigger] ch[u]) && child_vars@[u]
                        == variable(self.names@, ch[u]),
            decreases kids.len() - t,
        {
            let ghost names = self.names@;
            proof {
                lemma_allocate(names, ch[t as int]);
            }
            let child = feature_at(registry, kids[t]);
            let child_var = self.get_or_create_var(&child.id);
            clause.push(child_var);
            child_vars.push(child_var);
            proof {
                assert(ch.take(t + 1) =~= ch.take(t as int).push(ch[t as int]));
                assert(self.mentions@ =~= m0 + ch.take(t + 1));
                assert forall|u: int| 0 <= u < t + 1 implies self.names@.contains(#[trigger] ch[u])
                    && child_vars@[u] == variable(self.names@, ch[u]) by {
                    if u < t {
                        assert(names.contains(ch[u]));
                    }
                }
            }
            t = t + 1;
        }
        proof {
            assert(ch.take(kids@.len() as int) =~= ch);
        }
        let ghost first: Seq<Sym> = at_least_one(id, ch);
        assert(clause@ =~= numbered_clause(self.names@, first)) by {
            assert forall|j: int| 0 <= j < clause@.len() implies clause@[j] == numbered_lit(
                self.names@,
                first[j],
            ) as i32 by {
                if j > 0 {
                    assert(clause@[(j - 1) + 1] == child_vars@[j - 1]);
                    assert(self.names@.contains(ch[j - 1]));
                }
            }
        }
        assert(clause_covered(self.names@, first)) by {
            assert forall|j: int| 0 <= j < first.len() implies self.names@.contains(
                (#[trigger] first[j]).0,
            ) by {
                if j > 0 {
                    assert(self.names@.contains(ch[j - 1]));
                }
            }
        }
        self.add_clause(clause, Ghost(first));
        match kind {
            VariabilityGroup::Or => {
                assert(self.syms@ =~= s0 + group_clauses(es, k as int));
            },
            VariabilityGroup::Xor => {
                let ghost s1 = self.syms@;
                let n = child_vars.len();
                let mut i: usize = 0;
                while i < n
                    invariant
                        i <= n,
                        n == ch.len(),
                        child_vars@.len() == n,
                        self.wf(),
                        self.mentions@ == m0 + ch,
                        self.syms@ == s1 + pair_rows(ch, i as int),
                        forall|u: int|
                            0 <= u < n ==> self.names@.contains(#[trigger] ch[u]) && child_vars@[u]
                                == variable(self.names@, ch[u]),
                    decreases n - i,
                {
                    let ghost si = self.syms@;
                    let mut j: usize = i + 1;
                    while j < n
                        invariant
                            i < n,
                            i + 1 <= j <= n,
                            n == ch.len(),
                            child_vars@.len() == n,
                            self.wf(),
                            self.mentions@ == m0 + ch,
                            self.syms@ == si + pair_row(ch, i as int, j as int),
                            forall|u: int|
                                0 <= u < n ==> self.names@.contains(#[trigger] ch[u])
                                    && child_vars@[u] == variable(self.names@, ch[u]),
                        decreases n - j,
                    {
                        let mut pair: Vec<i32> = Vec::new();
                        pair.push(-child_vars[i]);
                        pair.push(-child_vars[j]);
                        let ghost sym: Seq<Sym> = seq![(ch[i as int], false), (ch[j as int], false)];
                        proof {
                            assert(self.names@.contains(ch[i as int]));
                            assert(self.names@.contains(ch[j as int]));
                            assert(pair@ =~= numbered_clause(self.names@, sym));
                        }
                        self.add_clause(pair, Ghost(sym));
                        proof {
                            assert(pair_row(ch, i as int, j + 1) =~= pair_row(
                                ch,
                                i as int,
                                j as int,
                            ).push(sym));
                            assert(self.syms@ =~= si + pair_row(ch, i as int, j + 1));
                        }
                        j = j + 1;
                    }
                    proof {
                        assert(pair_row(ch, i as int, i + 1) =~= Seq::<Seq<Sym>>::empty());
                        assert(self.syms@ =~= s1 + pair_rows(ch, i + 1));
                    }
                    i = i + 1;
                }
                assert(self.syms@ =~= s0 + group_clauses(es, k as int));
            },
        }
    }

    /// Writes the clauses of the feature at `k`; `parent_var` is the variable
    /// of the feature above it, where it is encoded under one.
    fn encode_feature(
        &mut self,
        registry: &Registry,
        k: usize,
        parent_var: Option<i32>,
        Ghost(link): Ghost<Option<Seq<char>>>,
    )
        requires
            old(self).wf(),
            is_feature(registry@, k as int),
            link matches Some(p) ==> old(self).names@.contains(p) && parent_var == Some(
                variable(old(self).names@, p) as i32,
            ),
            link is None ==> parent_var is None,
            old(self).mentions@.len() + own_mentions(registry@, k as int).len() <= MENTION_LIMIT,
        ensures
            final(self).wf(),
            final(self).mentions@ == old(self).mentions@ + own_mentions(registry@, k as int),
            final(self).syms@ == old(self).syms@ + feature_clauses(registry@, k as int, link),
    {
        let ghost es = registry@;
        let ghost m0 = self.mentions@;
        let ghost s0 = self.syms@;
        let f = feature_at(registry, k);
        let ghost id = f.id@;
        let ghost n0 = self.names@;
        proof {
            lemma_allocate(n0, id);
        }
        let feature_var = self.get_or_create_var(&f.id);
        match parent_var {
            None => {
                let mut unit: Vec<i32> = Vec::new();
                unit.push(feature_var);
                let ghost sym: Seq<Sym> = seq![(id, true)];
                assert(unit@ =~= numbered_clause(self.names@, sym));
                self.add_clause(unit, Ghost(sym));
            },
            Some(parent) => {
                let ghost p = link->0;
                assert(self.names@.contains(p) && parent == variable(self.names@, p));
                let mut down: Vec<i32> = Vec::new();
                down.push(-feature_var);
                down.push(parent);
                let ghost sym1: Seq<Sym> = seq![(id, false), (p, true)];
                assert(down@ =~= numbered_clause(self.names@, sym1));
                if is_mandatory(registry, k) {
                    self.add_clause(down, Ghost(sym1));
                    let mut up: Vec<i32> = Vec::new();
                    up.push(-parent);
                    up.push(feature_var);
                    let ghost sym2: Seq<Sym> = seq![(p, false), (id, true)];
                    assert(up@ =~= numbered_clause(self.names@, sym2));
                    self.add_clause(up, Ghost(sym2));
                } else {
                    self.add_clause(down, Ghost(sym1));
                }
            },
        }
        assert(self.syms@ =~= s0 + hierarchy_clauses(es, k as int, link));
        assert(self.mentions@ =~= m0 + seq![id]);
        let requires_key = "requires".to_owned();
        let required: Vec<String> = match get(&f.tags, &requires_key) {
            Some(v) => parse_string_or_array(v),
            None => Vec::new(),
        };
        assert(text_list(required@) =~= requires_of(*f));
        let excludes_key = "excludes".to_owned();
        let excluded: Vec<String> = match get(&f.tags, &excludes_key) {
            Some(v) => parse_string_or_array(v),
            None => Vec::new(),
        };
        assert(text_list(excluded@) =~= excludes_of(*f));
        proof {
            assert(own_mentions(es, k as int).len() == 1 + requires_of(*f).len() + excludes_of(
                *f,
            ).len() + group_mentions(es, k as int).len());
        }
        self.encode_edges(feature_var, Ghost(id), &required, true);
        self.encode_edges(feature_var, Ghost(id), &excluded, false);
        self.encode_group(registry, k, feature_var);
        proof {
            assert(self.mentions@ =~= m0 + own_mentions(es, k as int));
            assert(self.syms@ =~= s0 + feature_clauses(es, k as int, link));
        }
    }

    /// Writes the clauses of the whole model: those of the root, then those of
    /// every other feature in the order of the registry. Nothing is written
    /// where the root is not a feature of the registry.
    fn encode(&mut self, registry: &Registry, root_id: &String)
        requires
            old(self).wf(),
            old(self).mentions@.len() + encoding_mentions(registry@, root_id@).len()
                <= MENTION_LIMIT,
        ensures
            final(self).wf(),
            final(self).mentions@ == old(self).mentions@ + encoding_mentions(registry@, root_id@),
            final(self).syms@ == old(self).syms@ + encoding(registry@, root_id@),
    {
        let ghost es = registry@;
        let ghost root = root_id@;
        let ghost m0 = self.mentions@;
        let ghost s0 = self.syms@;
        let r = match find_feature(registry, root_id) {
            Some(r) => r,
            None => {
                assert(self.mentions@ =~= m0 + encoding_mentions(es, root));
                assert(self.syms@ =~= s0 + encoding(es, root));
                return ;
            },
        };
        proof {
            lemma_model_mentions_grow(es, root, 0, es.len() as int);
        }
        self.encode_feature(registry, r, None, Ghost(None));
        let mut k: usize = 0;
        while k < registry.len()
            invariant
                k <= registry@.len(),
                es == registry@,
                root == root_id@,
                self.wf(),
                feature_index(es, root) is Some,
                m0.len() + model_mentions(es, root, es.len() as int).len() <= MENTION_LIMIT,
                self.mentions@ == m0 + model_mentions(es, root, k as int),
                self.syms@ == s0 + model_clauses(es, root, k as int),
            decreases registry@.len() - k,
        {
            let mut plain = false;
            if let Element::Feature(f) = &registry.entry(k).value {
                if f.id != *root_id {
                    plain = true;
                }
            }
            assert(plain == is_plain(es, k as int, root));
            if plain {
                proof {
                    lemma_model_mentions_grow(es, root, k + 1, es.len() as int);
                }
                let f = feature_at(registry, k);
                let ghost mk = self.mentions@;
                let parent_var = match &f.parent {
                    Some(pid) => Some(self.get_or_create_var(pid)),
                    None => None,
                };
                self.encode_feature(registry, k, parent_var, Ghost(parent_of(es, k as int)));
                proof {
                    assert(self.mentions@ =~= mk + plain_mentions(es, k as int));
                    assert(self.mentions@ =~= m0 + model_mentions(es, root, k + 1));
                    assert(self.syms@ =~= s0 + model_clauses(es, root, k + 1));
                }
            }
            k = k + 1;
        }
    }

    /// Writes a unit clause for each selected feature.
    fn encode_selection(&mut self, selected: &[String])
        requires
            old(self).wf(),
            old(self).mentions@.len() + selected@.len() <= MENTION_LIMIT,
        ensures
            final(self).wf(),
            final(self).syms@ == old(self).syms@ + selection_clauses(selected@),
    {
        let ghost base = self.syms@;
        let ghost units = selection_clauses(selected@);
        let mut i: usize = 0;
        while i < selected.len()
            invariant
                i <= selected.len(),
                self.wf(),
                units == selection_clauses(selected@),
                self.mentions@.len() + (selected@.len() - i) <= MENTION_LIMIT,
                self.syms@ == base + units.take(i as int),
            decreases selected.len() - i,
        {
            let var = self.get_or_create_var(&selected[i]);
            let mut unit: Vec<i32> = Vec::new();
            unit.push(var);
            let ghost sym: Seq<Sym> = seq![(selected@[i as int]@, true)];
            assert(unit@ =~= numbered_clause(self.names@, sym));
            self.add_clause(unit, Ghost(sym));
            proof {
                assert(units.take(i + 1) =~= units.take(i as int).push(sym));
                assert(self.syms@ =~= base + units.take(i + 1));
            }
            i = i + 1;
        }
        proof {
            assert(units.take(selected@.len() as int) =~= units);
        }
    }

    /// The formula and the number of its variables.
    fn finalize(self) -> (r: (CNF, usize))
        requires
            self.wf(),
        ensures
            cnf_view(r.0@) == numbered(self.names@, self.syms@),
            r.1 == self.names@.len(),
            r.1 <= i32::MAX,
            r.0@.len() == self.syms@.len(),
    {
        assert(cnf_view(self.clauses@).len() == self.clauses@.len());
        let num_vars = (self.next_var - 1) as usize;
        (self.clauses, num_vars)
    }
}

/// The counts that a verdict on a model reports.
pub open spec fn counts_text(features: nat, variables: nat, clauses: nat) -> Seq<char> {
    decimal_text(features) + " features, "@ + decimal_text(variables) + " variables, "@
        + decimal_text(clauses) + " clauses)"@
}

/// The message that goes with a verdict on a model that was encoded.
pub open spec fn verdict_text(consistent: bool, features: nat, variables: nat, clauses: nat) -> Seq<
    char,
> {
    if consistent {
        "Feature model is CONSISTENT ("@ + counts_text(features, variables, clauses)
    } else {
        "Feature model is INCONSISTENT - no valid configuration exists ("@ + counts_text(
            features,
            variables,
            clauses,
        )
    }
}

/// The number of clauses that a check of the model reports.
pub open spec fn reported_clauses(es: Seq<Entry<Element>>, root: Seq<char>) -> nat {
    if count_features(es, es.len() as int) == 0 {
        0
    } else {
        encoding(es, root).len()
    }
}

/// The message that a check of the model reports.
pub open spec fn model_message(es: Seq<Entry<Element>>, root: Seq<char>) -> Seq<char> {
    if count_features(es, es.len() as int) == 0 {
        "No features to validate"@
    } else if feature_index(es, root) is None {
        "Root feature '"@ + root + "' not found in registry"@
    } else {
        verdict_text(
            model_consistent(es, root),
            count_features(es, es.len() as int),
            variable_count(es, root),
            encoding(es, root).len(),
        )
    }
}

/// The message that a check of a configuration reports, for the number of
/// features that it selects, each counted once.
pub open spec fn configuration_message(valid: bool, selected: nat) -> Seq<char> {
    if valid {
        "Configuration is VALID ("@ + decimal_text(selected) + " features selected)"@
    } else {
        "Configuration is INVALID - violates feature model constraints ("@ + decimal_text(selected)
            + " features selected)"@
    }
}

fn verdict_message(consistent: bool, features: usize, variables: usize, clauses: usize) -> (s: String)
    ensures
        s@ == verdict_text(consistent, features as nat, variables as nat, clauses as nat),
{
    let mut s = if consistent {
        "Feature model is CONSISTENT (".to_owned()
    } else {
        "Feature model is INCONSISTENT - no valid configuration exists (".to_owned()
    };
    let ghost head = s@;
    s.append(decimal(features as u64).as_str());
    s.append(" features, ");
    s.append(decimal(variables as u64).as_str());
    s.append(" variables, ");
    s.append(decimal(clauses as u64).as_str());
    s.append(" clauses)");
    assert(s@ =~= head + counts_text(features as nat, variables as nat, clauses as nat));
    s
}

/// Decides whether the feature model has a valid configuration.
///
/// A registry without features is consistent. Otherwise the root must be one
/// of its features, and the model is consistent exactly when some selection
/// of features meets every clause of its encoding.
pub fn validate_feature_model(registry: &Registry, root_id: &str) -> (r: FeatureModelValidation)
    requires
        encoding_mentions(registry@, root_id@).len() <= MENTION_LIMIT,
    ensures
        r.is_consistent == model_consistent(registry@, root_id@),
        r.is_consistent == (count_features(registry@, registry@.len() as int) == 0 || (feature_index(
            registry@,
            root_id@,
        ) is Some && has_product(registry@, root_id@))),
        r.num_features == count_features(registry@, registry@.len() as int),
        r.num_clauses == reported_clauses(registry@, root_id@),
        r.message@ == model_message(registry@, root_id@),
{
    let ghost es = registry@;
    proof {
        lemma_consistency_meaning(es, root_id@);
    }
    let root = root_id.to_owned();
    let num_features = feature_count(registry);
    if num_features == 0 {
        return FeatureModelValidation {
            is_consistent: true,
            message: "No features to validate".to_owned(),
            num_features: 0,
            num_clauses: 0,
        };
    }
    if find_feature(registry, &root).is_none() {
        let mut message = "Root feature '".to_owned();
        message.append(root_id);
        message.append("' not found in registry");
        return FeatureModelValidation { is_consistent: false, message, num_features, num_clauses: 0 };
    }
    let mut encoder = CnfEncoder::new();
    encoder.encode(registry, &root);
    let ghost names = encoder.names@;
    let ghost syms = encoder.syms@;
    proof {
        assert(encoder.mentions@ =~= encoding_mentions(es, root@));
        assert(syms =~= encoding(es, root@));
        lemma_numbered_in_range(names, syms);
        lemma_numbering_faithful(names, syms);
    }
    let (cnf, num_vars) = encoder.finalize();
    let is_consistent = if cnf.len() == 0 {
        true
    } else {
        is_sat(&cnf, num_vars)
    };
    proof {
        if cnf.len() == 0 {
            assert(selection_ok(syms, Set::<Seq<char>>::empty()));
        }
    }
    let message = verdict_message(is_consistent, num_features, num_vars, cnf.len());
    FeatureModelValidation { is_consistent, message, num_features, num_clauses: cnf.len() }
}

/// Decides whether the selected features can stand together under the model.
///
/// The configuration is valid exactly when some selection of features holds
/// every selected feature and meets every clause of the model's encoding.
pub fn validate_configuration(registry: &Registry, root_id: &str, selected_features: &[String]) -> (r:
    (bool, String))
    requires
        encoding_mentions(registry@, root_id@).len() + selected_features@.len() <= MENTION_LIMIT,
    ensures
        r.0 == configuration_valid(registry@, root_id@, selected_features@),
        r.0 == has_product_with(registry@, root_id@, selected_features@),
        r.1@ == configuration_message(
            r.0,
            distinct_names(selected_features@, selected_features@.len() as int).len(),
        ),
{
    let ghost es = registry@;
    proof {
        lemma_validity_meaning(es, root_id@, selected_features@);
    }
    let root = root_id.to_owned();
    let mut encoder = CnfEncoder::new();
    encoder.encode(registry, &root);
    proof {
        assert(encoder.mentions@ =~= encoding_mentions(es, root@));
        assert(encoder.syms@ =~= encoding(es, root@));
    }
    encoder.encode_selection(selected_features);
    let ghost names = encoder.names@;
    let ghost syms = encoder.syms@;
    proof {
        lemma_numbered_in_range(names, syms);
        lemma_numbering_faithful(names, syms);
        lemma_configuration_valid(es, root@, selected_features@);
    }
    let (cnf, num_vars) = encoder.finalize();
    let is_valid = is_sat(&cnf, num_vars);
    let mut message = if is_valid {
        "Configuration is VALID (".to_owned()
    } else {
        "Configuration is INVALID - violates feature model constraints (".to_owned()
    };
    let chosen = distinct(selected_features);
    assert(text_list(chosen@).len() == chosen@.len());
    message.append(decimal(chosen.len() as u64).as_str());
    message.append(" features selected)");
    (is_valid, message)
}

/// The number of identifiers that the clauses of the feature at `k` bring
/// in, where it is within the limit.
fn own_mention_count(registry: &Registry, k: usize) -> (n: Option<usize>)
    requires
        is_feature(registry@, k as int),
    ensures
        match n {
            Some(c) => c == own_mentions(registry@, k as int).len() && c <= MENTION_LIMIT,
            None => own_mentions(registry@, k as int).len() > MENTION_LIMIT,
        },
{
    let f = feature_at(registry, k);
    let requires_key = "requires".to_owned();
    let required: usize = match get(&f.tags, &requires_key) {
        Some(v) => parse_string_or_array(v).len(),
        None => 0,
    };
    let excludes_key = "excludes".to_owned();
    let excluded: usize = match get(&f.tags, &excludes_key) {
        Some(v) => parse_string_or_array(v).len(),
        None => 0,
    };
    let grouped: usize = if f.group_type().is_some() {
        collect_children(registry, &f.id).len()
    } else {
        0
    };
    let total: u128 = 1 + required as u128 + excluded as u128 + grouped as u128;
    if total > MENTION_LIMIT as u128 {
        None
    } else {
        Some(total as usize)
    }
}

/// Whether the encoding of the model, with `extra` identifiers more, stays
/// within the limit on the number of identifiers that an encoding may bring in.
pub fn encoding_fits(registry: &Registry, root_id: &str, extra: usize) -> (ok: bool)
    ensures
        ok == (encoding_mentions(registry@, root_id@).len() + extra <= MENTION_LIMIT),
{
    let ghost es = registry@;
    let root = root_id.to_owned();
    let ghost rt = root@;
    let r = match find_feature(registry, &root) {
        Some(r) => r,
        None => {
            return extra <= MENTION_LIMIT;
        },
    };
    proof {
        lemma_model_mentions_grow(es, rt, 0, es.len() as int);
    }
    let mut total: usize = match own_mention_count(registry, r) {
        Some(c) => c,
        None => {
            return false;
        },
    };
    let mut k: usize = 0;
    while k < registry.len()
        invariant
            k <= registry@.len(),
            es == registry@,
            rt == root@,
            rt == root_id@,
            feature_index(es, rt) is Some,
            total == model_mentions(es, rt, k as int).len(),
            total <= MENTION_LIMIT,
        decreases registry@.len() - k,
    {
        let mut plain = false;
        if let Element::Feature(f) = &registry.entry(k).value {
            if f.id != root {
                plain = true;
            }
        }
        assert(plain == is_plain(es, k as int, rt));
        if plain {
            proof {
                lemma_model_mentions_grow(es, rt, k + 1, es.len() as int);
            }
            let f = feature_at(registry, k);
            let linked: usize = if f.parent.is_some() {
                1
            } else {
                0
            };
            assert(plain_mentions(es, k as int).len() == own_mentions(es, k as int).len() + linked);
            assert(model_mentions(es, rt, k + 1).len() == total + plain_mentions(es, k as int).len());
            match own_mention_count(registry, k) {
                Some(c) => {
                    if c + linked > MENTION_LIMIT - total {
                        return false;
                    }
                    total = total + c + linked;
                },
                None => {
                    return false;
                },
            }
        }
        k = k + 1;
    }
    extra <= MENTION_LIMIT - total
}

} // verus!
