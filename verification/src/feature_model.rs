//! The meaning of a feature model as clauses over feature identifiers.
//!
//! A clause is a disjunction of signed identifiers: `(id, true)` says that the
//! feature is selected, `(id, false)` that it is not. The model's clauses are
//! stated here in that form, apart from any numbering of variables; a
//! numbering is fixed afterwards by the order in which identifiers are first
//! met, and the numbered formula is shown to be satisfiable exactly when some
//! selection of features meets every clause.

use crate::sat_model::{clause_holds, formula_holds, formula_ok, lit_holds, lit_ok, satisfiable};
use crate::types::element::Element;
use crate::types::entry::{value_at, Entry};
use crate::types::feature::{group_of, FeatureElement, VariabilityGroup};
use crate::types::json::{names_in, JsonValue};
use vstd::prelude::*;

verus! {

/// A signed feature identifier.
pub type Sym = (Seq<char>, bool);

/// The greatest number of identifier mentions that an encoding may hold, so
/// that every variable fits a literal.
pub const MENTION_LIMIT: usize = 2147483646;

/// The entry at `k` is a feature.
pub open spec fn is_feature(es: Seq<Entry<Element>>, k: int) -> bool {
    0 <= k < es.len() && es[k].value is Feature
}

/// The feature at `k`.
pub open spec fn feature(es: Seq<Entry<Element>>, k: int) -> FeatureElement {
    es[k].value->Feature_0
}

/// The entry at `k` is a feature with the identifier `id`.
pub open spec fn feature_named(es: Seq<Entry<Element>>, k: int, id: Seq<char>) -> bool {
    is_feature(es, k) && feature(es, k).id@ == id
}

/// `k` is the first entry that is a feature with the identifier `id`.
pub open spec fn is_feature_index(es: Seq<Entry<Element>>, id: Seq<char>, k: int) -> bool {
    &&& feature_named(es, k, id)
    &&& forall|j: int| 0 <= j < k ==> !#[trigger] feature_named(es, j, id)
}

/// The first entry that is a feature with the identifier `id`, if there is one.
pub open spec fn feature_index(es: Seq<Entry<Element>>, id: Seq<char>) -> Option<int> {
    if exists|k: int| is_feature_index(es, id, k) {
        Some(choose|k: int| is_feature_index(es, id, k))
    } else {
        None
    }
}

/// The number of features among the first `upto` entries.
pub open spec fn count_features(es: Seq<Entry<Element>>, upto: int) -> nat
    decreases upto,
{
    if upto <= 0 {
        0
    } else {
        count_features(es, upto - 1) + if is_feature(es, upto - 1) {
            1nat
        } else {
            0nat
        }
    }
}

/// The entry at `k` is a feature whose parent is `pid`.
pub open spec fn is_child(es: Seq<Entry<Element>>, k: int, pid: Seq<char>) -> bool {
    &&& is_feature(es, k)
    &&& feature(es, k).parent matches Some(p)
    &&& p@ == pid
}

/// The identifiers of the children of `pid` among the first `upto` entries,
/// in the order of the registry.
pub open spec fn children(es: Seq<Entry<Element>>, pid: Seq<char>, upto: int) -> Seq<Seq<char>>
    decreases upto,
{
    if upto <= 0 {
        Seq::empty()
    } else if is_child(es, upto - 1, pid) {
        children(es, pid, upto - 1).push(feature(es, upto - 1).id@)
    } else {
        children(es, pid, upto - 1)
    }
}

/// The identifiers that the tag `key` names.
pub open spec fn tag_names(tags: Seq<Entry<JsonValue>>, key: Seq<char>) -> Seq<Seq<char>> {
    match value_at(tags, key) {
        Some(v) => names_in(v),
        None => Seq::empty(),
    }
}

/// The features that `f` requires.
pub open spec fn requires_of(f: FeatureElement) -> Seq<Seq<char>> {
    tag_names(f.tags@, "requires"@)
}

/// The features that `f` excludes.
pub open spec fn excludes_of(f: FeatureElement) -> Seq<Seq<char>> {
    tag_names(f.tags@, "excludes"@)
}

/// The feature carries the tag `mandatory` with the value `true`.
pub open spec fn marked_mandatory(f: FeatureElement) -> bool {
    value_at(f.tags@, "mandatory"@) == Some(JsonValue::Bool(true))
}

/// A feature is mandatory when it is marked so, or when its parent is a
/// feature without a group of which it is the only child.
pub open spec fn mandatory(es: Seq<Entry<Element>>, k: int) -> bool {
    let f = feature(es, k);
    marked_mandatory(f) || match f.parent {
        Some(p) => match feature_index(es, p@) {
            Some(pi) => feature(es, pi).group is None && children(es, p@, es.len() as int).len()
                == 1,
            None => false,
        },
        None => false,
    }
}

/// The clauses that tie a feature to the feature above it: a feature without
/// one is selected; a child implies its parent, and a mandatory child is
/// implied by it.
pub open spec fn hierarchy_clauses(es: Seq<Entry<Element>>, k: int, link: Option<Seq<char>>) -> Seq<
    Seq<Sym>,
> {
    let id = feature(es, k).id@;
    match link {
        None => seq![seq![(id, true)]],
        Some(p) => if mandatory(es, k) {
            seq![seq![(id, false), (p, true)], seq![(p, false), (id, true)]]
        } else {
            seq![seq![(id, false), (p, true)]]
        },
    }
}

/// One clause for each target: `id` implies the target, or its absence.
pub open spec fn edge_clauses(id: Seq<char>, targets: Seq<Seq<char>>, present: bool) -> Seq<Seq<Sym>> {
    Seq::new(targets.len(), |i: int| seq![(id, false), (targets[i], present)])
}

/// The parent implies that some child is selected.
pub open spec fn at_least_one(id: Seq<char>, ch: Seq<Seq<char>>) -> Seq<Sym> {
    seq![(id, false)] + Seq::new(ch.len(), |i: int| (ch[i], true))
}

/// The exclusions of child `i` against the children `i + 1 .. upto`.
pub open spec fn pair_row(ch: Seq<Seq<char>>, i: int, upto: int) -> Seq<Seq<Sym>> {
    Seq::new(
        if upto > i + 1 {
            (upto - i - 1) as nat
        } else {
            0nat
        },
        |t: int| seq![(ch[i], false), (ch[i + 1 + t], false)],
    )
}

/// The pairwise exclusions of the children `0 .. rows` against all later ones.
pub open spec fn pair_rows(ch: Seq<Seq<char>>, rows: int) -> Seq<Seq<Sym>>
    decreases rows,
{
    if rows <= 0 {
        Seq::empty()
    } else {
        pair_rows(ch, rows - 1) + pair_row(ch, rows - 1, ch.len() as int)
    }
}

/// The clauses of the group that the children of `k` form.
pub open spec fn group_clauses(es: Seq<Entry<Element>>, k: int) -> Seq<Seq<Sym>> {
    let f = feature(es, k);
    let ch = children(es, f.id@, es.len() as int);
    if ch.len() == 0 {
        Seq::empty()
    } else {
        match group_of(f.group) {
            Some(VariabilityGroup::Or) => seq![at_least_one(f.id@, ch)],
            Some(VariabilityGroup::Xor) => seq![at_least_one(f.id@, ch)] + pair_rows(
                ch,
                ch.len() as int,
            ),
            None => Seq::empty(),
        }
    }
}

/// The identifiers that the group of `k` brings in: its children, where it has a group.
pub open spec fn group_mentions(es: Seq<Entry<Element>>, k: int) -> Seq<Seq<char>> {
    let f = feature(es, k);
    let ch = children(es, f.id@, es.len() as int);
    if ch.len() > 0 && group_of(f.group) is Some {
        ch
    } else {
        Seq::empty()
    }
}

/// All clauses of the feature at `k`, given the feature above it.
pub open spec fn feature_clauses(es: Seq<Entry<Element>>, k: int, link: Option<Seq<char>>) -> Seq<
    Seq<Sym>,
> {
    let f = feature(es, k);
    hierarchy_clauses(es, k, link) + edge_clauses(f.id@, requires_of(f), true) + edge_clauses(
        f.id@,
        excludes_of(f),
        false,
    ) + group_clauses(es, k)
}

/// The identifiers that the feature's own clauses bring in, in the order in
/// which they are met: itself, what it requires, what it excludes, its group.
pub open spec fn own_mentions(es: Seq<Entry<Element>>, k: int) -> Seq<Seq<char>> {
    let f = feature(es, k);
    seq![f.id@] + requires_of(f) + excludes_of(f) + group_mentions(es, k)
}

/// The parent of the feature at `k`, if it has one.
pub open spec fn parent_of(es: Seq<Entry<Element>>, k: int) -> Option<Seq<char>> {
    match feature(es, k).parent {
        Some(p) => Some(p@),
        None => None,
    }
}

/// The identifiers that the feature at `k` brings in when it is not the root.
pub open spec fn plain_mentions(es: Seq<Entry<Element>>, k: int) -> Seq<Seq<char>> {
    match parent_of(es, k) {
        Some(p) => seq![p] + own_mentions(es, k),
        None => own_mentions(es, k),
    }
}

/// The entry at `k` is a feature other than the root.
pub open spec fn is_plain(es: Seq<Entry<Element>>, k: int, root: Seq<char>) -> bool {
    is_feature(es, k) && feature(es, k).id@ != root
}

/// The clauses of the root and of the other features among the first `upto` entries.
pub open spec fn model_clauses(es: Seq<Entry<Element>>, root: Seq<char>, upto: int) -> Seq<Seq<Sym>>
    decreases upto,
{
    if upto <= 0 {
        feature_clauses(es, feature_index(es, root)->0, None)
    } else if is_plain(es, upto - 1, root) {
        model_clauses(es, root, upto - 1) + feature_clauses(es, upto - 1, parent_of(es, upto - 1))
    } else {
        model_clauses(es, root, upto - 1)
    }
}

/// The identifiers met while the root and the first `upto` entries are encoded.
pub open spec fn model_mentions(es: Seq<Entry<Element>>, root: Seq<char>, upto: int) -> Seq<
    Seq<char>,
>
    decreases upto,
{
    if upto <= 0 {
        own_mentions(es, feature_index(es, root)->0)
    } else if is_plain(es, upto - 1, root) {
        model_mentions(es, root, upto - 1) + plain_mentions(es, upto - 1)
    } else {
        model_mentions(es, root, upto - 1)
    }
}

/// The clauses of the whole model; none where the root is not a feature of the registry.
pub open spec fn encoding(es: Seq<Entry<Element>>, root: Seq<char>) -> Seq<Seq<Sym>> {
    if feature_index(es, root) is Some {
        model_clauses(es, root, es.len() as int)
    } else {
        Seq::empty()
    }
}

/// The identifiers met while the whole model is encoded.
pub open spec fn encoding_mentions(es: Seq<Entry<Element>>, root: Seq<char>) -> Seq<Seq<char>> {
    if feature_index(es, root) is Some {
        model_mentions(es, root, es.len() as int)
    } else {
        Seq::empty()
    }
}

/// One unit clause for each selected feature.
pub open spec fn selection_clauses(selected: Seq<String>) -> Seq<Seq<Sym>> {
    Seq::new(selected.len(), |i: int| seq![(selected[i]@, true)])
}

/// The list of names after `id` has been met: a new identifier goes to the end.
pub open spec fn allocate(names: Seq<Seq<char>>, id: Seq<char>) -> Seq<Seq<char>> {
    if names.contains(id) {
        names
    } else {
        names.push(id)
    }
}

/// The list of names after each of `ids` has been met in turn.
pub open spec fn allocate_all(names: Seq<Seq<char>>, ids: Seq<Seq<char>>) -> Seq<Seq<char>>
    decreases ids.len(),
{
    if ids.len() == 0 {
        names
    } else {
        allocate(allocate_all(names, ids.drop_last()), ids.last())
    }
}

/// The variable of an identifier: its place in the list of names, counted from 1.
pub open spec fn variable(names: Seq<Seq<char>>, id: Seq<char>) -> int {
    names.index_of(id) + 1
}

/// The literal of a signed identifier.
pub open spec fn numbered_lit(names: Seq<Seq<char>>, s: Sym) -> int {
    if s.1 {
        variable(names, s.0)
    } else {
        -variable(names, s.0)
    }
}

/// The clause over variables that a clause over identifiers becomes.
pub open spec fn numbered_clause(names: Seq<Seq<char>>, c: Seq<Sym>) -> Seq<i32> {
    Seq::new(c.len(), |j: int| numbered_lit(names, c[j]) as i32)
}

/// The formula over variables that a list of clauses over identifiers becomes.
pub open spec fn numbered(names: Seq<Seq<char>>, cs: Seq<Seq<Sym>>) -> Seq<Seq<i32>> {
    Seq::new(cs.len(), |i: int| numbered_clause(names, cs[i]))
}

/// Every identifier of the clause has a name.
pub open spec fn clause_covered(names: Seq<Seq<char>>, c: Seq<Sym>) -> bool {
    forall|j: int| 0 <= j < c.len() ==> names.contains((#[trigger] c[j]).0)
}

/// Every identifier of the clauses has a name.
pub open spec fn covered(names: Seq<Seq<char>>, cs: Seq<Seq<Sym>>) -> bool {
    forall|i: int| 0 <= i < cs.len() ==> clause_covered(names, #[trigger] cs[i])
}

/// A signed identifier holds of a selection of features.
pub open spec fn sym_holds(s: Sym, sel: Set<Seq<char>>) -> bool {
    sel.contains(s.0) == s.1
}

/// Some signed identifier of the clause holds.
pub open spec fn sym_clause_holds(c: Seq<Sym>, sel: Set<Seq<char>>) -> bool {
    exists|j: int| 0 <= j < c.len() && sym_holds(#[trigger] c[j], sel)
}

/// The selection meets every clause.
pub open spec fn selection_ok(cs: Seq<Seq<Sym>>, sel: Set<Seq<char>>) -> bool {
    forall|i: int| 0 <= i < cs.len() ==> sym_clause_holds(#[trigger] cs[i], sel)
}

/// Some selection of features meets every clause.
pub open spec fn selectable(cs: Seq<Seq<Sym>>) -> bool {
    exists|sel: Set<Seq<char>>| selection_ok(cs, sel)
}

/// The selection holds each of the listed features.
pub open spec fn selects_all(sel: Set<Seq<char>>, selected: Seq<String>) -> bool {
    forall|i: int| 0 <= i < selected.len() ==> sel.contains((#[trigger] selected[i])@)
}

/// A feature model is consistent when it has no feature, or when its root is
/// one of its features and some selection meets every clause of the model.
pub open spec fn model_consistent(es: Seq<Entry<Element>>, root: Seq<char>) -> bool {
    count_features(es, es.len() as int) == 0 || (feature_index(es, root) is Some && selectable(
        encoding(es, root),
    ))
}

/// A configuration is valid when some selection that holds every selected
/// feature meets every clause of the model.
pub open spec fn configuration_valid(
    es: Seq<Entry<Element>>,
    root: Seq<char>,
    selected: Seq<String>,
) -> bool {
    exists|sel: Set<Seq<char>>| #[trigger]
        selection_ok(encoding(es, root), sel) && selects_all(sel, selected)
}

/// The first entry that is a feature of the name is the one that the index
/// names.
pub proof fn lemma_feature_index_unique(es: Seq<Entry<Element>>, id: Seq<char>, k: int)
    requires
        is_feature_index(es, id, k),
    ensures
        feature_index(es, id) == Some(k),
{
    let c = choose|c: int| is_feature_index(es, id, c);
    if c < k {
        assert(!feature_named(es, c, id));
    }
    if k < c {
        assert(!feature_named(es, k, id));
    }
}

/// Where no entry is a feature of the name, there is no index.
pub proof fn lemma_feature_index_none(es: Seq<Entry<Element>>, id: Seq<char>)
    requires
        forall|j: int| 0 <= j < es.len() ==> !#[trigger] feature_named(es, j, id),
    ensures
        feature_index(es, id) is None,
{
    if exists|k: int| is_feature_index(es, id, k) {
        let c = choose|c: int| is_feature_index(es, id, c);
        assert(feature_named(es, c, id));
    }
}

/// In a list without repetitions an element has one place only.
pub proof fn lemma_index_of_unique(names: Seq<Seq<char>>, i: int)
    requires
        names.no_duplicates(),
        0 <= i < names.len(),
    ensures
        names.index_of(names[i]) == i,
        names.contains(names[i]),
{
    let j = names.index_of(names[i]);
    assert(0 <= j < names.len() && names[j] == names[i]);
}

/// Meeting an identifier keeps the list free of repetitions, keeps every
/// variable that was given, and gives the identifier one.
pub proof fn lemma_allocate(names: Seq<Seq<char>>, id: Seq<char>)
    requires
        names.no_duplicates(),
    ensures
        allocate(names, id).no_duplicates(),
        allocate(names, id).contains(id),
        names.len() <= allocate(names, id).len() <= names.len() + 1,
        1 <= variable(allocate(names, id), id) <= allocate(names, id).len(),
        !names.contains(id) ==> variable(allocate(names, id), id) == names.len() + 1,
        forall|x: Seq<char>| #[trigger]
            allocate(names, id).contains(x) ==> names.contains(x) || x == id,
        forall|x: Seq<char>| #[trigger]
            names.contains(x) ==> allocate(names, id).contains(x) && variable(
                allocate(names, id),
                x,
            ) == variable(names, x),
{
    let n2 = allocate(names, id);
    if names.contains(id) {
        let i = names.index_of(id);
        assert(0 <= i < names.len());
    } else {
        assert(n2[names.len() as int] == id);
        assert(n2.no_duplicates()) by {
            assert forall|i: int, j: int| 0 <= i < n2.len() && 0 <= j < n2.len() && i != j implies n2[i]
                != n2[j] by {
                if i == names.len() {
                    assert(names[j] == n2[j]);
                    assert(names.contains(names[j]));
                } else if j == names.len() {
                    assert(names[i] == n2[i]);
                    assert(names.contains(names[i]));
                } else {
                    assert(names[i] == n2[i] && names[j] == n2[j]);
                }
            }
        }
        lemma_index_of_unique(n2, names.len() as int);
        assert forall|x: Seq<char>| #[trigger] names.contains(x) implies n2.contains(x) && variable(
            n2,
            x,
        ) == variable(names, x) by {
            let i = names.index_of(x);
            assert(0 <= i < names.len() && names[i] == x);
            assert(n2[i] == x);
            lemma_index_of_unique(n2, i);
        }
    }
    assert(n2.contains(id));
    let t = n2.index_of(id);
    assert(0 <= t < n2.len());
}

/// A clause whose identifiers all have names keeps its literals when another
/// identifier is met.
pub proof fn lemma_numbered_clause_stable(names: Seq<Seq<char>>, id: Seq<char>, c: Seq<Sym>)
    requires
        names.no_duplicates(),
        clause_covered(names, c),
    ensures
        clause_covered(allocate(names, id), c),
        numbered_clause(allocate(names, id), c) == numbered_clause(names, c),
{
    lemma_allocate(names, id);
    let n2 = allocate(names, id);
    assert forall|j: int| 0 <= j < c.len() implies n2.contains((#[trigger] c[j]).0) && numbered_lit(
        n2,
        c[j],
    ) == numbered_lit(names, c[j]) by {
        assert(names.contains(c[j].0));
    }
    assert(numbered_clause(n2, c) =~= numbered_clause(names, c));
}

/// Clauses whose identifiers all have names keep their literals when another
/// identifier is met.
pub proof fn lemma_numbered_stable(names: Seq<Seq<char>>, id: Seq<char>, cs: Seq<Seq<Sym>>)
    requires
        names.no_duplicates(),
        covered(names, cs),
    ensures
        covered(allocate(names, id), cs),
        numbered(allocate(names, id), cs) == numbered(names, cs),
{
    let n2 = allocate(names, id);
    assert forall|i: int| 0 <= i < cs.len() implies clause_covered(n2, #[trigger] cs[i])
        && numbered_clause(n2, cs[i]) == numbered_clause(names, cs[i]) by {
        lemma_numbered_clause_stable(names, id, cs[i]);
    }
    assert(numbered(n2, cs) =~= numbered(names, cs));
}

/// The literals of a covered clause lie in range.
pub proof fn lemma_numbered_in_range(names: Seq<Seq<char>>, cs: Seq<Seq<Sym>>)
    requires
        names.len() <= i32::MAX,
        covered(names, cs),
    ensures
        formula_ok(numbered(names, cs), names.len() as int),
{
    let f = numbered(names, cs);
    assert forall|i: int, j: int| 0 <= i < f.len() && 0 <= j < f[i].len() implies lit_ok(
        #[trigger] f[i][j],
        names.len() as int,
    ) by {
        assert(clause_covered(names, cs[i]));
        let s = cs[i][j];
        assert(names.contains(s.0));
        let t = names.index_of(s.0);
        assert(0 <= t < names.len());
    }
}

/// The selection that a total assignment stands for.
pub open spec fn selection_of(names: Seq<Seq<char>>, m: Seq<bool>) -> Set<Seq<char>> {
    Set::new(|id: Seq<char>| names.contains(id) && m[variable(names, id)])
}

/// The total assignment that stands for a selection.
pub open spec fn assignment_of(names: Seq<Seq<char>>, sel: Set<Seq<char>>) -> Seq<bool> {
    Seq::new((names.len() + 1) as nat, |v: int| v >= 1 && sel.contains(names[v - 1]))
}

/// The numbered formula is satisfiable exactly when some selection of
/// features meets every clause over identifiers.
pub proof fn lemma_numbering_faithful(names: Seq<Seq<char>>, cs: Seq<Seq<Sym>>)
    requires
        names.len() <= i32::MAX,
        covered(names, cs),
    ensures
        satisfiable(numbered(names, cs), names.len() as int) <==> selectable(cs),
{
    let f = numbered(names, cs);
    let n = names.len() as int;
    assert forall|m: Seq<bool>| #[trigger] formula_holds(f, m) implies selection_ok(
        cs,
        selection_of(names, m),
    ) by {
        let sel = selection_of(names, m);
        assert forall|i: int| 0 <= i < cs.len() implies sym_clause_holds(#[trigger] cs[i], sel) by {
            assert(clause_holds(f[i], m));
            let j = choose|j: int| 0 <= j < f[i].len() && lit_holds(#[trigger] f[i][j], m);
            assert(clause_covered(names, cs[i]));
            let s = cs[i][j];
            assert(names.contains(s.0));
            let t = names.index_of(s.0);
            assert(0 <= t < names.len());
            assert(f[i][j] == numbered_lit(names, s) as i32);
            assert(sym_holds(cs[i][j], sel));
        }
    }
    assert forall|sel: Set<Seq<char>>| #[trigger] selection_ok(cs, sel) implies formula_holds(
        f,
        assignment_of(names, sel),
    ) by {
        let m = assignment_of(names, sel);
        assert forall|i: int| 0 <= i < f.len() implies clause_holds(#[trigger] f[i], m) by {
            assert(sym_clause_holds(cs[i], sel));
            let j = choose|j: int| 0 <= j < cs[i].len() && sym_holds(#[trigger] cs[i][j], sel);
            assert(clause_covered(names, cs[i]));
            let s = cs[i][j];
            assert(names.contains(s.0));
            let t = names.index_of(s.0);
            assert(0 <= t < names.len() && names[t] == s.0);
            assert(f[i][j] == numbered_lit(names, s) as i32);
            assert(m[t + 1] == sel.contains(s.0));
            assert(lit_holds(f[i][j], m));
        }
    }
    if satisfiable(f, n) {
        let m = choose|m: Seq<bool>| m.len() == n + 1 && #[trigger] formula_holds(f, m);
        assert(selection_ok(cs, selection_of(names, m)));
    }
    if selectable(cs) {
        let sel = choose|sel: Set<Seq<char>>| selection_ok(cs, sel);
        let m = assignment_of(names, sel);
        assert(m.len() == n + 1 && formula_holds(f, m));
    }
}

/// The mentions of the model grow with the number of entries taken in.
pub proof fn lemma_model_mentions_grow(es: Seq<Entry<Element>>, root: Seq<char>, i: int, j: int)
    requires
        i <= j,
    ensures
        model_mentions(es, root, i).len() <= model_mentions(es, root, j).len(),
    decreases j - i,
{
    if i < j {
        lemma_model_mentions_grow(es, root, i, j - 1);
        if j <= 0 {
        }
    }
}

/// The number of variables that the encoding of the model uses.
pub open spec fn variable_count(es: Seq<Entry<Element>>, root: Seq<char>) -> nat {
    allocate_all(Seq::empty(), encoding_mentions(es, root)).len()
}

/// A selection meets the model's clauses together with the unit clauses of a
/// list of selected features exactly when it meets the former and holds the latter.
pub proof fn lemma_selection_split(cs: Seq<Seq<Sym>>, selected: Seq<String>, sel: Set<Seq<char>>)
    ensures
        selection_ok(cs + selection_clauses(selected), sel) <==> selection_ok(cs, sel)
            && selects_all(sel, selected),
{
    let all = cs + selection_clauses(selected);
    if selection_ok(all, sel) {
        assert forall|i: int| 0 <= i < cs.len() implies sym_clause_holds(#[trigger] cs[i], sel) by {
            assert(all[i] == cs[i]);
        }
        assert forall|i: int| 0 <= i < selected.len() implies sel.contains(
            (#[trigger] selected[i])@,
        ) by {
            let c = all[cs.len() + i];
            assert(c == selection_clauses(selected)[i]);
            assert(sym_clause_holds(c, sel));
            let j = choose|j: int| 0 <= j < c.len() && sym_holds(#[trigger] c[j], sel);
            assert(c[j] == (selected[i]@, true));
        }
    }
    if selection_ok(cs, sel) && selects_all(sel, selected) {
        assert forall|i: int| 0 <= i < all.len() implies sym_clause_holds(#[trigger] all[i], sel) by {
            if i < cs.len() {
                assert(all[i] == cs[i]);
            } else {
                let t = i - cs.len();
                let c = all[i];
                assert(c == selection_clauses(selected)[t]);
                assert(sel.contains(selected[t]@));
                assert(sym_holds(c[0], sel));
            }
        }
    }
}

/// A configuration is valid exactly when the model's clauses together with
/// the unit clauses of its selected features can be met.
pub proof fn lemma_configuration_valid(es: Seq<Entry<Element>>, root: Seq<char>, selected: Seq<String>)
    ensures
        configuration_valid(es, root, selected) <==> selectable(
            encoding(es, root) + selection_clauses(selected),
        ),
{
    let cs = encoding(es, root);
    let all = cs + selection_clauses(selected);
    if configuration_valid(es, root, selected) {
        let sel = choose|sel: Set<Seq<char>>| #[trigger]
            selection_ok(cs, sel) && selects_all(sel, selected);
        lemma_selection_split(cs, selected, sel);
        assert(selection_ok(all, sel));
    }
    if selectable(all) {
        let sel = choose|sel: Set<Seq<char>>| selection_ok(all, sel);
        lemma_selection_split(cs, selected, sel);
        assert(selection_ok(cs, sel) && selects_all(sel, selected));
    }
}

} // verus!
