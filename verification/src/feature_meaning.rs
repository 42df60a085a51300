//! What the clauses of a feature model say of a selection of features, and
//! what follows for consistency: a model stays consistent when edges are taken
//! out of it, and a selection that meets the model is a valid configuration.

use crate::feature_model::{
    at_least_one, children, configuration_valid, count_features, edge_clauses, encoding,
    excludes_of, feature, feature_clauses, feature_index, feature_named, group_clauses,
    hierarchy_clauses, is_child, is_feature, is_feature_index, is_plain, lemma_feature_index_none,
    lemma_feature_index_unique, mandatory, marked_mandatory, model_clauses, model_consistent,
    pair_row, pair_rows, parent_of, requires_of, selectable, selection_ok, selects_all,
    sym_clause_holds, sym_holds, Sym,
};
use crate::types::config::names;
use crate::types::element::Element;
use crate::types::entry::Entry;
use crate::types::feature::{group_of, FeatureElement, VariabilityGroup};
use vstd::prelude::*;

verus! {

/// The feature stands rightly under the feature above it: without one it is
/// selected; with one it is selected only with it, and always with it where
/// it is mandatory.
pub open spec fn hierarchy_ok(
    es: Seq<Entry<Element>>,
    k: int,
    link: Option<Seq<char>>,
    sel: Set<Seq<char>>,
) -> bool {
    let id = feature(es, k).id@;
    match link {
        None => sel.contains(id),
        Some(p) => (sel.contains(id) ==> sel.contains(p)) && (mandatory(es, k) ==> (sel.contains(p)
            ==> sel.contains(id))),
    }
}

/// With `id` selected, the target is selected (`present`) or is not.
pub open spec fn edge_ok(id: Seq<char>, target: Seq<char>, present: bool, sel: Set<Seq<char>>) -> bool {
    sel.contains(id) ==> sel.contains(target) == present
}

/// With `id` selected, each target is selected (`present`) or is not.
pub open spec fn edges_ok(
    id: Seq<char>,
    targets: Seq<Seq<char>>,
    present: bool,
    sel: Set<Seq<char>>,
) -> bool {
    forall|t: int| 0 <= t < targets.len() ==> edge_ok(id, #[trigger] targets[t], present, sel)
}

/// Some child is selected.
pub open spec fn some_child(ch: Seq<Seq<char>>, sel: Set<Seq<char>>) -> bool {
    exists|t: int| 0 <= t < ch.len() && sel.contains(#[trigger] ch[t])
}

/// The children at `i` and `j` are not both selected.
pub open spec fn apart(ch: Seq<Seq<char>>, sel: Set<Seq<char>>, i: int, j: int) -> bool {
    !(sel.contains(ch[i]) && sel.contains(ch[j]))
}

/// No two children at different places are both selected.
pub open spec fn at_most_one(ch: Seq<Seq<char>>, sel: Set<Seq<char>>) -> bool {
    forall|i: int, j: int| 0 <= i < j < ch.len() ==> #[trigger] apart(ch, sel, i, j)
}

/// The group of the feature is kept: with the feature selected, an OR group
/// has a selected child, and an XOR group has one; of an XOR group no two
/// children are selected.
pub open spec fn group_ok(es: Seq<Entry<Element>>, k: int, sel: Set<Seq<char>>) -> bool {
    let f = feature(es, k);
    let ch = children(es, f.id@, es.len() as int);
    ch.len() > 0 ==> match group_of(f.group) {
        Some(VariabilityGroup::Or) => sel.contains(f.id@) ==> some_child(ch, sel),
        Some(VariabilityGroup::Xor) => (sel.contains(f.id@) ==> some_child(ch, sel)) && at_most_one(
            ch,
            sel,
        ),
        None => true,
    }
}

/// Everything that the model asks of the feature at `k` holds of the selection.
pub open spec fn feature_ok(
    es: Seq<Entry<Element>>,
    k: int,
    link: Option<Seq<char>>,
    sel: Set<Seq<char>>,
) -> bool {
    let f = feature(es, k);
    &&& hierarchy_ok(es, k, link, sel)
    &&& edges_ok(f.id@, requires_of(f), true, sel)
    &&& edges_ok(f.id@, excludes_of(f), false, sel)
    &&& group_ok(es, k, sel)
}

/// Everything that the model asks of the other features among the first
/// `upto` entries holds of the selection.
pub open spec fn plain_ok(es: Seq<Entry<Element>>, root: Seq<char>, upto: int, sel: Set<Seq<char>>) -> bool {
    forall|k: int|
        0 <= k < upto && #[trigger] is_plain(es, k, root) ==> feature_ok(es, k, parent_of(es, k), sel)
}

/// The selection is a product of the model: the root is selected and keeps
/// its edges and its group, and every other feature stands rightly under its
/// parent and keeps its edges and its group.
pub open spec fn model_ok(es: Seq<Entry<Element>>, root: Seq<char>, sel: Set<Seq<char>>) -> bool {
    feature_index(es, root) matches Some(r) ==> feature_ok(es, r, None, sel) && plain_ok(
        es,
        root,
        es.len() as int,
        sel,
    )
}

/// A selection meets two lists of clauses exactly when it meets each.
pub proof fn lemma_selection_concat(a: Seq<Seq<Sym>>, b: Seq<Seq<Sym>>, sel: Set<Seq<char>>)
    ensures
        selection_ok(a + b, sel) <==> selection_ok(a, sel) && selection_ok(b, sel),
{
    let all = a + b;
    if selection_ok(all, sel) {
        assert forall|i: int| 0 <= i < a.len() implies sym_clause_holds(#[trigger] a[i], sel) by {
            assert(all[i] == a[i]);
        }
        assert forall|i: int| 0 <= i < b.len() implies sym_clause_holds(#[trigger] b[i], sel) by {
            assert(all[a.len() + i] == b[i]);
        }
    }
    if selection_ok(a, sel) && selection_ok(b, sel) {
        assert forall|i: int| 0 <= i < all.len() implies sym_clause_holds(#[trigger] all[i], sel) by {
            if i < a.len() {
                assert(all[i] == a[i]);
            } else {
                assert(all[i] == b[i - a.len()]);
            }
        }
    }
}

/// A clause of two signed identifiers holds when one of them does.
pub proof fn lemma_pair_clause(x: Sym, y: Sym, sel: Set<Seq<char>>)
    ensures
        sym_clause_holds(seq![x, y], sel) <==> sym_holds(x, sel) || sym_holds(y, sel),
{
    let c = seq![x, y];
    assert(c[0] == x && c[1] == y);
    if sym_holds(x, sel) {
        assert(sym_holds(c[0], sel));
    }
    if sym_holds(y, sel) {
        assert(sym_holds(c[1], sel));
    }
}

/// A clause of one signed identifier holds when it does.
pub proof fn lemma_unit_clause(x: Sym, sel: Set<Seq<char>>)
    ensures
        sym_clause_holds(seq![x], sel) <==> sym_holds(x, sel),
{
    let c = seq![x];
    assert(c[0] == x);
    if sym_holds(x, sel) {
        assert(sym_holds(c[0], sel));
    }
}

/// The clauses of the hierarchy are met exactly where the feature stands
/// rightly under the feature above it.
pub proof fn lemma_hierarchy_meaning(
    es: Seq<Entry<Element>>,
    k: int,
    link: Option<Seq<char>>,
    sel: Set<Seq<char>>,
)
    ensures
        selection_ok(hierarchy_clauses(es, k, link), sel) <==> hierarchy_ok(es, k, link, sel),
{
    let id = feature(es, k).id@;
    let cs = hierarchy_clauses(es, k, link);
    match link {
        None => {
            lemma_unit_clause((id, true), sel);
            assert(cs[0] == seq![(id, true)]);
            if sel.contains(id) {
                assert forall|i: int| 0 <= i < cs.len() implies sym_clause_holds(
                    #[trigger] cs[i],
                    sel,
                ) by {}
            }
        },
        Some(p) => {
            lemma_pair_clause((id, false), (p, true), sel);
            lemma_pair_clause((p, false), (id, true), sel);
            assert(cs[0] == seq![(id, false), (p, true)]);
            if mandatory(es, k) {
                assert(cs[1] == seq![(p, false), (id, true)]);
            }
            if hierarchy_ok(es, k, link, sel) {
                assert forall|i: int| 0 <= i < cs.len() implies sym_clause_holds(
                    #[trigger] cs[i],
                    sel,
                ) by {}
            }
        },
    }
}

/// The clauses of the edges are met exactly where each target is selected, or
/// is not, with the feature.
pub proof fn lemma_edges_meaning(
    id: Seq<char>,
    targets: Seq<Seq<char>>,
    present: bool,
    sel: Set<Seq<char>>,
)
    ensures
        selection_ok(edge_clauses(id, targets, present), sel) <==> edges_ok(id, targets, present, sel),
{
    let cs = edge_clauses(id, targets, present);
    if selection_ok(cs, sel) {
        assert forall|t: int| 0 <= t < targets.len() implies edge_ok(
            id,
            #[trigger] targets[t],
            present,
            sel,
        ) by {
            assert(sym_clause_holds(cs[t], sel));
            lemma_pair_clause((id, false), (targets[t], present), sel);
        }
    }
    if edges_ok(id, targets, present, sel) {
        assert forall|i: int| 0 <= i < cs.len() implies sym_clause_holds(#[trigger] cs[i], sel) by {
            lemma_pair_clause((id, false), (targets[i], present), sel);
            assert(edge_ok(id, targets[i], present, sel));
        }
    }
}

/// The clause of a group holds exactly where the parent is not selected or some
/// child is.
pub proof fn lemma_at_least_one_meaning(id: Seq<char>, ch: Seq<Seq<char>>, sel: Set<Seq<char>>)
    ensures
        sym_clause_holds(at_least_one(id, ch), sel) <==> (sel.contains(id) ==> some_child(ch, sel)),
{
    let c = at_least_one(id, ch);
    assert(c[0] == (id, false));
    assert forall|t: int| 0 <= t < ch.len() implies c[t + 1] == (ch[t], true) by {}
    if sym_clause_holds(c, sel) {
        let j = choose|j: int| 0 <= j < c.len() && sym_holds(#[trigger] c[j], sel);
        if j > 0 {
            assert(c[(j - 1) + 1] == (ch[j - 1], true));
            assert(sel.contains(ch[j - 1]));
        }
    }
    if !sel.contains(id) {
        assert(sym_holds(c[0], sel));
    } else if some_child(ch, sel) {
        let t = choose|t: int| 0 <= t < ch.len() && sel.contains(#[trigger] ch[t]);
        assert(sym_holds(c[t + 1], sel));
    }
}

/// The row of child `i` is met when `i` is apart from each later child of the row.
pub open spec fn row_apart(ch: Seq<Seq<char>>, sel: Set<Seq<char>>, i: int, upto: int) -> bool {
    forall|j: int| i < j < upto ==> #[trigger] apart(ch, sel, i, j)
}

/// The exclusions of one child are met exactly where it is apart from each
/// later child.
pub proof fn lemma_pair_row_meaning(ch: Seq<Seq<char>>, i: int, upto: int, sel: Set<Seq<char>>)
    requires
        0 <= i,
        upto <= ch.len(),
    ensures
        selection_ok(pair_row(ch, i, upto), sel) <==> row_apart(ch, sel, i, upto),
{
    let cs = pair_row(ch, i, upto);
    if selection_ok(cs, sel) {
        assert forall|j: int| i < j < upto implies #[trigger] apart(ch, sel, i, j) by {
            let t = j - i - 1;
            assert(sym_clause_holds(cs[t], sel));
            lemma_pair_clause((ch[i], false), (ch[i + 1 + t], false), sel);
        }
    }
    if row_apart(ch, sel, i, upto) {
        assert forall|t: int| 0 <= t < cs.len() implies sym_clause_holds(#[trigger] cs[t], sel) by {
            assert(apart(ch, sel, i, i + 1 + t));
            lemma_pair_clause((ch[i], false), (ch[i + 1 + t], false), sel);
        }
    }
}

/// The first `rows` rows are met when each of their children is apart from
/// every later child.
pub open spec fn rows_apart(ch: Seq<Seq<char>>, sel: Set<Seq<char>>, rows: int) -> bool {
    forall|i: int, j: int| 0 <= i < rows && i < j < ch.len() ==> #[trigger] apart(ch, sel, i, j)
}

/// The exclusions of the first children are met exactly where each is apart
/// from every later child.
pub proof fn lemma_pair_rows_meaning(ch: Seq<Seq<char>>, rows: int, sel: Set<Seq<char>>)
    requires
        rows <= ch.len(),
    ensures
        selection_ok(pair_rows(ch, rows), sel) <==> rows_apart(ch, sel, rows),
    decreases rows,
{
    if rows <= 0 {
    } else {
        lemma_pair_rows_meaning(ch, rows - 1, sel);
        lemma_pair_row_meaning(ch, rows - 1, ch.len() as int, sel);
        lemma_selection_concat(pair_rows(ch, rows - 1), pair_row(ch, rows - 1, ch.len() as int), sel);
        if rows_apart(ch, sel, rows) {
            assert(rows_apart(ch, sel, rows - 1));
            assert(row_apart(ch, sel, rows - 1, ch.len() as int));
        }
        if rows_apart(ch, sel, rows - 1) && row_apart(ch, sel, rows - 1, ch.len() as int) {
            assert forall|i: int, j: int| 0 <= i < rows && i < j < ch.len() implies #[trigger] apart(
                ch,
                sel,
                i,
                j,
            ) by {
                if i == rows - 1 {
                } else {
                }
            }
        }
    }
}

/// The clauses of a group are met exactly where the group is kept.
pub proof fn lemma_group_meaning(es: Seq<Entry<Element>>, k: int, sel: Set<Seq<char>>)
    ensures
        selection_ok(group_clauses(es, k), sel) <==> group_ok(es, k, sel),
{
    let f = feature(es, k);
    let ch = children(es, f.id@, es.len() as int);
    let cs = group_clauses(es, k);
    if ch.len() > 0 {
        lemma_at_least_one_meaning(f.id@, ch, sel);
        let first = seq![at_least_one(f.id@, ch)];
        assert(first[0] == at_least_one(f.id@, ch));
        assert(selection_ok(first, sel) <==> sym_clause_holds(at_least_one(f.id@, ch), sel)) by {
            if sym_clause_holds(at_least_one(f.id@, ch), sel) {
                assert forall|i: int| 0 <= i < first.len() implies sym_clause_holds(
                    #[trigger] first[i],
                    sel,
                ) by {}
            }
            if selection_ok(first, sel) {
                assert(sym_clause_holds(first[0], sel));
            }
        }
        match group_of(f.group) {
            Some(VariabilityGroup::Or) => {},
            Some(VariabilityGroup::Xor) => {
                lemma_pair_rows_meaning(ch, ch.len() as int, sel);
                lemma_selection_concat(first, pair_rows(ch, ch.len() as int), sel);
                if at_most_one(ch, sel) {
                    assert(rows_apart(ch, sel, ch.len() as int));
                }
                if rows_apart(ch, sel, ch.len() as int) {
                    assert(at_most_one(ch, sel));
                }
            },
            None => {},
        }
    }
}

/// The clauses of a feature are met exactly by the selections of which
/// everything holds that the model asks of the feature.
pub proof fn lemma_feature_meaning(
    es: Seq<Entry<Element>>,
    k: int,
    link: Option<Seq<char>>,
    sel: Set<Seq<char>>,
)
    ensures
        selection_ok(feature_clauses(es, k, link), sel) <==> feature_ok(es, k, link, sel),
{
    let f = feature(es, k);
    let h = hierarchy_clauses(es, k, link);
    let r = edge_clauses(f.id@, requires_of(f), true);
    let x = edge_clauses(f.id@, excludes_of(f), false);
    let g = group_clauses(es, k);
    lemma_hierarchy_meaning(es, k, link, sel);
    lemma_edges_meaning(f.id@, requires_of(f), true, sel);
    lemma_edges_meaning(f.id@, excludes_of(f), false, sel);
    lemma_group_meaning(es, k, sel);
    lemma_selection_concat(h, r, sel);
    lemma_selection_concat(h + r, x, sel);
    lemma_selection_concat(h + r + x, g, sel);
}

/// The clauses of the root and of the first entries are met exactly where
/// everything holds that the model asks of them.
pub proof fn lemma_model_clauses_meaning(
    es: Seq<Entry<Element>>,
    root: Seq<char>,
    upto: int,
    sel: Set<Seq<char>>,
)
    requires
        feature_index(es, root) is Some,
    ensures
        selection_ok(model_clauses(es, root, upto), sel) <==> feature_ok(
            es,
            feature_index(es, root)->0,
            None,
            sel,
        ) && plain_ok(es, root, upto, sel),
    decreases upto,
{
    let r = feature_index(es, root)->0;
    if upto <= 0 {
        lemma_feature_meaning(es, r, None, sel);
    } else {
        lemma_model_clauses_meaning(es, root, upto - 1, sel);
        let k = upto - 1;
        if is_plain(es, k, root) {
            lemma_feature_meaning(es, k, parent_of(es, k), sel);
            lemma_selection_concat(
                model_clauses(es, root, k),
                feature_clauses(es, k, parent_of(es, k)),
                sel,
            );
        }
        if plain_ok(es, root, upto, sel) {
            assert(plain_ok(es, root, upto - 1, sel));
        }
        if plain_ok(es, root, upto - 1, sel) && (is_plain(es, k, root) ==> feature_ok(
            es,
            k,
            parent_of(es, k),
            sel,
        )) {
            assert(plain_ok(es, root, upto, sel));
        }
    }
}

/// The encoding of a model is met exactly by the products of the model.
pub proof fn lemma_encoding_meaning(es: Seq<Entry<Element>>, root: Seq<char>, sel: Set<Seq<char>>)
    ensures
        selection_ok(encoding(es, root), sel) <==> model_ok(es, root, sel),
{
    if feature_index(es, root) is Some {
        lemma_model_clauses_meaning(es, root, es.len() as int, sel);
    }
}

/// The model has a product: some selection of features is one.
pub open spec fn has_product(es: Seq<Entry<Element>>, root: Seq<char>) -> bool {
    exists|sel: Set<Seq<char>>| model_ok(es, root, sel)
}

/// The model has a product that holds every one of the selected features.
pub open spec fn has_product_with(
    es: Seq<Entry<Element>>,
    root: Seq<char>,
    selected: Seq<String>,
) -> bool {
    exists|sel: Set<Seq<char>>| #[trigger] model_ok(es, root, sel) && selects_all(sel, selected)
}

/// The encoding of a model can be met exactly when the model has a product.
pub proof fn lemma_consistency_meaning(es: Seq<Entry<Element>>, root: Seq<char>)
    ensures
        selectable(encoding(es, root)) <==> has_product(es, root),
        model_consistent(es, root) <==> count_features(es, es.len() as int) == 0 || (feature_index(
            es,
            root,
        ) is Some && has_product(es, root)),
{
    if selectable(encoding(es, root)) {
        let sel = choose|sel: Set<Seq<char>>| selection_ok(encoding(es, root), sel);
        lemma_encoding_meaning(es, root, sel);
        assert(model_ok(es, root, sel));
    }
    if has_product(es, root) {
        let sel = choose|sel: Set<Seq<char>>| model_ok(es, root, sel);
        lemma_encoding_meaning(es, root, sel);
        assert(selection_ok(encoding(es, root), sel));
    }
}

/// A configuration is valid exactly when the model has a product that holds
/// every selected feature.
pub proof fn lemma_validity_meaning(es: Seq<Entry<Element>>, root: Seq<char>, selected: Seq<String>)
    ensures
        configuration_valid(es, root, selected) <==> has_product_with(es, root, selected),
{
    if configuration_valid(es, root, selected) {
        let sel = choose|sel: Set<Seq<char>>| #[trigger]
            selection_ok(encoding(es, root), sel) && selects_all(sel, selected);
        lemma_encoding_meaning(es, root, sel);
        assert(model_ok(es, root, sel) && selects_all(sel, selected));
    }
    if has_product_with(es, root, selected) {
        let sel = choose|sel: Set<Seq<char>>| #[trigger]
            model_ok(es, root, sel) && selects_all(sel, selected);
        lemma_encoding_meaning(es, root, sel);
        assert(selection_ok(encoding(es, root), sel) && selects_all(sel, selected));
    }
}

/// Every identifier of `a` is one of `b`.
pub open spec fn among(a: Seq<Seq<char>>, b: Seq<Seq<char>>) -> bool {
    forall|t: int| 0 <= t < a.len() ==> b.contains(#[trigger] a[t])
}

/// The two features differ in their edges at most, and `g` has no edge that `f` has not.
pub open spec fn edges_within(g: FeatureElement, f: FeatureElement) -> bool {
    &&& g.id@ == f.id@
    &&& g.parent is Some == f.parent is Some
    &&& g.parent is Some ==> g.parent->0@ == f.parent->0@
    &&& g.group is Some == f.group is Some
    &&& group_of(g.group) == group_of(f.group)
    &&& marked_mandatory(g) == marked_mandatory(f)
    &&& among(requires_of(g), requires_of(f))
    &&& among(excludes_of(g), excludes_of(f))
}

/// The registry `thin` is the registry `full` with `requires` and `excludes`
/// edges taken out of some of its features.
pub open spec fn edges_removed(thin: Seq<Entry<Element>>, full: Seq<Entry<Element>>) -> bool {
    &&& thin.len() == full.len()
    &&& forall|k: int|
        0 <= k < full.len() ==> (#[trigger] is_feature(thin, k)) == is_feature(full, k)
    &&& forall|k: int| #[trigger]
        is_feature(full, k) ==> edges_within(feature(thin, k), feature(full, k))
}

proof fn lemma_same_children(
    thin: Seq<Entry<Element>>,
    full: Seq<Entry<Element>>,
    pid: Seq<char>,
    upto: int,
)
    requires
        edges_removed(thin, full),
        upto <= full.len(),
    ensures
        children(thin, pid, upto) == children(full, pid, upto),
        count_features(thin, upto) == count_features(full, upto),
    decreases upto,
{
    if upto > 0 {
        lemma_same_children(thin, full, pid, upto - 1);
        let k = upto - 1;
        assert(is_feature(thin, k) == is_feature(full, k));
        if is_feature(full, k) {
            assert(edges_within(feature(thin, k), feature(full, k)));
        }
        assert(is_child(thin, k, pid) == is_child(full, k, pid));
    }
}

proof fn lemma_same_index(thin: Seq<Entry<Element>>, full: Seq<Entry<Element>>, id: Seq<char>)
    requires
        edges_removed(thin, full),
    ensures
        feature_index(thin, id) == feature_index(full, id),
{
    assert forall|k: int| feature_named(thin, k, id) == feature_named(full, k, id) by {
        if 0 <= k < full.len() {
            assert(is_feature(thin, k) == is_feature(full, k));
            if is_feature(full, k) {
                assert(edges_within(feature(thin, k), feature(full, k)));
            }
        }
    }
    if feature_index(full, id) is Some {
        let k = feature_index(full, id)->0;
        assert(is_feature_index(full, id, k));
        assert(is_feature_index(thin, id, k)) by {
            assert forall|j: int| 0 <= j < k implies !#[trigger] feature_named(thin, j, id) by {
                assert(!feature_named(full, j, id));
            }
        }
        lemma_feature_index_unique(thin, id, k);
    } else {
        assert forall|j: int| 0 <= j < thin.len() implies !#[trigger] feature_named(thin, j, id) by {
            if feature_named(full, j, id) {
                lemma_least_named(full, id, j);
            }
        }
        lemma_feature_index_none(thin, id);
    }
}

/// Where some entry is a feature of the name, a first such entry exists.
proof fn lemma_least_named(es: Seq<Entry<Element>>, id: Seq<char>, k: int)
    requires
        feature_named(es, k, id),
    ensures
        feature_index(es, id) is Some,
    decreases k,
{
    if forall|j: int| 0 <= j < k ==> !#[trigger] feature_named(es, j, id) {
        assert(is_feature_index(es, id, k));
    } else {
        let j = choose|j: int| 0 <= j < k && #[trigger] feature_named(es, j, id);
        lemma_least_named(es, id, j);
    }
}

proof fn lemma_same_mandatory(thin: Seq<Entry<Element>>, full: Seq<Entry<Element>>, k: int)
    requires
        edges_removed(thin, full),
        is_feature(full, k),
    ensures
        mandatory(thin, k) == mandatory(full, k),
{
    let f = feature(full, k);
    let g = feature(thin, k);
    assert(edges_within(g, f));
    if f.parent is Some {
        let p = f.parent->0@;
        lemma_same_index(thin, full, p);
        lemma_same_children(thin, full, p, full.len() as int);
        if feature_index(full, p) is Some {
            let pi = feature_index(full, p)->0;
            assert(is_feature_index(full, p, pi));
            assert(is_feature(full, pi));
            assert(edges_within(feature(thin, pi), feature(full, pi)));
        }
    }
}

proof fn lemma_edges_within(
    id: Seq<char>,
    fewer: Seq<Seq<char>>,
    more: Seq<Seq<char>>,
    present: bool,
    sel: Set<Seq<char>>,
)
    requires
        among(fewer, more),
        edges_ok(id, more, present, sel),
    ensures
        edges_ok(id, fewer, present, sel),
{
    assert forall|t: int| 0 <= t < fewer.len() implies edge_ok(
        id,
        #[trigger] fewer[t],
        present,
        sel,
    ) by {
        assert(more.contains(fewer[t]));
        let u = choose|u: int| 0 <= u < more.len() && more[u] == fewer[t];
        assert(edge_ok(id, more[u], present, sel));
    }
}

proof fn lemma_feature_ok_kept(
    thin: Seq<Entry<Element>>,
    full: Seq<Entry<Element>>,
    k: int,
    link: Option<Seq<char>>,
    sel: Set<Seq<char>>,
)
    requires
        edges_removed(thin, full),
        is_feature(full, k),
        feature_ok(full, k, link, sel),
    ensures
        feature_ok(thin, k, link, sel),
{
    let f = feature(full, k);
    let g = feature(thin, k);
    assert(edges_within(g, f));
    lemma_same_mandatory(thin, full, k);
    lemma_same_children(thin, full, f.id@, full.len() as int);
    lemma_edges_within(f.id@, requires_of(g), requires_of(f), true, sel);
    lemma_edges_within(f.id@, excludes_of(g), excludes_of(f), false, sel);
}

/// A product of a model is a product of the model with edges taken out.
pub proof fn lemma_model_ok_kept(
    thin: Seq<Entry<Element>>,
    full: Seq<Entry<Element>>,
    root: Seq<char>,
    sel: Set<Seq<char>>,
)
    requires
        edges_removed(thin, full),
        model_ok(full, root, sel),
    ensures
        model_ok(thin, root, sel),
{
    lemma_same_index(thin, full, root);
    if feature_index(full, root) is Some {
        let r = feature_index(full, root)->0;
        assert(is_feature_index(full, root, r));
        lemma_feature_ok_kept(thin, full, r, None, sel);
        assert forall|k: int| 0 <= k < thin.len() && #[trigger] is_plain(thin, k, root) implies feature_ok(
            thin,
            k,
            parent_of(thin, k),
            sel,
        ) by {
            assert(is_feature(thin, k) == is_feature(full, k));
            assert(is_feature(full, k));
            assert(edges_within(feature(thin, k), feature(full, k)));
            assert(is_plain(full, k, root));
            assert(parent_of(thin, k) == parent_of(full, k));
            lemma_feature_ok_kept(thin, full, k, parent_of(full, k), sel);
        }
    }
}

/// Taking `requires` and `excludes` edges out of a consistent model leaves it consistent.
pub proof fn lemma_removing_edges_keeps_consistency(
    thin: Seq<Entry<Element>>,
    full: Seq<Entry<Element>>,
    root: Seq<char>,
)
    requires
        edges_removed(thin, full),
        model_consistent(full, root),
    ensures
        model_consistent(thin, root),
{
    lemma_same_children(thin, full, root, full.len() as int);
    lemma_same_index(thin, full, root);
    if count_features(full, full.len() as int) != 0 {
        let sel = choose|sel: Set<Seq<char>>| selection_ok(encoding(full, root), sel);
        lemma_encoding_meaning(full, root, sel);
        lemma_model_ok_kept(thin, full, root, sel);
        lemma_encoding_meaning(thin, root, sel);
        assert(selection_ok(encoding(thin, root), sel));
    }
}

/// Taking `requires` and `excludes` edges out of a model leaves every valid
/// configuration valid.
pub proof fn lemma_removing_edges_keeps_validity(
    thin: Seq<Entry<Element>>,
    full: Seq<Entry<Element>>,
    root: Seq<char>,
    selected: Seq<String>,
)
    requires
        edges_removed(thin, full),
        configuration_valid(full, root, selected),
    ensures
        configuration_valid(thin, root, selected),
{
    let sel = choose|sel: Set<Seq<char>>| #[trigger]
        selection_ok(encoding(full, root), sel) && selects_all(sel, selected);
    lemma_encoding_meaning(full, root, sel);
    lemma_model_ok_kept(thin, full, root, sel);
    lemma_encoding_meaning(thin, root, sel);
    assert(selection_ok(encoding(thin, root), sel) && selects_all(sel, selected));
}

/// A configuration that selects exactly the features of a product of the
/// model is valid.
pub proof fn lemma_product_is_valid(
    es: Seq<Entry<Element>>,
    root: Seq<char>,
    selected: Seq<String>,
    sel: Set<Seq<char>>,
)
    requires
        model_ok(es, root, sel),
        forall|id: Seq<char>| sel.contains(id) <==> names(selected, id),
    ensures
        configuration_valid(es, root, selected),
{
    lemma_encoding_meaning(es, root, sel);
    assert forall|i: int| 0 <= i < selected.len() implies sel.contains((#[trigger] selected[i])@) by {
        assert(names(selected, selected[i]@));
    }
    assert(selection_ok(encoding(es, root), sel) && selects_all(sel, selected));
}

proof fn lemma_validity_kept(
    es: Seq<Entry<Element>>,
    root: Seq<char>,
    s1: Seq<String>,
    s2: Seq<String>,
)
    requires
        forall|id: Seq<char>| names(s2, id) ==> names(s1, id),
        configuration_valid(es, root, s1),
    ensures
        configuration_valid(es, root, s2),
{
    let sel = choose|sel: Set<Seq<char>>| #[trigger]
        selection_ok(encoding(es, root), sel) && selects_all(sel, s1);
    assert forall|i: int| 0 <= i < s2.len() implies sel.contains((#[trigger] s2[i])@) by {
        assert(names(s2, s2[i]@));
        let j = choose|j: int| 0 <= j < s1.len() && (#[trigger] s1[j])@ == s2[i]@;
        assert(sel.contains(s1[j]@));
    }
    assert(selection_ok(encoding(es, root), sel) && selects_all(sel, s2));
}

/// Whether a configuration is valid rests on which features it selects, not
/// on their order nor on how often one is named.
pub proof fn lemma_validity_by_names(
    es: Seq<Entry<Element>>,
    root: Seq<char>,
    s1: Seq<String>,
    s2: Seq<String>,
)
    requires
        forall|id: Seq<char>| names(s1, id) == names(s2, id),
    ensures
        configuration_valid(es, root, s1) == configuration_valid(es, root, s2),
{
    if configuration_valid(es, root, s1) {
        lemma_validity_kept(es, root, s1, s2);
    }
    if configuration_valid(es, root, s2) {
        lemma_validity_kept(es, root, s2, s1);
    }
}

} // verus!
