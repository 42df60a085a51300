//! The structural rules of a registry: links that lead somewhere, use cases
//! that are traced to a requirement, identifiers that stand once, keys that
//! fit their elements, parents, groups, part types and selections that exist,
//! and a feature model that is consistent. Every breach is collected; none
//! stops the check.

use crate::feature_model::{
    children, encoding_mentions, feature, is_feature, model_consistent, MENTION_LIMIT,
};
use crate::feature_validation::{encoding_fits, model_message, validate_feature_model};
use crate::link_graph::{
    graph_add_edge, graph_add_node, graph_edges, graph_new, graph_node_indices, graph_node_weight,
    graph_nodes, graph_out_targets, has_edge, lemma_out_targets, out_targets,
};
use crate::text::{decimal, decimal_text};
use crate::types::config::{first_time, is_first_time, ConfigElement};
use crate::types::element::{BlockDefinitionElement, Element};
use crate::types::registry::Registry;
use crate::types::entry::{find, get, has_key, key_index, lemma_key_index_some, value_at, Entry};
use crate::types::sysml::SysmlPart;
use vstd::prelude::*;

verus! {

/// A link from one element to another.
#[derive(Debug, Clone)]
pub struct Link {
    pub source: String,
    /// The kind of the link: trace, satisfy, child_of and the like.
    pub link_type: String,
    pub target: String,
}

/// What a check of the rules found.
#[derive(Debug, Clone)]
pub struct ValidationResult {
    pub passed: bool,
    pub total_elements: usize,
    pub message: String,
}

/// One breach of a rule.
#[derive(Debug, Clone)]
pub enum Violation {
    /// A link whose source or target is no key of the registry.
    DanglingLink { source: String, target: String },
    /// A use case from which no link leads to a requirement.
    UntracedUseCase { id: String },
    /// An identifier that an earlier element has too.
    DuplicateId { id: String },
    /// An element under a key that is not the key of its identifier.
    KeyMismatch { key: String, expected: String },
    /// A feature whose parent is no key of the registry.
    MissingParent { feature_id: String, parent_id: String },
    /// A group with fewer than two children.
    SmallGroup { feature_id: String, group: String, children: usize },
    /// A part of a block whose type is no key of the registry.
    MissingPartType { block_id: String, part_type: String },
    /// A configuration that selects an abstract feature.
    AbstractSelected { config_id: String, feature_id: String },
    /// A configuration that selects an element that is no feature.
    NonFeatureSelected { config_id: String, feature_id: String, kind: String },
    /// A configuration that selects what is no key of the registry.
    UnknownSelected { config_id: String, feature_id: String },
    /// A feature model without a valid configuration.
    Inconsistent { message: String },
}

/// A breach with its texts as sequences of characters.
pub ghost enum Breach {
    DanglingLink { source: Seq<char>, target: Seq<char> },
    UntracedUseCase { id: Seq<char> },
    DuplicateId { id: Seq<char> },
    KeyMismatch { key: Seq<char>, expected: Seq<char> },
    MissingParent { feature: Seq<char>, parent: Seq<char> },
    SmallGroup { feature: Seq<char>, group: Seq<char>, children: usize },
    MissingPartType { block: Seq<char>, part_type: Seq<char> },
    AbstractSelected { config: Seq<char>, feature: Seq<char> },
    NonFeatureSelected { config: Seq<char>, feature: Seq<char>, kind: Seq<char> },
    UnknownSelected { config: Seq<char>, feature: Seq<char> },
    Inconsistent { message: Seq<char> },
}

impl View for Violation {
    type V = Breach;

    open spec fn view(&self) -> Breach {
        match self {
            Violation::DanglingLink { source, target } => Breach::DanglingLink {
                source: source@,
                target: target@,
            },
            Violation::UntracedUseCase { id } => Breach::UntracedUseCase { id: id@ },
            Violation::DuplicateId { id } => Breach::DuplicateId { id: id@ },
            Violation::KeyMismatch { key, expected } => Breach::KeyMismatch {
                key: key@,
                expected: expected@,
            },
            Violation::MissingParent { feature_id, parent_id } => Breach::MissingParent {
                feature: feature_id@,
                parent: parent_id@,
            },
            Violation::SmallGroup { feature_id, group, children } => Breach::SmallGroup {
                feature: feature_id@,
                group: group@,
                children: *children,
            },
            Violation::MissingPartType { block_id, part_type } => Breach::MissingPartType {
                block: block_id@,
                part_type: part_type@,
            },
            Violation::AbstractSelected { config_id, feature_id } => Breach::AbstractSelected {
                config: config_id@,
                feature: feature_id@,
            },
            Violation::NonFeatureSelected { config_id, feature_id, kind } => Breach::NonFeatureSelected {
                config: config_id@,
                feature: feature_id@,
                kind: kind@,
            },
            Violation::UnknownSelected { config_id, feature_id } => Breach::UnknownSelected {
                config: config_id@,
                feature: feature_id@,
            },
            Violation::Inconsistent { message } => Breach::Inconsistent { message: message@ },
        }
    }
}

/// The views of a list of breaches.
pub open spec fn views(vs: Seq<Violation>) -> Seq<Breach> {
    Seq::new(vs.len(), |i: int| vs[i]@)
}

/// The message of a breach.
pub open spec fn breach_text(b: Breach) -> Seq<char> {
    match b {
        Breach::DanglingLink { source, target } => "Link references non-existent element: "@ + source
            + " -> "@ + target,
        Breach::UntracedUseCase { id } => "Use case "@ + id + " is not traced to any requirement"@,
        Breach::DuplicateId { id } => "Duplicate ID: "@ + id,
        Breach::KeyMismatch { key, expected } => "Registry key mismatch: key='"@ + key
            + "' but expected '"@ + expected + "'"@,
        Breach::MissingParent { feature, parent } => "Feature "@ + feature
            + " references non-existent parent: "@ + parent,
        Breach::SmallGroup { feature, group, children } => "Feature "@ + feature + " has \""@ + group
            + "\" group but only "@ + decimal_text(children as nat) + " children (need >= 2)"@,
        Breach::MissingPartType { block, part_type } => "Block "@ + block
            + " references non-existent part type: "@ + part_type,
        Breach::AbstractSelected { config, feature } => "Config "@ + config
            + " selects abstract feature: "@ + feature,
        Breach::NonFeatureSelected { config, feature, kind } => "Config "@ + config
            + " selects non-feature element: "@ + feature + " (type: "@ + kind + ")"@,
        Breach::UnknownSelected { config, feature } => "Config "@ + config
            + " selects non-existent feature: "@ + feature,
        Breach::Inconsistent { message } => "Feature model is INCONSISTENT (SAT check failed): "@
            + message,
    }
}

/// The entries that a link joins, where both of its ends are keys of the registry.
pub open spec fn link_ends(es: Seq<Entry<Element>>, link: Link) -> Option<(int, int)> {
    match (key_index(es, link.source@), key_index(es, link.target@)) {
        (Some(a), Some(b)) => Some((a, b)),
        _ => None,
    }
}

/// The breaches among the first `upto` links: those with an end that is no key.
pub open spec fn link_breaches(es: Seq<Entry<Element>>, links: Seq<Link>, upto: int) -> Seq<Breach>
    decreases upto,
{
    if upto <= 0 {
        Seq::empty()
    } else if link_ends(es, links[upto - 1]) is None {
        link_breaches(es, links, upto - 1).push(
            Breach::DanglingLink { source: links[upto - 1].source@, target: links[upto - 1].target@ },
        )
    } else {
        link_breaches(es, links, upto - 1)
    }
}

/// The edges that the first `upto` links make.
pub open spec fn link_edges(es: Seq<Entry<Element>>, links: Seq<Link>, upto: int) -> Seq<
    (usize, usize),
>
    decreases upto,
{
    if upto <= 0 {
        Seq::empty()
    } else {
        match link_ends(es, links[upto - 1]) {
            Some(ends) => link_edges(es, links, upto - 1).push((ends.0 as usize, ends.1 as usize)),
            None => link_edges(es, links, upto - 1),
        }
    }
}

/// The link leads from the entry `k` to a requirement.
pub open spec fn traces(es: Seq<Entry<Element>>, link: Link, k: int) -> bool {
    link_ends(es, link) matches Some(ends) && ends.0 == k && es[ends.1].value is Req
}

/// Some link leads from the entry `k` to a requirement.
pub open spec fn leads_to_requirement(es: Seq<Entry<Element>>, links: Seq<Link>, k: int) -> bool {
    exists|l: int| 0 <= l < links.len() && traces(es, #[trigger] links[l], k)
}

/// The breaches among the first `upto` entries: use cases that no link
/// leads from to a requirement.
pub open spec fn trace_breaches(es: Seq<Entry<Element>>, links: Seq<Link>, upto: int) -> Seq<Breach>
    decreases upto,
{
    if upto <= 0 {
        Seq::empty()
    } else {
        let rest = trace_breaches(es, links, upto - 1);
        match es[upto - 1].value {
            Element::UseCase(u) => if leads_to_requirement(es, links, upto - 1) {
                rest
            } else {
                rest.push(Breach::UntracedUseCase { id: u.id@ })
            },
            _ => rest,
        }
    }
}

/// An earlier entry holds an element with the identifier of the entry `k`.
pub open spec fn seen_before(es: Seq<Entry<Element>>, k: int) -> bool {
    exists|j: int| 0 <= j < k && (#[trigger] es[j]).value.id_of() == es[k].value.id_of()
}

/// The key under which an element belongs: its identifier, and for a
/// configuration its identifier after `CONFIG:`.
pub open spec fn expected_key(e: Element) -> Seq<char> {
    if e is Config {
        "CONFIG:"@ + e.id_of()
    } else {
        e.id_of()
    }
}

/// The breaches of the entry `k` against the rules on identifiers and keys.
pub open spec fn id_breaches_of(es: Seq<Entry<Element>>, k: int) -> Seq<Breach> {
    let first = if seen_before(es, k) {
        seq![Breach::DuplicateId { id: es[k].value.id_of() }]
    } else {
        Seq::empty()
    };
    if es[k].key@ != expected_key(es[k].value) {
        first.push(Breach::KeyMismatch { key: es[k].key@, expected: expected_key(es[k].value) })
    } else {
        first
    }
}

/// The breaches of the first `upto` entries against the rules on identifiers and keys.
pub open spec fn id_breaches(es: Seq<Entry<Element>>, upto: int) -> Seq<Breach>
    decreases upto,
{
    if upto <= 0 {
        Seq::empty()
    } else {
        id_breaches(es, upto - 1) + id_breaches_of(es, upto - 1)
    }
}

/// The breaches of a feature: a parent other than `ROOT` that is no key, and
/// a group with fewer than two children.
pub open spec fn feature_breaches_of(es: Seq<Entry<Element>>, k: int) -> Seq<Breach> {
    match es[k].value {
        Element::Feature(f) => {
            let first = match f.parent {
                Some(p) => if p@ != "ROOT"@ && !has_key(es, p@) {
                    seq![Breach::MissingParent { feature: f.id@, parent: p@ }]
                } else {
                    Seq::empty()
                },
                None => Seq::empty(),
            };
            match f.group {
                Some(g) => if children(es, f.id@, es.len() as int).len() < 2 {
                    first.push(
                        Breach::SmallGroup {
                            feature: f.id@,
                            group: g@,
                            children: children(es, f.id@, es.len() as int).len() as usize,
                        },
                    )
                } else {
                    first
                },
                None => first,
            }
        },
        _ => Seq::empty(),
    }
}

/// The breaches of the features among the first `upto` entries.
pub open spec fn feature_breaches(es: Seq<Entry<Element>>, upto: int) -> Seq<Breach>
    decreases upto,
{
    if upto <= 0 {
        Seq::empty()
    } else {
        feature_breaches(es, upto - 1) + feature_breaches_of(es, upto - 1)
    }
}

/// The breaches among the first `upto` parts of a block: part types that are no keys.
pub open spec fn part_breaches(
    es: Seq<Entry<Element>>,
    block: Seq<char>,
    parts: Seq<SysmlPart>,
    upto: int,
) -> Seq<Breach>
    decreases upto,
{
    if upto <= 0 {
        Seq::empty()
    } else if !has_key(es, parts[upto - 1].part_type@) {
        part_breaches(es, block, parts, upto - 1).push(
            Breach::MissingPartType { block, part_type: parts[upto - 1].part_type@ },
        )
    } else {
        part_breaches(es, block, parts, upto - 1)
    }
}

/// The breaches of the entry `k` where it is a block definition.
pub open spec fn block_breaches_of(es: Seq<Entry<Element>>, k: int) -> Seq<Breach> {
    match es[k].value {
        Element::BlockDefinition(b) => part_breaches(es, b.id@, b.parts@, b.parts@.len() as int),
        _ => Seq::empty(),
    }
}

/// The breaches of the block definitions among the first `upto` entries.
pub open spec fn block_breaches(es: Seq<Entry<Element>>, upto: int) -> Seq<Breach>
    decreases upto,
{
    if upto <= 0 {
        Seq::empty()
    } else {
        block_breaches(es, upto - 1) + block_breaches_of(es, upto - 1)
    }
}

/// What is wrong with a selection of a configuration, if anything: the
/// feature is abstract, the element is no feature, or the key does not exist.
pub open spec fn selection_breach(es: Seq<Entry<Element>>, config: Seq<char>, selected: Seq<char>) -> Option<
    Breach,
> {
    match value_at(es, selected) {
        Some(Element::Feature(f)) => if f.concrete == Some(false) {
            Some(Breach::AbstractSelected { config, feature: selected })
        } else {
            None
        },
        Some(other) => Some(
            Breach::NonFeatureSelected { config, feature: selected, kind: other.kind_of() },
        ),
        None => Some(Breach::UnknownSelected { config, feature: selected }),
    }
}

/// The breaches among the first `upto` selections of a configuration. A
/// feature that is selected again adds nothing.
pub open spec fn selection_breaches(
    es: Seq<Entry<Element>>,
    config: Seq<char>,
    selected: Seq<String>,
    upto: int,
) -> Seq<Breach>
    decreases upto,
{
    if upto <= 0 {
        Seq::empty()
    } else if !first_time(selected, upto - 1) {
        selection_breaches(es, config, selected, upto - 1)
    } else {
        match selection_breach(es, config, selected[upto - 1]@) {
            Some(b) => selection_breaches(es, config, selected, upto - 1).push(b),
            None => selection_breaches(es, config, selected, upto - 1),
        }
    }
}

/// The breaches of the entry `k` where it is a configuration.
pub open spec fn config_breaches_of(es: Seq<Entry<Element>>, k: int) -> Seq<Breach> {
    match es[k].value {
        Element::Config(c) => selection_breaches(es, c.id@, c.selected@, c.selected@.len() as int),
        _ => Seq::empty(),
    }
}

/// The breaches of the configurations among the first `upto` entries.
pub open spec fn config_breaches(es: Seq<Entry<Element>>, upto: int) -> Seq<Breach>
    decreases upto,
{
    if upto <= 0 {
        Seq::empty()
    } else {
        config_breaches(es, upto - 1) + config_breaches_of(es, upto - 1)
    }
}

/// The entry `k` is a feature without a parent, or with the parent `ROOT`.
pub open spec fn is_root_feature(es: Seq<Entry<Element>>, k: int) -> bool {
    is_feature(es, k) && (feature(es, k).parent is None || feature(es, k).parent->0@ == "ROOT"@)
}

/// `k` is the first entry that is a root feature.
pub open spec fn is_first_root(es: Seq<Entry<Element>>, k: int) -> bool {
    &&& is_root_feature(es, k)
    &&& forall|j: int| 0 <= j < k ==> !#[trigger] is_root_feature(es, j)
}

/// The first entry that is a root feature, if there is one.
pub open spec fn first_root(es: Seq<Entry<Element>>) -> Option<int> {
    if exists|k: int| is_first_root(es, k) {
        Some(choose|k: int| is_first_root(es, k))
    } else {
        None
    }
}

/// The breach of the feature model, where the registry has a root feature
/// and the model under it is not consistent.
pub open spec fn model_breaches(es: Seq<Entry<Element>>) -> Seq<Breach> {
    match first_root(es) {
        Some(r) => if model_consistent(es, feature(es, r).id@) {
            Seq::empty()
        } else {
            seq![Breach::Inconsistent { message: model_message(es, feature(es, r).id@) }]
        },
        None => Seq::empty(),
    }
}

/// All breaches of a registry with its links, in the order of the rules.
pub open spec fn all_breaches(es: Seq<Entry<Element>>, links: Seq<Link>) -> Seq<Breach> {
    link_breaches(es, links, links.len() as int) + trace_breaches(es, links, es.len() as int)
        + id_breaches(es, es.len() as int) + feature_breaches(es, es.len() as int) + block_breaches(
        es,
        es.len() as int,
    ) + config_breaches(es, es.len() as int) + model_breaches(es)
}

/// The messages of the first `upto` breaches, each on a line of its own.
pub open spec fn joined(bs: Seq<Breach>, upto: int) -> Seq<char>
    decreases upto,
{
    if upto <= 0 {
        Seq::empty()
    } else if upto == 1 {
        breach_text(bs[0])
    } else {
        joined(bs, upto - 1) + "\n  - "@ + breach_text(bs[upto - 1])
    }
}

/// The message that sums the check up.
pub open spec fn rules_message(bs: Seq<Breach>, elements: nat, links: nat) -> Seq<char> {
    if bs.len() == 0 {
        "✓ All validation rules passed! Validated "@ + decimal_text(elements) + " elements, "@
            + decimal_text(links) + " links"@
    } else {
        "✗ Validation failed with "@ + decimal_text(bs.len()) + " violations:\n"@ + joined(
            bs,
            bs.len() as int,
        )
    }
}

/// The feature model of the registry can be encoded within the limits of the solver.
pub open spec fn model_fits(es: Seq<Entry<Element>>) -> bool {
    first_root(es) matches Some(r) ==> encoding_mentions(es, feature(es, r).id@).len()
        <= MENTION_LIMIT
}

impl Violation {
    /// The message of the breach.
    pub fn message(&self) -> (s: String)
        ensures
            s@ == breach_text(self@),
    {
        match self {
            Violation::DanglingLink { source, target } => {
                let mut s = "Link references non-existent element: ".to_owned();
                s.append(source.as_str());
                s.append(" -> ");
                s.append(target.as_str());
                s
            },
            Violation::UntracedUseCase { id } => {
                let mut s = "Use case ".to_owned();
                s.append(id.as_str());
                s.append(" is not traced to any requirement");
                s
            },
            Violation::DuplicateId { id } => {
                let mut s = "Duplicate ID: ".to_owned();
                s.append(id.as_str());
                s
            },
            Violation::KeyMismatch { key, expected } => {
                let mut s = "Registry key mismatch: key='".to_owned();
                s.append(key.as_str());
                s.append("' but expected '");
                s.append(expected.as_str());
                s.append("'");
                s
            },
            Violation::MissingParent { feature_id, parent_id } => {
                let mut s = "Feature ".to_owned();
                s.append(feature_id.as_str());
                s.append(" references non-existent parent: ");
                s.append(parent_id.as_str());
                s
            },
            Violation::SmallGroup { feature_id, group, children } => {
                let mut s = "Feature ".to_owned();
                s.append(feature_id.as_str());
                s.append(" has \"");
                s.append(group.as_str());
                s.append("\" group but only ");
                s.append(decimal(*children as u64).as_str());
                s.append(" children (need >= 2)");
                s
            },
            Violation::MissingPartType { block_id, part_type } => {
                let mut s = "Block ".to_owned();
                s.append(block_id.as_str());
                s.append(" references non-existent part type: ");
                s.append(part_type.as_str());
                s
            },
            Violation::AbstractSelected { config_id, feature_id } => {
                let mut s = "Config ".to_owned();
                s.append(config_id.as_str());
                s.append(" selects abstract feature: ");
                s.append(feature_id.as_str());
                s
            },
            Violation::NonFeatureSelected { config_id, feature_id, kind } => {
                let mut s = "Config ".to_owned();
                s.append(config_id.as_str());
                s.append(" selects non-feature element: ");
                s.append(feature_id.as_str());
                s.append(" (type: ");
                s.append(kind.as_str());
                s.append(")");
                s
            },
            Violation::UnknownSelected { config_id, feature_id } => {
                let mut s = "Config ".to_owned();
                s.append(config_id.as_str());
                s.append(" selects non-existent feature: ");
                s.append(feature_id.as_str());
                s
            },
            Violation::Inconsistent { message } => {
                let mut s = "Feature model is INCONSISTENT (SAT check failed): ".to_owned();
                s.append(message.as_str());
                s
            },
        }
    }
}

fn report(violations: &mut Vec<Violation>, v: Violation)
    ensures
        views(final(violations)@) == views(old(violations)@).push(v@),
{
    violations.push(v);
    assert(views(violations@) =~= views(old(violations)@).push(v@));
}

/// The edges of the first `upto` links join entries of the registry, and the
/// graph has an edge between two entries exactly where a link joins them.
proof fn lemma_link_edges(es: Seq<Entry<Element>>, links: Seq<Link>, upto: int)
    requires
        upto <= links.len(),
        es.len() <= usize::MAX,
    ensures
        link_edges(es, links, upto).len() <= if upto < 0 {
            0
        } else {
            upto
        },
        forall|i: int|
            0 <= i < link_edges(es, links, upto).len() ==> (#[trigger] link_edges(es, links, upto)[i]).0
                < es.len() && link_edges(es, links, upto)[i].1 < es.len(),
        forall|a: usize, b: usize| #[trigger]
            has_edge(link_edges(es, links, upto), a, b) <==> exists|l: int|
                0 <= l < upto && link_ends(es, #[trigger] links[l]) == Some((a as int, b as int)),
    decreases upto,
{
    let edges = link_edges(es, links, upto);
    if upto <= 0 {
        assert forall|a: usize, b: usize| #[trigger] has_edge(edges, a, b) <==> exists|l: int|
            0 <= l < upto && link_ends(es, #[trigger] links[l]) == Some((a as int, b as int)) by {}
    } else {
        lemma_link_edges(es, links, upto - 1);
        let rest = link_edges(es, links, upto - 1);
        let link = links[upto - 1];
        if key_index(es, link.source@) is Some {
            lemma_key_index_some(es, link.source@);
        }
        if key_index(es, link.target@) is Some {
            lemma_key_index_some(es, link.target@);
        }
        assert forall|i: int| 0 <= i < edges.len() implies (#[trigger] edges[i]).0 < es.len()
            && edges[i].1 < es.len() by {
            if i < rest.len() {
                assert(edges[i] == rest[i]);
            }
        }
        assert forall|a: usize, b: usize| #[trigger] has_edge(edges, a, b) <==> exists|l: int|
            0 <= l < upto && link_ends(es, #[trigger] links[l]) == Some((a as int, b as int)) by {
            if has_edge(edges, a, b) {
                let i = choose|i: int| 0 <= i < edges.len() && #[trigger] edges[i] == (a, b);
                if i < rest.len() {
                    assert(rest[i] == edges[i]);
                    assert(has_edge(rest, a, b));
                    let l = choose|l: int|
                        0 <= l < upto - 1 && link_ends(es, #[trigger] links[l]) == Some(
                            (a as int, b as int),
                        );
                    assert(link_ends(es, links[l]) == Some((a as int, b as int)));
                } else {
                    assert(link_ends(es, links[upto - 1]) == Some((a as int, b as int)));
                }
            }
            if exists|l: int|
                0 <= l < upto && link_ends(es, #[trigger] links[l]) == Some((a as int, b as int)) {
                let l = choose|l: int|
                    0 <= l < upto && link_ends(es, #[trigger] links[l]) == Some((a as int, b as int));
                if l < upto - 1 {
                    assert(has_edge(rest, a, b));
                    let i = choose|i: int| 0 <= i < rest.len() && #[trigger] rest[i] == (a, b);
                    assert(edges[i] == rest[i]);
                } else {
                    assert(edges[edges.len() - 1] == (a, b));
                }
            }
        }
    }
}

/// Adds an edge for each link whose ends are keys of the registry, and
/// reports every other link.
fn check_links(
    registry: &Registry,
    links: &Vec<Link>,
    graph: &mut petgraph::graph::Graph<usize, usize>,
    violations: &mut Vec<Violation>,
)
    requires
        graph_nodes(*old(graph)).len() == registry@.len(),
        graph_edges(*old(graph)).len() == 0,
        registry@.len() <= u32::MAX,
        links@.len() < u32::MAX,
    ensures
        graph_nodes(*final(graph)) == graph_nodes(*old(graph)),
        graph_edges(*final(graph)) == link_edges(registry@, links@, links@.len() as int),
        views(final(violations)@) == views(old(violations)@) + link_breaches(
            registry@,
            links@,
            links@.len() as int,
        ),
{
    let ghost es = registry@;
    let ghost found0 = views(violations@);
    let ghost nodes = graph_nodes(*graph);
    let mut l: usize = 0;
    assert(graph_edges(*graph) =~= link_edges(es, links@, 0));
    assert(views(violations@) =~= found0 + link_breaches(es, links@, 0));
    while l < links.len()
        invariant
            l <= links.len(),
            es == registry@,
            es.len() <= u32::MAX,
            links@.len() < u32::MAX,
            graph_nodes(*graph) == nodes,
            nodes.len() == es.len(),
            graph_edges(*graph) == link_edges(es, links@, l as int),
            views(violations@) == found0 + link_breaches(es, links@, l as int),
        decreases links.len() - l,
    {
        let link = &links[l];
        proof {
            lemma_link_edges(es, links@, l as int);
        }
        let source = registry.find(&link.source);
        let target = registry.find(&link.target);
        match (source, target) {
            (Some(a), Some(b)) => {
                graph_add_edge(graph, a, b, l);
            },
            _ => {
                report(
                    violations,
                    Violation::DanglingLink {
                        source: link.source.clone(),
                        target: link.target.clone(),
                    },
                );
            },
        }
        assert(views(violations@) =~= found0 + link_breaches(es, links@, l + 1));
        l = l + 1;
    }
}

/// Reports every use case from which no edge of the graph leads to a requirement.
fn check_traces(
    registry: &Registry,
    Ghost(links): Ghost<Seq<Link>>,
    graph: &petgraph::graph::Graph<usize, usize>,
    violations: &mut Vec<Violation>,
)
    requires
        graph_nodes(*graph) == Seq::new(registry@.len(), |i: int| i as usize),
        graph_edges(*graph) == link_edges(registry@, links, links.len() as int),
        registry@.len() <= u32::MAX,
    ensures
        views(final(violations)@) == views(old(violations)@) + trace_breaches(
            registry@,
            links,
            registry@.len() as int,
        ),
{
    let ghost es = registry@;
    let ghost found0 = views(violations@);
    let ghost edges = graph_edges(*graph);
    proof {
        lemma_link_edges(es, links, links.len() as int);
    }
    let indices = graph_node_indices(graph);
    let mut t: usize = 0;
    assert(views(violations@) =~= found0 + trace_breaches(es, links, 0));
    while t < indices.len()
        invariant
            t <= indices.len(),
            es == registry@,
            es.len() <= u32::MAX,
            indices@ == Seq::new(es.len(), |i: int| i as usize),
            graph_nodes(*graph) == Seq::new(es.len(), |i: int| i as usize),
            edges == graph_edges(*graph),
            edges == link_edges(es, links, links.len() as int),
            forall|i: int|
                0 <= i < edges.len() ==> (#[trigger] edges[i]).0 < es.len() && edges[i].1 < es.len(),
            forall|a: usize, b: usize| #[trigger]
                has_edge(edges, a, b) <==> exists|l: int|
                    0 <= l < links.len() && link_ends(es, #[trigger] links[l]) == Some(
                        (a as int, b as int),
                    ),
            views(violations@) == found0 + trace_breaches(es, links, t as int),
        decreases indices.len() - t,
    {
        let node = indices[t];
        assert(node == t);
        let k = graph_node_weight(graph, node).unwrap();
        assert(k == t);
        if let Element::UseCase(use_case) = &registry.entry(k).value {
            let targets = graph_out_targets(graph, node);
            proof {
                lemma_out_targets(edges, node);
            }
            let mut traced = false;
            let mut i: usize = 0;
            while i < targets.len()
                invariant
                    i <= targets.len(),
                    es == registry@,
                    es.len() <= u32::MAX,
                    graph_nodes(*graph) == Seq::new(es.len(), |i: int| i as usize),
                    targets@ == out_targets(edges, node),
                    forall|u: int| 0 <= u < targets@.len() ==> has_edge(edges, node, #[trigger] targets@[u]),
                    forall|i: int|
                        0 <= i < edges.len() ==> (#[trigger] edges[i]).0 < es.len() && edges[i].1
                            < es.len(),
                    traced == exists|u: int|
                        0 <= u < i && es[(#[trigger] targets@[u]) as int].value is Req,
                decreases targets.len() - i,
            {
                let target = targets[i];
                proof {
                    assert(has_edge(edges, node, target));
                    let e = choose|e: int| 0 <= e < edges.len() && #[trigger] edges[e] == (node, target);
                    assert(edges[e].1 < es.len());
                }
                let w = graph_node_weight(graph, target).unwrap();
                assert(w == target);
                if let Element::Req(_) = &registry.entry(w).value {
                    traced = true;
                }
                i = i + 1;
            }
            proof {
                if traced {
                    let u = choose|u: int|
                        0 <= u < targets@.len() && es[(#[trigger] targets@[u]) as int].value is Req;
                    let b = targets@[u];
                    assert(has_edge(edges, node, b));
                    let l = choose|l: int|
                        0 <= l < links.len() && link_ends(es, #[trigger] links[l]) == Some(
                            (node as int, b as int),
                        );
                    assert(traces(es, links[l], k as int));
                }
                if leads_to_requirement(es, links, k as int) {
                    let l = choose|l: int| 0 <= l < links.len() && traces(es, #[trigger] links[l], k as int);
                    let ends = link_ends(es, links[l])->0;
                    if key_index(es, links[l].target@) is Some {
                        lemma_key_index_some(es, links[l].target@);
                    }
                    let b = ends.1 as usize;
                    assert(link_ends(es, links[l]) == Some((node as int, b as int)));
                    assert(has_edge(edges, node, b));
                    assert(targets@.contains(b));
                    let u = choose|u: int| 0 <= u < targets@.len() && targets@[u] == b;
                    assert(es[targets@[u] as int].value is Req);
                }
                assert(traced == leads_to_requirement(es, links, k as int));
            }
            if !traced {
                report(violations, Violation::UntracedUseCase { id: use_case.id.clone() });
            }
        }
        assert(views(violations@) =~= found0 + trace_breaches(es, links, t + 1));
        t = t + 1;
    }
}

/// Reports identifiers that stand twice and keys that do not fit their elements.
fn check_ids(registry: &Registry, violations: &mut Vec<Violation>)
    ensures
        views(final(violations)@) == views(old(violations)@) + id_breaches(
            registry@,
            registry@.len() as int,
        ),
{
    let ghost es = registry@;
    let ghost found0 = views(violations@);
    let mut k: usize = 0;
    assert(views(violations@) =~= found0 + id_breaches(es, 0));
    while k < registry.len()
        invariant
            k <= registry@.len(),
            es == registry@,
            views(violations@) == found0 + id_breaches(es, k as int),
        decreases registry@.len() - k,
    {
        let entry = registry.entry(k);
        let id = entry.value.id();
        let mut seen = false;
        let mut j: usize = 0;
        while j < k
            invariant
                j <= k,
                k < registry@.len(),
                es == registry@,
                id@ == es[k as int].value.id_of(),
                seen == exists|i: int|
                    0 <= i < j && (#[trigger] es[i]).value.id_of() == es[k as int].value.id_of(),
            decreases k - j,
        {
            if *registry.entry(j).value.id() == *id {
                seen = true;
            }
            j = j + 1;
        }
        let ghost before = views(violations@);
        if seen {
            report(violations, Violation::DuplicateId { id: id.clone() });
        }
        let expected = if let Element::Config(_) = &entry.value {
            let mut e = "CONFIG:".to_owned();
            e.append(id.as_str());
            e
        } else {
            id.clone()
        };
        if !(entry.key == expected) {
            report(violations, Violation::KeyMismatch { key: entry.key.clone(), expected });
        }
        assert(views(violations@) =~= before + id_breaches_of(es, k as int));
        assert(views(violations@) =~= found0 + id_breaches(es, k + 1));
        k = k + 1;
    }
}

/// The number of children of the feature `pid`.
fn count_children(registry: &Registry, pid: &String) -> (n: usize)
    ensures
        n == children(registry@, pid@, registry@.len() as int).len(),
{
    let mut n: usize = 0;
    let mut k: usize = 0;
    while k < registry.len()
        invariant
            k <= registry@.len(),
            n <= k,
            n == children(registry@, pid@, k as int).len(),
        decreases registry@.len() - k,
    {
        if let Element::Feature(f) = &registry.entry(k).value {
            if let Some(p) = &f.parent {
                if *p == *pid {
                    n = n + 1;
                }
            }
        }
        k = k + 1;
    }
    n
}

/// Reports features whose parent does not exist and groups that are too small.
fn check_features(registry: &Registry, violations: &mut Vec<Violation>)
    ensures
        views(final(violations)@) == views(old(violations)@) + feature_breaches(
            registry@,
            registry@.len() as int,
        ),
{
    let ghost es = registry@;
    let ghost found0 = views(violations@);
    let root_word = "ROOT".to_owned();
    let mut k: usize = 0;
    assert(views(violations@) =~= found0 + feature_breaches(es, 0));
    while k < registry.len()
        invariant
            k <= registry@.len(),
            es == registry@,
            root_word@ == "ROOT"@,
            views(violations@) == found0 + feature_breaches(es, k as int),
        decreases registry@.len() - k,
    {
        let ghost before = views(violations@);
        if let Element::Feature(f) = &registry.entry(k).value {
            if let Some(parent_id) = &f.parent {
                if !(*parent_id == root_word) && registry.find(parent_id).is_none() {
                    report(
                        violations,
                        Violation::MissingParent {
                            feature_id: f.id.clone(),
                            parent_id: parent_id.clone(),
                        },
                    );
                }
            }
            if let Some(group) = &f.group {
                let count = count_children(registry, &f.id);
                if count < 2 {
                    report(
                        violations,
                        Violation::SmallGroup {
                            feature_id: f.id.clone(),
                            group: group.clone(),
                            children: count,
                        },
                    );
                }
            }
        }
        assert(views(violations@) =~= before + feature_breaches_of(es, k as int));
        assert(views(violations@) =~= found0 + feature_breaches(es, k + 1));
        k = k + 1;
    }
}

/// Reports the parts of a block whose type does not exist.
fn check_parts(registry: &Registry, block: &BlockDefinitionElement, violations: &mut Vec<Violation>)
    ensures
        views(final(violations)@) == views(old(violations)@) + part_breaches(
            registry@,
            block.id@,
            block.parts@,
            block.parts@.len() as int,
        ),
{
    let ghost es = registry@;
    let ghost found0 = views(violations@);
    let mut i: usize = 0;
    assert(views(violations@) =~= found0 + part_breaches(es, block.id@, block.parts@, 0));
    while i < block.parts.len()
        invariant
            i <= block.parts.len(),
            es == registry@,
            views(violations@) == found0 + part_breaches(es, block.id@, block.parts@, i as int),
        decreases block.parts.len() - i,
    {
        let part = &block.parts[i];
        if registry.find(&part.part_type).is_none() {
            report(
                violations,
                Violation::MissingPartType {
                    block_id: block.id.clone(),
                    part_type: part.part_type.clone(),
                },
            );
        }
        assert(views(violations@) =~= found0 + part_breaches(es, block.id@, block.parts@, i + 1));
        i = i + 1;
    }
}

/// Reports part types that do not exist, block by block.
fn check_blocks(registry: &Registry, violations: &mut Vec<Violation>)
    ensures
        views(final(violations)@) == views(old(violations)@) + block_breaches(
            registry@,
            registry@.len() as int,
        ),
{
    let ghost es = registry@;
    let ghost found0 = views(violations@);
    let mut k: usize = 0;
    assert(views(violations@) =~= found0 + block_breaches(es, 0));
    while k < registry.len()
        invariant
            k <= registry@.len(),
            es == registry@,
            views(violations@) == found0 + block_breaches(es, k as int),
        decreases registry@.len() - k,
    {
        let ghost before = views(violations@);
        if let Element::BlockDefinition(block) = &registry.entry(k).value {
            check_parts(registry, block, violations);
        }
        assert(views(violations@) =~= before + block_breaches_of(es, k as int));
        assert(views(violations@) =~= found0 + block_breaches(es, k + 1));
        k = k + 1;
    }
}

/// Reports the selections of a configuration that are abstract, no features, or unknown.
fn check_selections(registry: &Registry, config: &ConfigElement, violations: &mut Vec<Violation>)
    ensures
        views(final(violations)@) == views(old(violations)@) + selection_breaches(
            registry@,
            config.id@,
            config.selected@,
            config.selected@.len() as int,
        ),
{
    let ghost es = registry@;
    let ghost found0 = views(violations@);
    let mut i: usize = 0;
    assert(views(violations@) =~= found0 + selection_breaches(es, config.id@, config.selected@, 0));
    while i < config.selected.len()
        invariant
            i <= config.selected.len(),
            es == registry@,
            views(violations@) == found0 + selection_breaches(
                es,
                config.id@,
                config.selected@,
                i as int,
            ),
        decreases config.selected.len() - i,
    {
        if is_first_time(config.selected.as_slice(), i) {
            let feature_id = &config.selected[i];
            match registry.get(feature_id) {
                Some(Element::Feature(f)) => {
                    if f.is_abstract() {
                        report(
                            violations,
                            Violation::AbstractSelected {
                                config_id: config.id.clone(),
                                feature_id: feature_id.clone(),
                            },
                        );
                    }
                },
                Some(other) => {
                    report(
                        violations,
                        Violation::NonFeatureSelected {
                            config_id: config.id.clone(),
                            feature_id: feature_id.clone(),
                            kind: other.kind_name().to_owned(),
                        },
                    );
                },
                None => {
                    report(
                        violations,
                        Violation::UnknownSelected {
                            config_id: config.id.clone(),
                            feature_id: feature_id.clone(),
                        },
                    );
                },
            }
        }
        assert(views(violations@) =~= found0 + selection_breaches(
            es,
            config.id@,
            config.selected@,
            i + 1,
        ));
        i = i + 1;
    }
}

/// Reports wrong selections, configuration by configuration.
fn check_configs(registry: &Registry, violations: &mut Vec<Violation>)
    ensures
        views(final(violations)@) == views(old(violations)@) + config_breaches(
            registry@,
            registry@.len() as int,
        ),
{
    let ghost es = registry@;
    let ghost found0 = views(violations@);
    let mut k: usize = 0;
    assert(views(violations@) =~= found0 + config_breaches(es, 0));
    while k < registry.len()
        invariant
            k <= registry@.len(),
            es == registry@,
            views(violations@) == found0 + config_breaches(es, k as int),
        decreases registry@.len() - k,
    {
        let ghost before = views(violations@);
        if let Element::Config(config) = &registry.entry(k).value {
            check_selections(registry, config, violations);
        }
        assert(views(violations@) =~= before + config_breaches_of(es, k as int));
        assert(views(violations@) =~= found0 + config_breaches(es, k + 1));
        k = k + 1;
    }
}

/// The first entry that is a feature without a parent, or with the parent `ROOT`.
pub fn find_root(registry: &Registry) -> (r: Option<usize>)
    ensures
        match r {
            Some(k) => first_root(registry@) == Some(k as int) && is_feature(registry@, k as int),
            None => first_root(registry@) is None,
        },
{
    let root_word = "ROOT".to_owned();
    let mut k: usize = 0;
    while k < registry.len()
        invariant
            k <= registry@.len(),
            root_word@ == "ROOT"@,
            forall|j: int| 0 <= j < k ==> !#[trigger] is_root_feature(registry@, j),
        decreases registry@.len() - k,
    {
        if let Element::Feature(f) = &registry.entry(k).value {
            let is_root = match &f.parent {
                None => true,
                Some(p) => *p == root_word,
            };
            if is_root {
                proof {
                    assert(is_first_root(registry@, k as int));
                    let c = choose|c: int| is_first_root(registry@, c);
                    if c < k {
                        assert(!is_root_feature(registry@, c));
                    }
                    if k < c {
                        assert(!is_root_feature(registry@, k as int));
                    }
                }
                return Some(k);
            }
        }
        k = k + 1;
    }
    proof {
        if exists|c: int| is_first_root(registry@, c) {
            let c = choose|c: int| is_first_root(registry@, c);
            assert(is_root_feature(registry@, c));
        }
    }
    None
}

/// Reports a feature model that has no valid configuration.
fn check_model(registry: &Registry, violations: &mut Vec<Violation>)
    requires
        model_fits(registry@),
    ensures
        views(final(violations)@) == views(old(violations)@) + model_breaches(registry@),
{
    let ghost found0 = views(violations@);
    if let Some(r) = find_root(registry) {
        let root = registry.entry(r).value.as_feature().unwrap();
        let validation = validate_feature_model(registry, root.id.as_str());
        if !validation.is_consistent {
            report(violations, Violation::Inconsistent { message: validation.message });
        }
    }
    assert(views(violations@) =~= found0 + model_breaches(registry@));
}

/// Whether a registry and its links are within what the check of the rules
/// can take: fewer entries and fewer links than the graph of links can count,
/// and a feature model that fits the limits of the solver.
pub fn rules_fit(registry: &Registry, links: &Vec<Link>) -> (ok: bool)
    ensures
        ok == (registry@.len() < u32::MAX && links@.len() < u32::MAX && model_fits(registry@)),
{
    if registry.len() >= 4294967295 || links.len() >= 4294967295 {
        return false;
    }
    match find_root(registry) {
        Some(r) => {
            let root = registry.entry(r).value.as_feature().unwrap();
            encoding_fits(registry, root.id.as_str(), 0)
        },
        None => true,
    }
}

/// Checks the rules on a registry and its links, and sums up what was found.
///
/// The registry and the links must be fewer than the graph of links can
/// count, and the feature model must fit the limits of the solver.
pub fn validate_rules(registry: &Registry, links: &Vec<Link>) -> (r: ValidationResult)
    requires
        registry@.len() < u32::MAX,
        links@.len() < u32::MAX,
        model_fits(registry@),
    ensures
        r.passed == (all_breaches(registry@, links@).len() == 0),
        r.total_elements == registry@.len(),
        r.message@ == rules_message(all_breaches(registry@, links@), registry@.len(), links@.len()),
{
    let violations = find_violations(registry, links);
    let ghost bs = all_breaches(registry@, links@);
    let passed = violations.len() == 0;
    let message = if passed {
        let mut m = "✓ All validation rules passed! Validated ".to_owned();
        m.append(decimal(registry.len() as u64).as_str());
        m.append(" elements, ");
        m.append(decimal(links.len() as u64).as_str());
        m.append(" links");
        m
    } else {
        let mut m = "✗ Validation failed with ".to_owned();
        m.append(decimal(violations.len() as u64).as_str());
        m.append(" violations:\n");
        let ghost head = m@;
        let mut i: usize = 0;
        while i < violations.len()
            invariant
                i <= violations.len(),
                views(violations@) == bs,
                m@ == head + joined(bs, i as int),
            decreases violations.len() - i,
        {
            if i > 0 {
                m.append("\n  - ");
            }
            m.append(violations[i].message().as_str());
            proof {
                assert(violations@[i as int]@ == bs[i as int]);
                assert(m@ =~= head + joined(bs, i + 1));
            }
            i = i + 1;
        }
        m
    };
    ValidationResult { passed, total_elements: registry.len(), message }
}

/// Every breach of the rules by a registry and its links, in the order of the rules.
pub fn find_violations(registry: &Registry, links: &Vec<Link>) -> (violations: Vec<Violation>)
    requires
        registry@.len() < u32::MAX,
        links@.len() < u32::MAX,
        model_fits(registry@),
    ensures
        views(violations@) == all_breaches(registry@, links@),
{
    let ghost es = registry@;
    let mut violations: Vec<Violation> = Vec::new();
    let mut graph = graph_new();
    let mut k: usize = 0;
    while k < registry.len()
        invariant
            k <= registry@.len(),
            registry@.len() < u32::MAX,
            graph_nodes(graph) == Seq::new(k as nat, |i: int| i as usize),
            graph_edges(graph) == Seq::<(usize, usize)>::empty(),
        decreases registry@.len() - k,
    {
        graph_add_node(&mut graph, k);
        assert(graph_nodes(graph) =~= Seq::new((k + 1) as nat, |i: int| i as usize));
        k = k + 1;
    }
    assert(views(violations@) =~= Seq::<Breach>::empty());
    check_links(registry, links, &mut graph, &mut violations);
    check_traces(registry, Ghost(links@), &graph, &mut violations);
    check_ids(registry, &mut violations);
    check_features(registry, &mut violations);
    check_blocks(registry, &mut violations);
    check_configs(registry, &mut violations);
    check_model(registry, &mut violations);
    assert(views(violations@) =~= all_breaches(es, links@));
    violations
}

} // verus!
