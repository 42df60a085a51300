//! The graph of links between the elements of a registry, kept in a
//! `petgraph` graph: a node for each entry, an edge for each link.

use vstd::prelude::*;

verus! {

/// `petgraph::Directed`, the marker of a graph with directed edges. Nothing is
/// claimed of it; it stands in the type of the graph only.
#[verifier::external_type_specification]
#[verifier::external_body]
pub struct ExDirected(petgraph::Directed);

/// `petgraph::graph::Graph`. Its inside is not seen; what it holds is spoken
/// of by `graph_nodes` and `graph_edges` alone.
#[verifier::external_type_specification]
#[verifier::external_body]
#[verifier::reject_recursive_types(N)]
#[verifier::reject_recursive_types(E)]
#[verifier::reject_recursive_types(Ty)]
#[verifier::reject_recursive_types(Ix)]
pub struct ExGraph<N, E, Ty, Ix>(petgraph::graph::Graph<N, E, Ty, Ix>);

/// The weights of the nodes of a graph, by node index.
pub uninterp spec fn graph_nodes(g: petgraph::graph::Graph<usize, usize>) -> Seq<usize>;

/// The edges of a graph in the order in which they were added, each with the
/// index of its source and the index of its target.
pub uninterp spec fn graph_edges(g: petgraph::graph::Graph<usize, usize>) -> Seq<(usize, usize)>;

/// The targets of the edges that leave node `a`, the edge added last first.
pub open spec fn out_targets(edges: Seq<(usize, usize)>, a: usize) -> Seq<usize>
    decreases edges.len(),
{
    if edges.len() == 0 {
        Seq::empty()
    } else if edges.last().0 == a {
        seq![edges.last().1] + out_targets(edges.drop_last(), a)
    } else {
        out_targets(edges.drop_last(), a)
    }
}

/// `petgraph::graph::Graph::new`: a directed graph without nodes or edges.
#[verifier::external_body]
pub(crate) fn graph_new() -> (g: petgraph::graph::Graph<usize, usize>)
    ensures
        graph_nodes(g) == Seq::<usize>::empty(),
        graph_edges(g) == Seq::<(usize, usize)>::empty(),
{
    petgraph::graph::Graph::new()
}

/// `Graph::add_node`: the node is added after those that the graph has, and
/// its index is their number; the edges stay. The graph must hold fewer nodes
/// than its index type can count.
#[verifier::external_body]
pub(crate) fn graph_add_node(g: &mut petgraph::graph::Graph<usize, usize>, weight: usize) -> (ix: usize)
    requires
        graph_nodes(*old(g)).len() < u32::MAX,
    ensures
        graph_nodes(*final(g)) == graph_nodes(*old(g)).push(weight),
        graph_edges(*final(g)) == graph_edges(*old(g)),
        ix == graph_nodes(*old(g)).len(),
{
    g.add_node(weight).index()
}

/// `Graph::add_edge`: the edge from node `a` to node `b` is added after those
/// that the graph has; the nodes stay. Both nodes must exist, and the graph
/// must hold fewer edges than its index type can count.
#[verifier::external_body]
pub(crate) fn graph_add_edge(g: &mut petgraph::graph::Graph<usize, usize>, a: usize, b: usize, weight: usize)
    requires
        a < graph_nodes(*old(g)).len(),
        b < graph_nodes(*old(g)).len(),
        graph_nodes(*old(g)).len() <= u32::MAX,
        graph_edges(*old(g)).len() < u32::MAX,
    ensures
        graph_nodes(*final(g)) == graph_nodes(*old(g)),
        graph_edges(*final(g)) == graph_edges(*old(g)).push((a, b)),
{
    g.add_edge(petgraph::graph::NodeIndex::new(a), petgraph::graph::NodeIndex::new(b), weight);
}

/// `Graph::node_indices`: the indices of the nodes, from 0 up.
#[verifier::external_body]
pub(crate) fn graph_node_indices(g: &petgraph::graph::Graph<usize, usize>) -> (r: Vec<usize>)
    ensures
        r@ == Seq::new(graph_nodes(*g).len(), |i: int| i as usize),
{
    g.node_indices().map(|i| i.index()).collect()
}

/// `Graph::node_weight`: the weight of the node `a`, which must exist.
#[verifier::external_body]
pub(crate) fn graph_node_weight(g: &petgraph::graph::Graph<usize, usize>, a: usize) -> (r: Option<usize>)
    requires
        a < graph_nodes(*g).len(),
        graph_nodes(*g).len() <= u32::MAX,
    ensures
        r == Some(graph_nodes(*g)[a as int]),
{
    g.node_weight(petgraph::graph::NodeIndex::new(a)).copied()
}

/// `Graph::edges_directed` with `Outgoing`, and `EdgeRef::target` of each
/// edge: the targets of the edges that leave the node `a`, listed in the
/// reverse of the order in which the edges were added. The graph keeps the
/// edges of a node in a list of their own, and a new edge goes to its head.
#[verifier::external_body]
pub(crate) fn graph_out_targets(g: &petgraph::graph::Graph<usize, usize>, a: usize) -> (r: Vec<usize>)
    requires
        a < graph_nodes(*g).len(),
        graph_nodes(*g).len() <= u32::MAX,
    ensures
        r@ == out_targets(graph_edges(*g), a),
{
    g.edges_directed(petgraph::graph::NodeIndex::new(a), petgraph::Direction::Outgoing).map(
        |e| petgraph::visit::EdgeRef::target(&e).index(),
    ).collect()
}

/// The graph has an edge from `a` to `b`.
pub open spec fn has_edge(edges: Seq<(usize, usize)>, a: usize, b: usize) -> bool {
    exists|i: int| 0 <= i < edges.len() && #[trigger] edges[i] == (a, b)
}

/// The targets of the edges that leave a node are the second ends of the
/// edges whose first end is the node.
pub proof fn lemma_out_targets(edges: Seq<(usize, usize)>, a: usize)
    ensures
        forall|t: int|
            0 <= t < out_targets(edges, a).len() ==> has_edge(
                edges,
                a,
                #[trigger] out_targets(edges, a)[t],
            ),
        forall|b: usize| #[trigger] has_edge(edges, a, b) ==> out_targets(edges, a).contains(b),
    decreases edges.len(),
{
    if edges.len() > 0 {
        let rest = edges.drop_last();
        let last = edges.last();
        lemma_out_targets(rest, a);
        let out = out_targets(edges, a);
        let inner = out_targets(rest, a);
        assert forall|t: int| 0 <= t < out.len() implies has_edge(edges, a, #[trigger] out[t]) by {
            if last.0 == a && t == 0 {
                assert(edges[edges.len() - 1] == (a, out[0]));
            } else {
                let u = if last.0 == a {
                    t - 1
                } else {
                    t
                };
                assert(out[t] == inner[u]);
                assert(has_edge(rest, a, inner[u]));
                let i = choose|i: int| 0 <= i < rest.len() && #[trigger] rest[i] == (a, inner[u]);
                assert(edges[i] == rest[i]);
            }
        }
        assert forall|b: usize| #[trigger] has_edge(edges, a, b) implies out.contains(b) by {
            let i = choose|i: int| 0 <= i < edges.len() && #[trigger] edges[i] == (a, b);
            if i == edges.len() - 1 {
                assert(out[0] == b);
            } else {
                assert(rest[i] == edges[i]);
                assert(has_edge(rest, a, b));
                assert(inner.contains(b));
                let t = choose|t: int| 0 <= t < inner.len() && inner[t] == b;
                if last.0 == a {
                    assert(out[t + 1] == inner[t]);
                } else {
                    assert(out[t] == inner[t]);
                }
            }
        }
    } else {
        assert forall|b: usize| #[trigger] has_edge(edges, a, b) implies out_targets(
            edges,
            a,
        ).contains(b) by {}
    }
}

} // verus!
