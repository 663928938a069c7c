//! Node identifiers, read access to the directed graphs of a schedule, and the
//! rule that hides implicit system sets.

use petgraph::Directed;
use petgraph::Direction;
use petgraph::graphmap::GraphMap;
use std::collections::HashSet;
use std::hash::BuildHasher;
use std::hash::RandomState;
use vstd::prelude::*;

verus! {

/// Identifies a node of a schedule's graphs: a system or a system set, each
/// numbered on its own.
#[derive(Clone, Copy, Debug, PartialEq, Eq, PartialOrd, Ord, Hash, Structural)]
pub enum NodeId {
    /// A system, by its index.
    System(usize),
    /// A system set, by its index.
    SystemSet(usize),
}

/// Which of a node's edges to follow.
#[derive(Clone, Copy, Debug, PartialEq, Eq, Structural)]
pub enum EdgeSide {
    /// Edges that leave the node.
    Outgoing,
    /// Edges that arrive at the node.
    Incoming,
}

/// Makes `petgraph::graphmap::GraphMap` known to the verifier, as a type
/// whose values it cannot look into.
#[verifier::external_type_specification]
#[verifier::external_body]
#[verifier::reject_recursive_types(N)]
#[verifier::reject_recursive_types(E)]
#[verifier::reject_recursive_types(Ty)]
#[verifier::reject_recursive_types(S)]
pub struct ExGraphMap<N, E, Ty, S: BuildHasher>(GraphMap<N, E, Ty, S>);

/// Makes `petgraph::Directed`, the marker of directed graphs, known to the
/// verifier.
#[verifier::external_type_specification]
#[verifier::external_body]
pub struct ExDirected(Directed);

/// The nodes of `graph`, in the order in which `GraphMap::nodes` yields them.
pub uninterp spec fn graph_nodes(graph: GraphMap<NodeId, (), Directed, RandomState>) -> Seq<NodeId>;

/// The neighbours of `node` in `graph` on the given side, in the order in
/// which `GraphMap::neighbors_directed` yields them.
pub uninterp spec fn graph_neighbors(
    graph: GraphMap<NodeId, (), Directed, RandomState>,
    node: NodeId,
    side: EdgeSide,
) -> Seq<NodeId>;

/// The edges of `graph` as (source, target) pairs, in the order in which
/// `GraphMap::all_edges` yields them.
pub uninterp spec fn graph_edges(graph: GraphMap<NodeId, (), Directed, RandomState>) -> Seq<
    (NodeId, NodeId),
>;

/// Collects what `petgraph::graphmap::GraphMap::nodes` yields.
///
/// Trusted: the contract only gives the collected sequence its name,
/// [`graph_nodes`]; it claims nothing about which nodes those are.
#[verifier::external_body]
pub(crate) fn nodes_of(graph: &GraphMap<NodeId, (), Directed, RandomState>) -> (nodes: Vec<NodeId>)
    ensures
        nodes@ == graph_nodes(*graph),
{
    graph.nodes().collect()
}

/// Collects what `petgraph::graphmap::GraphMap::neighbors_directed` yields for
/// `node`, asked for `Direction::Outgoing` or `Direction::Incoming`.
///
/// Trusted: the contract only gives the collected sequence its name,
/// [`graph_neighbors`]; it claims nothing about which nodes those are.
#[verifier::external_body]
pub(crate) fn neighbors_of(
    graph: &GraphMap<NodeId, (), Directed, RandomState>,
    node: NodeId,
    side: EdgeSide,
) -> (neighbors: Vec<NodeId>)
    ensures
        neighbors@ == graph_neighbors(*graph, node, side),
{
    let direction = match side {
        EdgeSide::Outgoing => Direction::Outgoing,
        EdgeSide::Incoming => Direction::Incoming,
    };
    graph.neighbors_directed(node, direction).collect()
}

/// Collects the end points of what `petgraph::graphmap::GraphMap::all_edges`
/// yields, dropping the edge weights.
///
/// Trusted: the contract only gives the collected sequence its name,
/// [`graph_edges`]; it claims nothing about which edges those are.
#[verifier::external_body]
pub(crate) fn edges_of(graph: &GraphMap<NodeId, (), Directed, RandomState>) -> (edges: Vec<
    (NodeId, NodeId),
>)
    ensures
        edges@ == graph_edges(*graph),
{
    graph.all_edges().map(|edge| (edge.0, edge.1)).collect()
}

/// Whether `node` is one of the implicit system sets whose indices are
/// `implicit`. A system is never one.
pub open spec fn is_implicit(implicit: Set<usize>, node: NodeId) -> bool {
    match node {
        NodeId::System(_) => false,
        NodeId::SystemSet(index) => implicit.contains(index),
    }
}

/// `nodes` without the implicit system sets, order kept.
pub open spec fn visible_nodes(nodes: Seq<NodeId>, implicit: Set<usize>) -> Seq<NodeId>
    decreases nodes.len(),
{
    if nodes.len() == 0 {
        Seq::empty()
    } else {
        let before = visible_nodes(nodes.drop_last(), implicit);
        if is_implicit(implicit, nodes.last()) {
            before
        } else {
            before.push(nodes.last())
        }
    }
}

/// `edges` without those that start or end at an implicit system set, order
/// kept.
pub open spec fn visible_edges(edges: Seq<(NodeId, NodeId)>, implicit: Set<usize>) -> Seq<
    (NodeId, NodeId),
>
    decreases edges.len(),
{
    if edges.len() == 0 {
        Seq::empty()
    } else {
        let before = visible_edges(edges.drop_last(), implicit);
        if is_implicit(implicit, edges.last().0) || is_implicit(implicit, edges.last().1) {
            before
        } else {
            before.push(edges.last())
        }
    }
}

/// A node as a snapshot shows it: its identifier, then its visible neighbours
/// along outgoing and along incoming edges.
pub open spec fn linked_node(
    graph: GraphMap<NodeId, (), Directed, RandomState>,
    node: NodeId,
    implicit: Set<usize>,
) -> (NodeId, Seq<NodeId>, Seq<NodeId>) {
    (
        node,
        visible_nodes(graph_neighbors(graph, node, EdgeSide::Outgoing), implicit),
        visible_nodes(graph_neighbors(graph, node, EdgeSide::Incoming), implicit),
    )
}

/// The visible nodes among `order`, each with its visible neighbours in
/// `graph`, order kept.
pub open spec fn linked_nodes(
    graph: GraphMap<NodeId, (), Directed, RandomState>,
    order: Seq<NodeId>,
    implicit: Set<usize>,
) -> Seq<(NodeId, Seq<NodeId>, Seq<NodeId>)>
    decreases order.len(),
{
    if order.len() == 0 {
        Seq::empty()
    } else {
        let before = linked_nodes(graph, order.drop_last(), implicit);
        if is_implicit(implicit, order.last()) {
            before
        } else {
            before.push(linked_node(graph, order.last(), implicit))
        }
    }
}

/// The view of a list of snapshot nodes.
pub open spec fn node_views(nodes: Seq<(NodeId, Vec<NodeId>, Vec<NodeId>)>) -> Seq<
    (NodeId, Seq<NodeId>, Seq<NodeId>),
> {
    nodes.map_values(|node: (NodeId, Vec<NodeId>, Vec<NodeId>)| (node.0, node.1@, node.2@))
}

/// Tells whether `node` is an implicit system set.
pub fn node_is_implicit(implicit: &HashSet<usize>, node: NodeId) -> (hidden: bool)
    ensures
        hidden == is_implicit(implicit@, node),
{
    match node {
        NodeId::System(_) => false,
        NodeId::SystemSet(index) => implicit.contains(&index),
    }
}

/// Copies the visible nodes of `nodes`, in order.
pub fn filter_nodes(nodes: &Vec<NodeId>, implicit: &HashSet<usize>) -> (kept: Vec<NodeId>)
    ensures
        kept@ == visible_nodes(nodes@, implicit@),
{
    let mut kept: Vec<NodeId> = Vec::new();
    let mut i: usize = 0;
    while i < nodes.len()
        invariant
            i <= nodes.len(),
            kept@ == visible_nodes(nodes@.take(i as int), implicit@),
        decreases nodes.len() - i,
    {
        let node = nodes[i];
        proof {
            assert(nodes@.take(i + 1).drop_last() == nodes@.take(i as int));
        }
        if !node_is_implicit(implicit, node) {
            kept.push(node);
        }
        i += 1;
    }
    proof {
        assert(nodes@.take(nodes.len() as int) == nodes@);
    }
    kept
}

/// Copies the edges of `edges` that touch no implicit system set, in order.
pub fn filter_edges(edges: &Vec<(NodeId, NodeId)>, implicit: &HashSet<usize>) -> (kept: Vec<
    (NodeId, NodeId),
>)
    ensures
        kept@ == visible_edges(edges@, implicit@),
{
    let mut kept: Vec<(NodeId, NodeId)> = Vec::new();
    let mut i: usize = 0;
    while i < edges.len()
        invariant
            i <= edges.len(),
            kept@ == visible_edges(edges@.take(i as int), implicit@),
        decreases edges.len() - i,
    {
        let edge = edges[i];
        proof {
            assert(edges@.take(i + 1).drop_last() == edges@.take(i as int));
        }
        if !node_is_implicit(implicit, edge.0) && !node_is_implicit(implicit, edge.1) {
            kept.push(edge);
        }
        i += 1;
    }
    proof {
        assert(edges@.take(edges.len() as int) == edges@);
    }
    kept
}

/// Lists the visible nodes among `order`, each with its visible neighbours in
/// `graph`.
pub fn link_nodes(
    graph: &GraphMap<NodeId, (), Directed, RandomState>,
    order: &Vec<NodeId>,
    implicit: &HashSet<usize>,
) -> (linked: Vec<(NodeId, Vec<NodeId>, Vec<NodeId>)>)
    ensures
        node_views(linked@) == linked_nodes(*graph, order@, implicit@),
{
    let mut linked: Vec<(NodeId, Vec<NodeId>, Vec<NodeId>)> = Vec::new();
    let mut i: usize = 0;
    while i < order.len()
        invariant
            i <= order.len(),
            node_views(linked@) == linked_nodes(*graph, order@.take(i as int), implicit@),
        decreases order.len() - i,
    {
        let node = order[i];
        proof {
            assert(order@.take(i + 1).drop_last() == order@.take(i as int));
        }
        if !node_is_implicit(implicit, node) {
            let outgoing = filter_nodes(&neighbors_of(graph, node, EdgeSide::Outgoing), implicit);
            let incoming = filter_nodes(&neighbors_of(graph, node, EdgeSide::Incoming), implicit);
            let ghost before = linked@;
            linked.push((node, outgoing, incoming));
            proof {
                assert(node_views(linked@) == node_views(before).push(
                    linked_node(*graph, node, implicit@),
                ));
            }
        }
        i += 1;
    }
    proof {
        assert(order@.take(order.len() as int) == order@);
    }
    linked
}

} // verus!
