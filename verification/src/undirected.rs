//! The undirected graph that the samplers fill: `petgraph`'s `Graph`, with its
//! nodes and edges named so that contracts can speak of them.
//!
//! What is said here of `petgraph` is taken from its source and not proved. As in
//! vstd's contracts for `Vec`, memory is taken to suffice.

use crate::pairs::{is_pair, pair_rank};
use petgraph::graph::{Graph, NodeIndex};
use petgraph::Undirected;
use vstd::prelude::*;

verus! {

/// `petgraph::graph::Graph`, of which Verus sees nothing but the name.
#[verifier::external_type_specification]
#[verifier::external_body]
#[verifier::reject_recursive_types(N)]
#[verifier::reject_recursive_types(E)]
#[verifier::reject_recursive_types(Ty)]
#[verifier::reject_recursive_types(Ix)]
pub struct ExGraph<N, E, Ty, Ix>(Graph<N, E, Ty, Ix>);

/// `petgraph::Undirected`, the mark of a graph whose edges have no direction.
#[verifier::external_type_specification]
#[verifier::external_body]
pub struct ExUndirected(Undirected);

/// The weights of the graph's nodes, in the order of their indices.
pub uninterp spec fn graph_nodes(graph: Graph<usize, (), Undirected>) -> Seq<usize>;

/// The two node indices that each edge joins, in the order of the edges' indices.
pub uninterp spec fn graph_edges(graph: Graph<usize, (), Undirected>) -> Seq<(usize, usize)>;

/// The most nodes, and the most edges, that a graph holds: it numbers each kind
/// with 32 bits and keeps the highest number for itself, so that it refuses one
/// node, or one edge, more.
pub const MAX_GRAPH_ITEMS: usize = 0xffff_ffff;

/// `Graph::new_undirected`: a graph without nodes and without edges.
#[verifier::external_body]
pub(crate) fn new_undirected() -> (graph: Graph<usize, (), Undirected>)
    ensures
        graph_nodes(graph) == Seq::<usize>::empty(),
        graph_edges(graph) == Seq::<(usize, usize)>::empty(),
{
    Graph::new_undirected()
}

/// `Graph::with_capacity`: a graph without nodes and without edges, with room
/// for as many as are named.
#[verifier::external_body]
pub(crate) fn with_capacity(nodes: usize, edges: usize) -> (graph: Graph<usize, (), Undirected>)
    ensures
        graph_nodes(graph) == Seq::<usize>::empty(),
        graph_edges(graph) == Seq::<(usize, usize)>::empty(),
{
    Graph::with_capacity(nodes, edges)
}

/// `Graph::add_node`: appends a node of the given weight and returns its index,
/// which is the number of nodes that the graph had.
#[verifier::external_body]
pub(crate) fn add_node(graph: &mut Graph<usize, (), Undirected>, weight: usize) -> (index: usize)
    requires
        graph_nodes(*old(graph)).len() < MAX_GRAPH_ITEMS,
    ensures
        graph_nodes(*final(graph)) == graph_nodes(*old(graph)).push(weight),
        graph_edges(*final(graph)) == graph_edges(*old(graph)),
        index == graph_nodes(*old(graph)).len(),
{
    graph.add_node(weight).index()
}

/// `Graph::add_edge`: appends an edge from the node of index `a` to the node of
/// index `b`. An edge that the graph holds already is added once more.
#[verifier::external_body]
pub(crate) fn add_edge(graph: &mut Graph<usize, (), Undirected>, a: usize, b: usize)
    requires
        a < graph_nodes(*old(graph)).len(),
        b < graph_nodes(*old(graph)).len(),
        graph_edges(*old(graph)).len() < MAX_GRAPH_ITEMS,
    ensures
        graph_nodes(*final(graph)) == graph_nodes(*old(graph)),
        graph_edges(*final(graph)) == graph_edges(*old(graph)).push((a, b)),
{
    graph.add_edge(NodeIndex::new(a), NodeIndex::new(b), ());
}

/// The nodes `0`, `1`, .. of which there are `count`, each weighted with its own
/// number.
pub open spec fn numbered_nodes(count: int) -> Seq<usize> {
    Seq::new(count as nat, |k: int| k as usize)
}

/// The rank of the pair that an edge joins, among the pairs of `nodes` nodes.
pub open spec fn edge_rank(nodes: int, edge: (usize, usize)) -> int {
    pair_rank(nodes, edge.0 as int, edge.1 as int)
}

/// Whether the graph is a simple graph on the nodes `0`, `1`, .. of which there
/// are `nodes`: every edge joins a lower node to a higher one, so that no edge is
/// a loop, and no two edges join the same pair of nodes.
pub open spec fn is_simple_graph(graph: Graph<usize, (), Undirected>, nodes: int) -> bool {
    &&& graph_nodes(graph) == numbered_nodes(nodes)
    &&& forall|k: int|
        0 <= k < graph_edges(graph).len() ==> is_pair(
            nodes,
            (#[trigger] graph_edges(graph)[k]).0 as int,
            graph_edges(graph)[k].1 as int,
        )
    &&& graph_edges(graph).no_duplicates()
}

/// Whether the edges of the graph come in the order of the ranks of the pairs
/// that they join.
pub open spec fn in_rank_order(graph: Graph<usize, (), Undirected>, nodes: int) -> bool {
    forall|i: int, j: int|
        0 <= i < j < graph_edges(graph).len() ==> edge_rank(nodes, #[trigger] graph_edges(graph)[i])
            < edge_rank(nodes, #[trigger] graph_edges(graph)[j])
}

/// Whether the graph joins every pair of the nodes `0`, `1`, .. of which there
/// are `nodes`.
pub open spec fn is_complete_graph(graph: Graph<usize, (), Undirected>, nodes: int) -> bool {
    forall|a: usize, b: usize|
        is_pair(nodes, a as int, b as int) ==> #[trigger] graph_edges(graph).contains((a, b))
}

/// Adds the nodes `0`, `1`, .. of which there are `nodes` to a graph without
/// nodes.
pub(crate) fn add_numbered_nodes(graph: &mut Graph<usize, (), Undirected>, nodes: usize)
    requires
        graph_nodes(*old(graph)).len() == 0,
        nodes <= MAX_GRAPH_ITEMS,
    ensures
        graph_nodes(*final(graph)) == numbered_nodes(nodes as int),
        graph_edges(*final(graph)) == graph_edges(*old(graph)),
{
    let mut number: usize = 0;
    while number < nodes
        invariant
            number <= nodes <= MAX_GRAPH_ITEMS,
            graph_nodes(*graph) == numbered_nodes(number as int),
            graph_edges(*graph) == graph_edges(*old(graph)),
        decreases nodes - number,
    {
        add_node(graph, number);
        number += 1;
    }
}

} // verus!
