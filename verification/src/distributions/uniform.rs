//! The uniform model: a graph with a given number of edges, each such graph as
//! likely as any other.

use crate::pairs::{
    binomial, checked_pair_count, is_pair, lemma_distinct_numbers_fill_range,
    lemma_pair_rank_in_row, lemma_pair_rank_injective, pair_at, pair_count, pair_rank,
};
use crate::random::choose_multiple;
use crate::undirected::{
    add_edge, add_numbered_nodes, edge_rank, graph_edges, graph_nodes, is_complete_graph,
    is_simple_graph, numbered_nodes, with_capacity, MAX_GRAPH_ITEMS,
};
use petgraph::graph::Graph;
use petgraph::Undirected;
use rand::rngs::StdRng;
use vstd::prelude::*;

verus! {

/// Why a uniform model cannot be had.
#[derive(Debug, Clone, Copy, PartialEq, Eq, Structural)]
pub enum UniformGraphError {
    /// More edges are asked for than the nodes have pairs.
    TooManyEdges,
}

/// The model of the graphs with `nodes` nodes and `edges` edges, all equally
/// likely.
#[derive(Debug, Clone, Copy)]
pub struct UniformGraphDistribution {
    nodes: usize,
    edges: usize,
}

/// The graph on `nodes` nodes whose edges join the pairs of the given ranks, in
/// the order of `ranks`.
pub fn graph_from_ranks(nodes: usize, ranks: &Vec<usize>) -> (graph: Graph<usize, (), Undirected>)
    requires
        nodes <= MAX_GRAPH_ITEMS,
        ranks@.len() <= MAX_GRAPH_ITEMS,
        forall|k: int| 0 <= k < ranks@.len() ==> ranks@[k] < pair_count(nodes as int),
    ensures
        graph_nodes(graph) == numbered_nodes(nodes as int),
        graph_edges(graph).len() == ranks@.len(),
        forall|k: int|
            0 <= k < ranks@.len() ==> {
                &&& is_pair(
                    nodes as int,
                    (#[trigger] graph_edges(graph)[k]).0 as int,
                    graph_edges(graph)[k].1 as int,
                )
                &&& edge_rank(nodes as int, graph_edges(graph)[k]) == ranks@[k]
            },
{
    let mut graph = with_capacity(nodes, ranks.len());
    add_numbered_nodes(&mut graph, nodes);
    let mut done: usize = 0;
    while done < ranks.len()
        invariant
            done <= ranks@.len() <= MAX_GRAPH_ITEMS,
            forall|k: int| 0 <= k < ranks@.len() ==> ranks@[k] < pair_count(nodes as int),
            graph_nodes(graph) == numbered_nodes(nodes as int),
            graph_edges(graph).len() == done,
            forall|k: int|
                0 <= k < done ==> {
                    &&& is_pair(
                        nodes as int,
                        (#[trigger] graph_edges(graph)[k]).0 as int,
                        graph_edges(graph)[k].1 as int,
                    )
                    &&& edge_rank(nodes as int, graph_edges(graph)[k]) == ranks@[k]
                },
        decreases ranks@.len() - done,
    {
        let (edge_start, edge_end): (usize, usize) = pair_at(nodes, ranks[done]);
        add_edge(&mut graph, edge_start, edge_end);
        done += 1;
    }
    graph
}

impl UniformGraphDistribution {
    #[verifier::type_invariant]
    spec fn edges_have_pairs(self) -> bool {
        self.edges <= pair_count(self.nodes as int)
    }

    /// The number of nodes of each graph of the model.
    pub closed spec fn nodes(&self) -> usize {
        self.nodes
    }

    /// The number of edges of each graph of the model.
    pub closed spec fn edges(&self) -> usize {
        self.edges
    }

    /// Whether a graph of the model can be built: its nodes and its edges can be
    /// numbered by the graph, and the pairs of its nodes by a `usize`.
    pub open spec fn fits_graph(&self) -> bool {
        &&& self.nodes() <= MAX_GRAPH_ITEMS
        &&& self.edges() <= MAX_GRAPH_ITEMS
        &&& pair_count(self.nodes() as int) <= usize::MAX
    }

    /// The model of the graphs with `nodes` nodes and `edges` edges. There is none
    /// where `nodes` nodes have fewer than `edges` pairs.
    pub fn new(nodes: usize, edges: usize) -> (made: Result<Self, UniformGraphError>)
        ensures
            match made {
                Ok(distribution) => {
                    &&& edges <= pair_count(nodes as int)
                    &&& distribution.nodes() == nodes
                    &&& distribution.edges() == edges
                },
                Err(error) => {
                    &&& edges > pair_count(nodes as int)
                    &&& error == UniformGraphError::TooManyEdges
                },
            },
    {
        match checked_pair_count(nodes) {
            Some(pairs) => {
                if edges > pairs {
                    return Err(UniformGraphError::TooManyEdges);
                }
            },
            None => {},
        }
        Ok(Self { nodes, edges })
    }

    /// Whether a graph of the model can be built.
    pub fn can_sample(&self) -> (possible: bool)
        ensures
            possible == self.fits_graph(),
    {
        self.nodes <= MAX_GRAPH_ITEMS && self.edges <= MAX_GRAPH_ITEMS && checked_pair_count(
            self.nodes,
        ).is_some()
    }

    /// Draws a graph of the model: the pairs that its edges join are chosen among
    /// all pairs of nodes, none twice.
    pub fn sample(&self, rng: &mut StdRng) -> (graph: Graph<usize, (), Undirected>)
        requires
            self.fits_graph(),
        ensures
            is_simple_graph(graph, self.nodes() as int),
            graph_edges(graph).len() == self.edges(),
            self.edges() == 0 ==> graph_edges(graph) == Seq::<(usize, usize)>::empty(),
            self.edges() == pair_count(self.nodes() as int) ==> is_complete_graph(
                graph,
                self.nodes() as int,
            ),
    {
        proof {
            use_type_invariant(self);
        }
        let pairs: usize = binomial(self.nodes, 2);
        let chosen = choose_multiple(rng, pairs, self.edges);
        let graph = graph_from_ranks(self.nodes, &chosen);
        proof {
            let nodes = self.nodes as int;
            let edges = graph_edges(graph);
            assert forall|i: int, j: int|
                0 <= i < edges.len() && 0 <= j < edges.len() && i != j implies edges[i]
                != edges[j] by {
                assert(edge_rank(nodes, edges[i]) == chosen@[i]);
                assert(edge_rank(nodes, edges[j]) == chosen@[j]);
            }
            if self.edges == pair_count(nodes) {
                lemma_distinct_numbers_fill_range(chosen@, pairs as int);
                assert forall|a: usize, b: usize|
                    is_pair(nodes, a as int, b as int) implies #[trigger] edges.contains(
                    (a, b),
                ) by {
                    lemma_pair_rank_in_row(nodes, a as int, b as int);
                    let rank = pair_rank(nodes, a as int, b as int) as usize;
                    assert(chosen@.contains(rank));
                    let k = choose|k: int| 0 <= k < chosen@.len() && chosen@[k] == rank;
                    assert(edge_rank(nodes, edges[k]) == rank);
                    lemma_pair_rank_injective(
                        nodes,
                        edges[k].0 as int,
                        edges[k].1 as int,
                        a as int,
                        b as int,
                    );
                    assert(edges[k] == (a, b));
                }
            }
        }
        graph
    }
}

} // verus!
