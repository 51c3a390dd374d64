//! The binomial model: every pair of nodes is joined with the same probability,
//! independently of the others.
//!
//! The probability is a ratio of two integers, so that it is exact.

use crate::pairs::{
    binomial, checked_pair_count, is_pair, lemma_all_rows_hold_pair_count,
    lemma_pair_count_covers_items, lemma_pair_rank_in_row, lemma_pair_rank_injective, pair_count,
    pair_rank, pairs_before_row,
};
use crate::random::bernoulli_trial;
use crate::undirected::{
    add_edge, add_numbered_nodes, edge_rank, graph_edges, graph_nodes, in_rank_order,
    is_complete_graph, is_simple_graph, new_undirected, numbered_nodes, MAX_GRAPH_ITEMS,
};
use petgraph::graph::Graph;
use petgraph::Undirected;
use rand::rngs::StdRng;
use vstd::prelude::*;

verus! {

/// Why a binomial model cannot be had.
#[derive(Debug, Clone, Copy, PartialEq, Eq, Structural)]
pub enum BinomialGraphError {
    /// The ratio of the two numbers, numerator first, is no probability: it is
    /// below 0, above 1, or has no value.
    InvalidProbability(i64, u32),
}

/// The model of the graphs with `nodes` nodes in which each pair of nodes is
/// joined with probability `numerator / denominator`.
#[derive(Debug, Clone, Copy)]
pub struct BinomialGraphDistribution {
    nodes: usize,
    numerator: u32,
    denominator: u32,
}

/// Whether `numerator / denominator` is a probability: a number from 0 to 1.
pub open spec fn is_probability(numerator: int, denominator: int) -> bool {
    denominator > 0 && 0 <= numerator <= denominator
}

/// How many of the trials succeeded.
pub open spec fn successes(trials: Seq<bool>) -> int
    decreases trials.len(),
{
    if trials.len() == 0 {
        0
    } else {
        successes(trials.drop_last()) + if trials.last() {
            1int
        } else {
            0int
        }
    }
}

/// No more trials succeed than there are.
pub proof fn lemma_successes_bounds(trials: Seq<bool>)
    ensures
        0 <= successes(trials) <= trials.len(),
    decreases trials.len(),
{
    if trials.len() > 0 {
        lemma_successes_bounds(trials.drop_last());
    }
}

/// Among the first trials no more succeed than among all.
pub proof fn lemma_successes_of_prefix(trials: Seq<bool>, count: int)
    requires
        0 <= count <= trials.len(),
    ensures
        successes(trials.take(count)) <= successes(trials),
    decreases trials.len(),
{
    if count == trials.len() {
        assert(trials.take(count) == trials);
    } else {
        lemma_successes_of_prefix(trials.drop_last(), count);
        assert(trials.drop_last().take(count) == trials.take(count));
    }
}

/// One more trial adds its own outcome to the count.
pub proof fn lemma_successes_of_next(trials: Seq<bool>, count: int)
    requires
        0 <= count < trials.len(),
    ensures
        successes(trials.take(count + 1)) == successes(trials.take(count)) + if trials[count] {
            1int
        } else {
            0int
        },
{
    assert(trials.take(count + 1).drop_last() == trials.take(count));
}

/// Whether the graph holds what the trials of rank below `rank` decide: the
/// nodes `0`, `1`, ..; an edge for each pair whose trial succeeded, and no other;
/// the edges in the order of their ranks.
pub open spec fn decided_up_to(
    graph: Graph<usize, (), Undirected>,
    nodes: int,
    trials: Seq<bool>,
    rank: int,
) -> bool {
    let edges = graph_edges(graph);
    &&& graph_nodes(graph) == numbered_nodes(nodes)
    &&& edges.len() == successes(trials.take(rank))
    &&& forall|k: int|
        0 <= k < edges.len() ==> {
            &&& is_pair(nodes, (#[trigger] edges[k]).0 as int, edges[k].1 as int)
            &&& edge_rank(nodes, edges[k]) < rank
            &&& trials[edge_rank(nodes, edges[k])]
        }
    &&& in_rank_order(graph, nodes)
    &&& forall|a: usize, b: usize|
        is_pair(nodes, a as int, b as int) && pair_rank(nodes, a as int, b as int) < rank
            && trials[pair_rank(nodes, a as int, b as int)] ==> #[trigger] edges.contains((a, b))
}

/// The graph on `nodes` nodes that the trials decide: the pair of rank `k` is
/// joined where trial `k` succeeded, and the edges come in the order of their
/// ranks.
pub fn graph_from_trials(nodes: usize, trials: &Vec<bool>) -> (graph: Graph<usize, (), Undirected>)
    requires
        nodes <= MAX_GRAPH_ITEMS,
        trials@.len() == pair_count(nodes as int),
        successes(trials@) <= MAX_GRAPH_ITEMS,
    ensures
        is_simple_graph(graph, nodes as int),
        decided_up_to(graph, nodes as int, trials@, trials@.len() as int),
        graph_edges(graph).len() == successes(trials@),
{
    let mut graph = new_undirected();
    add_numbered_nodes(&mut graph, nodes);
    let mut rank: usize = 0;
    let mut start: usize = 0;
    proof {
        assert(trials@.take(0) =~= Seq::<bool>::empty());
        assert forall|a: usize, b: usize| #[trigger]
            is_pair(nodes as int, a as int, b as int) implies pair_rank(
            nodes as int,
            a as int,
            b as int,
        ) >= 0 by {
            lemma_pair_rank_in_row(nodes as int, a as int, b as int);
        }
    }
    while start < nodes
        invariant
            start <= nodes <= MAX_GRAPH_ITEMS,
            trials@.len() == pair_count(nodes as int),
            successes(trials@) <= MAX_GRAPH_ITEMS,
            rank == pairs_before_row(nodes as int, start as int),
            decided_up_to(graph, nodes as int, trials@, rank as int),
        decreases nodes - start,
    {
        let mut end: usize = start + 1;
        while end < nodes
            invariant
                start < end <= nodes <= MAX_GRAPH_ITEMS,
                trials@.len() == pair_count(nodes as int),
                successes(trials@) <= MAX_GRAPH_ITEMS,
                rank == pair_rank(nodes as int, start as int, end as int),
                decided_up_to(graph, nodes as int, trials@, rank as int),
            decreases nodes - end,
        {
            proof {
                lemma_pair_rank_in_row(nodes as int, start as int, end as int);
                lemma_successes_of_next(trials@, rank as int);
                lemma_successes_of_prefix(trials@, rank as int + 1);
            }
            let ghost before = graph;
            assert(rank < trials.len());
            if trials[rank] {
                add_edge(&mut graph, start, end);
            }
            proof {
                let count = nodes as int;
                let old_edges = graph_edges(before);
                let edges = graph_edges(graph);
                assert forall|k: int| 0 <= k < old_edges.len() implies edges[k] == old_edges[k] by {}
                assert forall|a: usize, b: usize|
                    is_pair(count, a as int, b as int) && pair_rank(count, a as int, b as int)
                        < rank + 1 && trials@[pair_rank(
                        count,
                        a as int,
                        b as int,
                    )] implies #[trigger] edges.contains((a, b)) by {
                    if pair_rank(count, a as int, b as int) < rank {
                        assert(old_edges.contains((a, b)));
                        let k = choose|k: int| 0 <= k < old_edges.len() && old_edges[k] == (a, b);
                        assert(edges[k] == (a, b));
                    } else {
                        lemma_pair_rank_injective(
                            count,
                            a as int,
                            b as int,
                            start as int,
                            end as int,
                        );
                        assert(edges[old_edges.len() as int] == (a, b));
                    }
                }
            }
            rank += 1;
            end += 1;
        }
        start += 1;
    }
    proof {
        lemma_all_rows_hold_pair_count(nodes as int);
        assert(trials@.take(rank as int) == trials@);
        let edges = graph_edges(graph);
        assert forall|i: int, j: int|
            0 <= i < edges.len() && 0 <= j < edges.len() && i != j implies edges[i]
            != edges[j] by {
            if i < j {
                assert(edge_rank(nodes as int, edges[i]) < edge_rank(nodes as int, edges[j]));
            } else {
                assert(edge_rank(nodes as int, edges[j]) < edge_rank(nodes as int, edges[i]));
            }
        }
    }
    graph
}

impl BinomialGraphDistribution {
    #[verifier::type_invariant]
    spec fn holds_probability(self) -> bool {
        is_probability(self.numerator as int, self.denominator as int)
    }

    /// The number of nodes of each graph of the model.
    pub closed spec fn nodes(&self) -> usize {
        self.nodes
    }

    /// The numerator of the probability with which a pair of nodes is joined.
    pub closed spec fn numerator(&self) -> u32 {
        self.numerator
    }

    /// The denominator of the probability with which a pair of nodes is joined.
    pub closed spec fn denominator(&self) -> u32 {
        self.denominator
    }

    /// Whether a graph of the model can be built, whatever the trials decide: the
    /// graph can number an edge for every pair of nodes.
    pub open spec fn fits_graph(&self) -> bool {
        pair_count(self.nodes() as int) <= MAX_GRAPH_ITEMS
    }

    /// The model of the graphs with `nodes` nodes in which each pair of nodes is
    /// joined with probability `numerator / denominator`. There is none where that
    /// ratio is no probability.
    pub fn new(nodes: usize, numerator: i64, denominator: u32) -> (made: Result<
        Self,
        BinomialGraphError,
    >)
        ensures
            match made {
                Ok(distribution) => {
                    &&& is_probability(numerator as int, denominator as int)
                    &&& distribution.nodes() == nodes
                    &&& distribution.numerator() == numerator
                    &&& distribution.denominator() == denominator
                },
                Err(error) => {
                    &&& !is_probability(numerator as int, denominator as int)
                    &&& error == BinomialGraphError::InvalidProbability(numerator, denominator)
                },
            },
    {
        if denominator == 0 || numerator < 0 || numerator > denominator as i64 {
            return Err(BinomialGraphError::InvalidProbability(numerator, denominator));
        }
        Ok(Self { nodes, numerator: numerator as u32, denominator })
    }

    /// Whether a graph of the model can be built, whatever the trials decide.
    pub fn can_sample(&self) -> (possible: bool)
        ensures
            possible == self.fits_graph(),
    {
        match checked_pair_count(self.nodes) {
            Some(pairs) => pairs <= MAX_GRAPH_ITEMS,
            None => false,
        }
    }

    /// Draws a graph of the model: one trial for each pair of nodes, in the order
    /// of the pairs' ranks, and an edge where the trial succeeded.
    pub fn sample(&self, rng: &mut StdRng) -> (graph: Graph<usize, (), Undirected>)
        requires
            self.fits_graph(),
        ensures
            is_simple_graph(graph, self.nodes() as int),
            in_rank_order(graph, self.nodes() as int),
            self.nodes() <= 1 ==> graph_edges(graph).len() == 0,
            self.numerator() == 0 ==> graph_edges(graph).len() == 0,
            self.numerator() == self.denominator() ==> is_complete_graph(
                graph,
                self.nodes() as int,
            ),
    {
        proof {
            use_type_invariant(self);
        }
        let pairs: usize = binomial(self.nodes, 2);
        let mut trials: Vec<bool> = Vec::new();
        while trials.len() < pairs
            invariant
                trials@.len() <= pairs,
                is_probability(self.numerator as int, self.denominator as int),
                self.numerator == 0 ==> forall|k: int| 0 <= k < trials@.len() ==> !trials@[k],
                self.numerator == self.denominator ==> forall|k: int|
                    0 <= k < trials@.len() ==> trials@[k],
            decreases pairs - trials@.len(),
        {
            let success: bool = bernoulli_trial(rng, self.numerator, self.denominator);
            trials.push(success);
        }
        proof {
            lemma_successes_bounds(trials@);
            if self.nodes >= 3 {
                lemma_pair_count_covers_items(self.nodes as int);
            }
        }
        let graph = graph_from_trials(self.nodes, &trials);
        proof {
            let nodes = self.nodes as int;
            let edges = graph_edges(graph);
            if edges.len() > 0 {
                assert(is_pair(nodes, edges[0].0 as int, edges[0].1 as int));
                if self.numerator == 0 {
                    lemma_pair_rank_in_row(nodes, edges[0].0 as int, edges[0].1 as int);
                    assert(trials@[edge_rank(nodes, edges[0])]);
                }
            }
            if self.numerator == self.denominator {
                assert forall|a: usize, b: usize|
                    is_pair(nodes, a as int, b as int) implies #[trigger] edges.contains(
                    (a, b),
                ) by {
                    lemma_pair_rank_in_row(nodes, a as int, b as int);
                }
            }
        }
        graph
    }
}

} // verus!
