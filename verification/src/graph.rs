//! The graph abstraction: what an edge and a graph have to offer, and a plain
//! graph that offers it.

use std::collections::{HashMap, HashSet};
use std::fmt::Debug;
use vstd::prelude::*;
use vstd::std_specs::iter::IteratorSpec;

verus! {

/// What goes wrong when a graph is asked for something that it does not hold.
#[derive(Debug, Clone)]
pub enum GraphError<I: Debug, E: EdgeLike<I>> {
    /// The node is not in the graph.
    MissingNode(I),
    /// One end of the edge, or both, is not in the graph.
    InvalidEdge(E),
}

/// An edge from a source node to a target node, with an optional key that tells
/// parallel edges apart.
pub trait EdgeLike<I: Debug>: Debug {
    /// The node at which the edge starts.
    spec fn spec_source(&self) -> I;

    /// The node at which the edge ends.
    spec fn spec_target(&self) -> I;

    /// The key of the edge, if it has one.
    spec fn spec_key(&self) -> Option<usize>;

    /// The node at which the edge starts.
    fn source(&self) -> (node: &I)
        ensures
            *node == self.spec_source(),
    ;

    /// The node at which the edge ends.
    fn target(&self) -> (node: &I)
        ensures
            *node == self.spec_target(),
    ;

    /// The key of the edge, if it has one.
    fn key(&self) -> (key: Option<usize>)
        ensures
            key == self.spec_key(),
    ;
}

/// What a graph holds: its nodes, its edges in the order in which they were
/// added, and the edges that it answers for. A graph answers for the edges that
/// were added to it and for those that it takes for the same as one of them.
#[verifier::reject_recursive_types(I)]
#[verifier::reject_recursive_types(E)]
pub struct GraphState<I, E> {
    pub nodes: Set<I>,
    pub edges: Seq<E>,
    pub held: Set<E>,
}

impl<I: Debug, E: EdgeLike<I>> GraphState<I, E> {
    /// Whether both ends of `edge` are nodes of the graph.
    pub open spec fn joins_nodes(self, edge: E) -> bool {
        self.nodes.contains(edge.spec_source()) && self.nodes.contains(edge.spec_target())
    }

    /// What adding `node` makes of the graph: the graph `after`, and the answer
    /// `added`.
    pub open spec fn node_added(self, node: I, after: Self, added: bool) -> bool {
        &&& added == !self.nodes.contains(node)
        &&& after.nodes == self.nodes.insert(node)
        &&& after.edges == self.edges
        &&& after.held == self.held
    }

    /// What adding `edge` makes of the graph: the graph `after`, and the answer
    /// `outcome`.
    pub open spec fn edge_added(
        self,
        edge: E,
        after: Self,
        outcome: Result<bool, GraphError<I, E>>,
    ) -> bool {
        if !self.joins_nodes(edge) {
            after == self && outcome == Err::<bool, GraphError<I, E>>(
                GraphError::InvalidEdge(edge),
            )
        } else if self.held.contains(edge) {
            after == self && outcome == Ok::<bool, GraphError<I, E>>(false)
        } else {
            &&& after.nodes == self.nodes
            &&& after.edges == self.edges.push(edge)
            &&& after.held.contains(edge)
            &&& self.held.subset_of(after.held)
            &&& outcome == Ok::<bool, GraphError<I, E>>(true)
        }
    }
}

/// A node that is added a second time is not added again: the second answer is
/// `false`, and the graph stays as it was.
pub proof fn lemma_node_is_added_once<I: Debug, E: EdgeLike<I>>(
    before: GraphState<I, E>,
    between: GraphState<I, E>,
    after: GraphState<I, E>,
    node: I,
    first: bool,
    second: bool,
)
    requires
        before.node_added(node, between, first),
        between.node_added(node, after, second),
    ensures
        !second,
        after == between,
{
    assert(between.nodes.insert(node) == between.nodes);
}

/// An edge between nodes of the graph that is added a second time is not added
/// again: the second answer is `Ok(false)`, and the graph stays as it was.
pub proof fn lemma_edge_is_added_once<I: Debug, E: EdgeLike<I>>(
    before: GraphState<I, E>,
    between: GraphState<I, E>,
    after: GraphState<I, E>,
    edge: E,
    first: Result<bool, GraphError<I, E>>,
    second: Result<bool, GraphError<I, E>>,
)
    requires
        before.joins_nodes(edge),
        before.edge_added(edge, between, first),
        between.edge_added(edge, after, second),
    ensures
        second == Ok::<bool, GraphError<I, E>>(false),
        after == between,
{
}

/// An edge with an end that is no node of the graph is refused as invalid, and
/// the graph stays as it was.
pub proof fn lemma_edge_needs_nodes<I: Debug, E: EdgeLike<I>>(
    before: GraphState<I, E>,
    after: GraphState<I, E>,
    edge: E,
    outcome: Result<bool, GraphError<I, E>>,
)
    requires
        !before.nodes.contains(edge.spec_source()) || !before.nodes.contains(edge.spec_target()),
        before.edge_added(edge, after, outcome),
    ensures
        outcome == Err::<bool, GraphError<I, E>>(GraphError::InvalidEdge(edge)),
        after == before,
{
}

/// A graph: a set of nodes, and edges between them.
///
/// An edge can only be added once both its ends are nodes of the graph. Adding a
/// node or an edge that the graph holds already changes nothing.
pub trait GraphLike<I: Debug, E: EdgeLike<I>>: View<V = GraphState<I, E>> {
    /// What holds of the graph between any two calls.
    spec fn well_formed(&self) -> bool;

    /// Whether the edges of such a graph have a direction.
    spec fn directed() -> bool;

    /// Adds a node, and says whether the graph did not hold it before.
    fn add_node(&mut self, node: I) -> (added: bool)
        requires
            old(self).well_formed(),
        ensures
            final(self).well_formed(),
            old(self)@.node_added(node, final(self)@, added),
    ;

    /// Whether `node` is a node of the graph.
    fn has_node(&self, node: &I) -> (found: bool)
        requires
            self.well_formed(),
        ensures
            found == self@.nodes.contains(*node),
    ;

    /// Adds an edge, and says whether the graph did not hold it before. Fails,
    /// and changes nothing, where an end of the edge is no node of the graph.
    fn add_edge(&mut self, edge: E) -> (outcome: Result<bool, GraphError<I, E>>)
        requires
            old(self).well_formed(),
        ensures
            final(self).well_formed(),
            old(self)@.edge_added(edge, final(self)@, outcome),
    ;

    /// Whether the graph holds `edge`.
    fn has_edge(&self, edge: &E) -> (found: bool)
        requires
            self.well_formed(),
        ensures
            found == self@.held.contains(*edge),
    ;

    /// Whether the edges of the graph have a direction.
    fn is_directed(&self) -> (directed: bool)
        ensures
            directed == Self::directed(),
    ;

    /// Whether the edges of the graph have no direction.
    fn is_undirected(&self) -> (undirected: bool)
        ensures
            undirected == !Self::directed(),
    {
        !self.is_directed()
    }

    /// The nodes of the graph, each once, in no particular order.
    fn node_iter(&self) -> (nodes: Vec<&I>)
        requires
            self.well_formed(),
        ensures
            nodes@.len() == self@.nodes.len(),
            nodes@.unref().no_duplicates(),
            nodes@.unref().to_set() == self@.nodes,
    ;

    /// The edges of the graph, in the order in which they were added.
    fn edge_iter(&self) -> (edges: Vec<&E>)
        requires
            self.well_formed(),
        ensures
            edges@.len() == self@.edges.len(),
            edges@.unref() == self@.edges,
    ;
}

/// An edge between nodes that are numbered by `usize`.
#[derive(Debug, Clone)]
pub struct DumbEdge {
    source: usize,
    target: usize,
    key: Option<usize>,
}

impl DumbEdge {
    /// The edge from `source` to `target`, without a key.
    pub fn new(source: usize, target: usize) -> (edge: DumbEdge)
        ensures
            edge.spec_source() == source,
            edge.spec_target() == target,
            edge.spec_key() == None::<usize>,
    {
        Self { source, target, key: None }
    }
}

impl EdgeLike<usize> for DumbEdge {
    closed spec fn spec_source(&self) -> usize {
        self.source
    }

    closed spec fn spec_target(&self) -> usize {
        self.target
    }

    closed spec fn spec_key(&self) -> Option<usize> {
        self.key
    }

    fn source(&self) -> (node: &usize) {
        &self.source
    }

    fn target(&self) -> (node: &usize) {
        &self.target
    }

    fn key(&self) -> (key: Option<usize>) {
        self.key
    }
}

/// Whether `edge` runs from `source` to `target`.
pub open spec fn runs_between(edge: DumbEdge, source: usize, target: usize) -> bool {
    edge.spec_source() == source && edge.spec_target() == target
}

/// A directed graph on nodes that are numbered by `usize`. Two edges with the
/// same source and the same target are the same edge to it.
#[derive(Debug, Clone)]
pub struct DumbGraph {
    adj: HashMap<usize, HashSet<usize>>,
    edges: Vec<DumbEdge>,
}

impl View for DumbGraph {
    type V = GraphState<usize, DumbEdge>;

    closed spec fn view(&self) -> GraphState<usize, DumbEdge> {
        GraphState {
            nodes: self.adj@.dom(),
            edges: self.edges@,
            held: Set::new(|edge: DumbEdge| self.adjacent(edge.source, edge.target)),
        }
    }
}

impl DumbGraph {
    /// Whether `target` is recorded as a neighbour of `source`.
    spec fn adjacent(&self, source: usize, target: usize) -> bool {
        self.adj@.contains_key(source) && self.adj@[source]@.contains(target)
    }

    /// The graph without nodes and without edges.
    pub fn new() -> (graph: Self)
        ensures
            graph.well_formed(),
            graph@.nodes == Set::<usize>::empty(),
            graph@.edges == Seq::<DumbEdge>::empty(),
            graph@.held == Set::<DumbEdge>::empty(),
    {
        let graph = Self { adj: HashMap::new(), edges: Vec::new() };
        assert(graph@.held == Set::<DumbEdge>::empty());
        graph
    }

    /// Whether both ends of `edge` are nodes of the graph.
    pub fn is_valid_edge(&self, edge: &DumbEdge) -> (valid: bool)
        requires
            self.well_formed(),
        ensures
            valid == self@.joins_nodes(*edge),
    {
        self.has_node(edge.source()) && self.has_node(edge.target())
    }

    /// The graph answers for an edge where its list has one between the same two
    /// nodes, and only there.
    pub proof fn lemma_held_edges_are_listed(&self, edge: DumbEdge)
        requires
            self.well_formed(),
        ensures
            self@.held.contains(edge) <==> exists|k: int|
                0 <= k < self@.edges.len() && #[trigger] runs_between(
                    self@.edges[k],
                    edge.spec_source(),
                    edge.spec_target(),
                ),
    {
        if self.adjacent(edge.source, edge.target) {
            let k = choose|k: int|
                0 <= k < self.edges@.len() && #[trigger] runs_between(
                    self.edges@[k],
                    edge.source,
                    edge.target,
                );
            assert(runs_between(self@.edges[k], edge.spec_source(), edge.spec_target()));
        } else {
            assert forall|k: int| 0 <= k < self@.edges.len() implies !#[trigger] runs_between(
                self@.edges[k],
                edge.spec_source(),
                edge.spec_target(),
            ) by {
                assert(self.adjacent(self.edges@[k].source, self.edges@[k].target));
            }
        }
    }

    /// Each edge of the list joins two nodes of the graph, and no two of them run
    /// between the same two nodes.
    pub proof fn lemma_listed_edges_are_sound(&self)
        requires
            self.well_formed(),
        ensures
            forall|k: int|
                0 <= k < self@.edges.len() ==> self@.joins_nodes(#[trigger] self@.edges[k]),
            forall|i: int, j: int|
                0 <= i < j < self@.edges.len() ==> !runs_between(
                    #[trigger] self@.edges[i],
                    (#[trigger] self@.edges[j]).spec_source(),
                    self@.edges[j].spec_target(),
                ),
    {
        assert forall|k: int| 0 <= k < self@.edges.len() implies self@.joins_nodes(
            #[trigger] self@.edges[k],
        ) by {
            assert(self.adjacent(self.edges@[k].source, self.edges@[k].target));
        }
    }
}

impl GraphLike<usize, DumbEdge> for DumbGraph {
    closed spec fn well_formed(&self) -> bool {
        &&& forall|k: int|
            0 <= k < self.edges@.len() ==> {
                &&& self.adjacent((#[trigger] self.edges@[k]).source, self.edges@[k].target)
                &&& self.adj@.contains_key(self.edges@[k].target)
            }
        &&& forall|source: usize, target: usize| #[trigger]
            self.adjacent(source, target) ==> exists|k: int|
                0 <= k < self.edges@.len() && #[trigger] runs_between(
                    self.edges@[k],
                    source,
                    target,
                )
        &&& forall|i: int, j: int|
            0 <= i < j < self.edges@.len() ==> !runs_between(
                #[trigger] self.edges@[i],
                (#[trigger] self.edges@[j]).source,
                self.edges@[j].target,
            )
    }

    open spec fn directed() -> bool {
        true
    }

    fn add_node(&mut self, node: usize) -> (added: bool) {
        broadcast use vstd::std_specs::hash::group_hash_axioms;

        if self.adj.contains_key(&node) {
            assert(self@.nodes.insert(node) == self@.nodes);
            false
        } else {
            let ghost before = *self;
            self.adj.insert(node, HashSet::new());
            proof {
                assert(self.adj@[node]@ == Set::<usize>::empty());
                assert forall|source: usize, target: usize|
                    self.adjacent(source, target) == before.adjacent(source, target) by {}
                assert forall|source: usize, target: usize| #[trigger]
                    self.adjacent(source, target) implies exists|k: int|
                    0 <= k < self.edges@.len() && #[trigger] runs_between(
                        self.edges@[k],
                        source,
                        target,
                    ) by {
                    assert(before.adjacent(source, target));
                    let k = choose|k: int|
                        0 <= k < before.edges@.len() && #[trigger] runs_between(
                            before.edges@[k],
                            source,
                            target,
                        );
                    assert(runs_between(self.edges@[k], source, target));
                }
                assert(self@.held == before@.held);
            }
            true
        }
    }

    fn has_node(&self, node: &usize) -> (found: bool) {
        broadcast use vstd::std_specs::hash::group_hash_axioms;

        self.adj.contains_key(node)
    }

    fn add_edge(&mut self, edge: DumbEdge) -> (outcome: Result<bool, GraphError<usize, DumbEdge>>)
        ensures
            outcome is Ok ==> forall|other: DumbEdge|
                final(self)@.held.contains(other) <==> old(self)@.held.contains(other)
                    || runs_between(other, edge.spec_source(), edge.spec_target()),
    {
        broadcast use vstd::std_specs::hash::group_hash_axioms;

        if !self.is_valid_edge(&edge) {
            return Err(GraphError::InvalidEdge(edge));
        }
        let ghost before = *self;
        let removed = self.adj.remove(&edge.source);
        let mut targets = removed.unwrap();
        let edge_was_inserted = targets.insert(edge.target);
        self.adj.insert(edge.source, targets);
        if edge_was_inserted {
            self.edges.push(edge);
        }
        proof {
            let count = before.edges@.len() as int;
            assert(self.adj@.dom() == before.adj@.dom());
            assert forall|source: usize, target: usize|
                self.adjacent(source, target) == (before.adjacent(source, target) || (source
                    == edge.source && target == edge.target)) by {}
            assert forall|k: int| 0 <= k < count implies self.edges@[k] == before.edges@[k] by {}
            assert forall|source: usize, target: usize| #[trigger]
                self.adjacent(source, target) implies exists|k: int|
                0 <= k < self.edges@.len() && #[trigger] runs_between(
                    self.edges@[k],
                    source,
                    target,
                ) by {
                if before.adjacent(source, target) {
                    let k = choose|k: int|
                        0 <= k < count && #[trigger] runs_between(before.edges@[k], source, target);
                    assert(runs_between(self.edges@[k], source, target));
                } else {
                    assert(runs_between(self.edges@[count], source, target));
                }
            }
            assert forall|i: int, j: int| 0 <= i < j < self.edges@.len() implies !runs_between(
                #[trigger] self.edges@[i],
                (#[trigger] self.edges@[j]).source,
                self.edges@[j].target,
            ) by {
                if j == count {
                    assert(before.adjacent(before.edges@[i].source, before.edges@[i].target));
                }
            }
            if !edge_was_inserted {
                assert(self@.held == before@.held);
            }
        }
        Ok(edge_was_inserted)
    }

    fn has_edge(&self, edge: &DumbEdge) -> (found: bool) {
        broadcast use vstd::std_specs::hash::group_hash_axioms;

        if !self.is_valid_edge(edge) {
            proof {
                if self.adjacent(edge.source, edge.target) {
                    let k = choose|k: int|
                        0 <= k < self.edges@.len() && #[trigger] runs_between(
                            self.edges@[k],
                            edge.source,
                            edge.target,
                        );
                    assert(self.adjacent(self.edges@[k].source, self.edges@[k].target));
                }
            }
            return false;
        }
        match self.adj.get(&edge.source) {
            Some(targets) => targets.contains(&edge.target),
            None => false,
        }
    }

    fn is_directed(&self) -> (directed: bool) {
        true
    }

    fn node_iter(&self) -> (nodes: Vec<&usize>) {
        broadcast use vstd::std_specs::hash::group_hash_axioms;

        let mut nodes: Vec<&usize> = Vec::new();
        for node in keys: self.adj.keys()
            invariant
                nodes@ == keys.seq().take(keys.index()),
                keys.seq() == self.adj.keys().remaining(),
        {
            nodes.push(node);
        }
        proof {
            assert(nodes@ == self.adj.keys().remaining());
            assert forall|i: int, j: int|
                0 <= i < nodes@.len() && 0 <= j < nodes@.len() && i != j implies nodes@.unref()[i]
                != nodes@.unref()[j] by {
                assert(nodes@[i] != nodes@[j]);
            }
        }
        nodes
    }

    fn edge_iter(&self) -> (edges: Vec<&DumbEdge>) {
        let mut edges: Vec<&DumbEdge> = Vec::new();
        let mut k: usize = 0;
        while k < self.edges.len()
            invariant
                k <= self.edges@.len(),
                edges@.len() == k,
                forall|i: int| 0 <= i < k ==> *edges@[i] == self.edges@[i],
            decreases self.edges@.len() - k,
        {
            edges.push(&self.edges[k]);
            k += 1;
        }
        assert(edges@.unref() == self@.edges);
        edges
    }
}

} // verus!
