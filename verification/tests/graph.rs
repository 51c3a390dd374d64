use random_graphs::{DumbEdge, DumbGraph, EdgeLike, GraphError, GraphLike};

#[test]
fn test_dumb_graph() {
    let mut g = DumbGraph::new();
    g.add_node(3);
    g.add_node(7);
    let _ = g.add_edge(DumbEdge::new(3, 7));

    {
        // Check that node iteration works as expected
        let mut node_iter = g.node_iter().into_iter();
        assert!(node_iter.next().is_some());
        assert!(node_iter.next().is_some());
        assert_eq!(node_iter.next(), None);
    }

    {
        // Check that edge iteration works as expected
        let mut edge_iter = g.edge_iter().into_iter();
        let next_edge = edge_iter.next().unwrap();
        assert_eq!(*next_edge.source(), 3);
        assert_eq!(*next_edge.target(), 7);
        assert!(edge_iter.next().is_none());
    }
}

#[test]
fn new_edge_has_its_ends_and_no_key() {
    let edge = DumbEdge::new(11, 4);
    assert_eq!(*edge.source(), 11);
    assert_eq!(*edge.target(), 4);
    assert_eq!(edge.key(), None);
}

#[test]
fn new_graph_is_empty() {
    let g = DumbGraph::new();
    assert!(g.node_iter().is_empty());
    assert!(g.edge_iter().is_empty());
    assert!(!g.has_node(&0));
    assert!(!g.has_edge(&DumbEdge::new(0, 0)));
}

#[test]
fn dumb_graph_is_directed() {
    let g = DumbGraph::new();
    assert!(g.is_directed());
    assert!(!g.is_undirected());
}

#[test]
fn adding_a_node_twice_adds_it_once() {
    let mut g = DumbGraph::new();
    assert!(g.add_node(5));
    assert!(g.has_node(&5));
    assert_eq!(g.node_iter().len(), 1);
    assert!(!g.add_node(5));
    assert!(g.has_node(&5));
    assert_eq!(g.node_iter().len(), 1);
    assert_eq!(g.edge_iter().len(), 0);
}

#[test]
fn adding_an_edge_twice_adds_it_once() {
    let mut g = DumbGraph::new();
    g.add_node(1);
    g.add_node(2);
    assert!(matches!(g.add_edge(DumbEdge::new(1, 2)), Ok(true)));
    assert_eq!(g.edge_iter().len(), 1);
    assert!(matches!(g.add_edge(DumbEdge::new(1, 2)), Ok(false)));
    assert_eq!(g.edge_iter().len(), 1);
    assert_eq!(g.node_iter().len(), 2);
    assert!(g.has_edge(&DumbEdge::new(1, 2)));
}

#[test]
fn edges_keep_the_order_in_which_they_were_added() {
    let mut g = DumbGraph::new();
    for node in 0..4 {
        g.add_node(node);
    }
    assert!(matches!(g.add_edge(DumbEdge::new(2, 3)), Ok(true)));
    assert!(matches!(g.add_edge(DumbEdge::new(0, 1)), Ok(true)));
    assert!(matches!(g.add_edge(DumbEdge::new(2, 3)), Ok(false)));
    assert!(matches!(g.add_edge(DumbEdge::new(3, 2)), Ok(true)));
    let ends: Vec<(usize, usize)> =
        g.edge_iter().into_iter().map(|edge| (*edge.source(), *edge.target())).collect();
    assert_eq!(ends, vec![(2, 3), (0, 1), (3, 2)]);
}

#[test]
fn an_edge_has_a_direction() {
    let mut g = DumbGraph::new();
    g.add_node(1);
    g.add_node(2);
    assert!(matches!(g.add_edge(DumbEdge::new(1, 2)), Ok(true)));
    assert!(g.has_edge(&DumbEdge::new(1, 2)));
    assert!(!g.has_edge(&DumbEdge::new(2, 1)));
}

#[test]
fn a_loop_is_an_edge_like_any_other() {
    let mut g = DumbGraph::new();
    g.add_node(4);
    assert!(!g.has_edge(&DumbEdge::new(4, 4)));
    assert!(matches!(g.add_edge(DumbEdge::new(4, 4)), Ok(true)));
    assert!(g.has_edge(&DumbEdge::new(4, 4)));
    assert!(matches!(g.add_edge(DumbEdge::new(4, 4)), Ok(false)));
    assert_eq!(g.edge_iter().len(), 1);
}

#[test]
fn an_edge_to_a_missing_node_is_invalid() {
    let mut g = DumbGraph::new();
    g.add_node(1);
    assert!(!g.is_valid_edge(&DumbEdge::new(1, 2)));
    match g.add_edge(DumbEdge::new(1, 2)) {
        Err(GraphError::InvalidEdge(edge)) => {
            assert_eq!(*edge.source(), 1);
            assert_eq!(*edge.target(), 2);
        }
        _ => panic!("the edge ends at a node that was never added"),
    }
    assert!(matches!(g.add_edge(DumbEdge::new(2, 1)), Err(GraphError::InvalidEdge(_))));
    assert!(matches!(g.add_edge(DumbEdge::new(8, 9)), Err(GraphError::InvalidEdge(_))));
    assert_eq!(g.edge_iter().len(), 0);
    assert_eq!(g.node_iter().len(), 1);
    assert!(!g.has_edge(&DumbEdge::new(1, 2)));
}

#[test]
fn an_edge_is_valid_once_both_ends_are_nodes() {
    let mut g = DumbGraph::new();
    g.add_node(1);
    assert!(!g.is_valid_edge(&DumbEdge::new(1, 2)));
    g.add_node(2);
    assert!(g.is_valid_edge(&DumbEdge::new(1, 2)));
    assert!(g.is_valid_edge(&DumbEdge::new(2, 1)));
    assert!(g.is_valid_edge(&DumbEdge::new(2, 2)));
    assert!(!g.has_edge(&DumbEdge::new(1, 2)));
}

#[test]
fn nodes_come_out_each_once() {
    let mut g = DumbGraph::new();
    for node in [9, 3, 9, 5, 3] {
        g.add_node(node);
    }
    let mut nodes: Vec<usize> = g.node_iter().into_iter().copied().collect();
    nodes.sort();
    assert_eq!(nodes, vec![3, 5, 9]);
}
