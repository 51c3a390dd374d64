use petgraph::graph::{Graph, NodeIndex};
use petgraph::visit::EdgeRef;
use petgraph::Undirected;
use rand::rngs::StdRng;
use rand::SeedableRng;
use random_graphs::distributions::uniform::{
    graph_from_ranks, UniformGraphDistribution, UniformGraphError,
};

fn ends_of(graph: &Graph<usize, (), Undirected>) -> Vec<(usize, usize)> {
    graph.edge_references().map(|edge| (edge.source().index(), edge.target().index())).collect()
}

#[test]
fn test_invalid_edge_count_causes_error() {
    // In an undirected graph on 4 nodes, there are at most 6 edges (count them, I dare you!)
    let distribution = UniformGraphDistribution::new(4, 6);
    assert!(distribution.is_ok());

    let distribution = UniformGraphDistribution::new(4, 7);
    assert_eq!(distribution.err(), Some(UniformGraphError::TooManyEdges));
}

#[test]
fn test_uniform_graph_distribution() {
    let nodes: usize = 4;
    let edges: usize = 2;

    let distribution = UniformGraphDistribution::new(nodes, edges).unwrap();
    let mut rng = StdRng::seed_from_u64(0x5eed_0001);

    let mut edge_buckets = vec![vec![0; nodes]; nodes];

    for _ in 0..10000 {
        let graph = distribution.sample(&mut rng);
        assert_eq!(graph.node_count(), nodes);
        assert_eq!(graph.edge_count(), edges);

        for edge in graph.edge_references() {
            let src_index = edge.source().index();
            let tgt_index = edge.target().index();

            // Graph has no self loops
            assert_ne!(src_index, tgt_index);

            // An edge has no direction: it counts for the pair, whichever end comes first
            edge_buckets[src_index][tgt_index] += 1;
            edge_buckets[tgt_index][src_index] += 1;
        }
    }

    let minimum_bucket_size = edge_buckets
        .iter()
        .enumerate()
        .map(|(index, inner_bucket)| {
            inner_bucket
                .iter()
                .enumerate()
                .filter(|(inner_index, _)| *inner_index != index)
                .min()
                .unwrap()
                .clone()
        })
        .map(|(_, inner_min)| *inner_min)
        .min()
        .unwrap();

    let maximum_bucket_size = edge_buckets
        .iter()
        .enumerate()
        .map(|(index, inner_bucket)| {
            inner_bucket
                .iter()
                .enumerate()
                .filter(|(inner_index, _)| *inner_index != index)
                .max()
                .unwrap()
                .clone()
        })
        .map(|(_, inner_max)| *inner_max)
        .max()
        .unwrap();

    let relative_delta =
        ((maximum_bucket_size - minimum_bucket_size) as f32) / (minimum_bucket_size as f32);
    assert!(relative_delta < 0.10);
}

#[test]
fn every_pair_is_chosen_about_as_often() {
    let nodes: usize = 4;
    let distribution = UniformGraphDistribution::new(nodes, 2).unwrap();
    let mut rng = StdRng::seed_from_u64(0x5eed_0002);
    let mut chosen = vec![vec![0u32; nodes]; nodes];
    for _ in 0..12000 {
        for (low, high) in ends_of(&distribution.sample(&mut rng)) {
            assert!(low < high);
            chosen[low][high] += 1;
        }
    }
    // Each of the 6 pairs is in one graph out of three: 4000 times on average.
    for low in 0..nodes {
        for high in (low + 1)..nodes {
            assert!(chosen[low][high] > 3700, "pair ({low}, {high}): {}", chosen[low][high]);
            assert!(chosen[low][high] < 4300, "pair ({low}, {high}): {}", chosen[low][high]);
        }
    }
}

#[test]
fn as_many_edges_as_pairs_are_allowed() {
    assert!(UniformGraphDistribution::new(0, 0).is_ok());
    assert!(UniformGraphDistribution::new(1, 0).is_ok());
    assert!(UniformGraphDistribution::new(2, 1).is_ok());
    assert!(UniformGraphDistribution::new(9, 36).is_ok());
    assert!(UniformGraphDistribution::new(100_000, 4_999_950_000).is_ok());
}

#[test]
fn more_edges_than_pairs_are_too_many() {
    assert_eq!(UniformGraphDistribution::new(0, 1).err(), Some(UniformGraphError::TooManyEdges));
    assert_eq!(UniformGraphDistribution::new(1, 1).err(), Some(UniformGraphError::TooManyEdges));
    assert_eq!(UniformGraphDistribution::new(2, 2).err(), Some(UniformGraphError::TooManyEdges));
    assert_eq!(UniformGraphDistribution::new(9, 37).err(), Some(UniformGraphError::TooManyEdges));
    assert_eq!(
        UniformGraphDistribution::new(100_000, 4_999_950_001).err(),
        Some(UniformGraphError::TooManyEdges)
    );
}

#[test]
fn no_number_of_edges_is_too_many_for_pairs_beyond_counting() {
    assert!(UniformGraphDistribution::new(usize::MAX, usize::MAX).is_ok());
    assert!(UniformGraphDistribution::new(usize::MAX, 0).is_ok());
}

#[test]
fn large_uniform_models_cannot_be_sampled() {
    assert!(UniformGraphDistribution::new(4, 2).unwrap().can_sample());
    assert!(UniformGraphDistribution::new(0, 0).unwrap().can_sample());
    assert!(UniformGraphDistribution::new(0xffff_ffff, 0).unwrap().can_sample());
    assert!(!UniformGraphDistribution::new(0x1_0000_0000, 0).unwrap().can_sample());
    assert!(UniformGraphDistribution::new(100_000, 0xffff_ffff).unwrap().can_sample());
    assert!(!UniformGraphDistribution::new(100_000, 0x1_0000_0000).unwrap().can_sample());
    assert!(!UniformGraphDistribution::new(usize::MAX, 1).unwrap().can_sample());
}

#[test]
fn samples_are_simple_graphs_of_the_size_asked_for() {
    let mut rng = StdRng::seed_from_u64(0x5eed_0003);
    for nodes in 0..8usize {
        let pairs: usize = nodes * nodes.saturating_sub(1) / 2;
        for edges in 0..=pairs {
            let distribution = UniformGraphDistribution::new(nodes, edges).unwrap();
            let graph = distribution.sample(&mut rng);
            assert_eq!(graph.node_count(), nodes);
            assert_eq!(graph.edge_count(), edges);
            let mut ends = ends_of(&graph);
            for (low, high) in ends.iter() {
                assert!(low < high);
                assert!(*high < nodes);
            }
            ends.sort();
            ends.dedup();
            assert_eq!(ends.len(), edges);
        }
    }
}

#[test]
fn uniform_nodes_are_numbered_from_zero() {
    let distribution = UniformGraphDistribution::new(5, 3).unwrap();
    let graph = distribution.sample(&mut StdRng::seed_from_u64(0x5eed_0004));
    for number in 0..5usize {
        assert_eq!(graph.node_weight(NodeIndex::new(number)), Some(&number));
    }
    assert_eq!(graph.node_weight(NodeIndex::new(5)), None);
    assert!(!graph.is_directed());
}

#[test]
fn no_edges_give_the_empty_graph() {
    let distribution = UniformGraphDistribution::new(6, 0).unwrap();
    let graph = distribution.sample(&mut StdRng::seed_from_u64(0x5eed_0005));
    assert_eq!(graph.node_count(), 6);
    assert_eq!(graph.edge_count(), 0);
}

#[test]
fn all_edges_give_the_complete_graph() {
    let distribution = UniformGraphDistribution::new(5, 10).unwrap();
    let graph = distribution.sample(&mut StdRng::seed_from_u64(0x5eed_0006));
    let mut ends = ends_of(&graph);
    ends.sort();
    assert_eq!(
        ends,
        vec![(0, 1), (0, 2), (0, 3), (0, 4), (1, 2), (1, 3), (1, 4), (2, 3), (2, 4), (3, 4)]
    );
}

#[test]
fn the_same_seed_gives_the_same_uniform_graph() {
    let distribution = UniformGraphDistribution::new(12, 20).unwrap();
    let first = distribution.sample(&mut StdRng::seed_from_u64(77));
    let second = distribution.sample(&mut StdRng::seed_from_u64(77));
    assert_eq!(ends_of(&first), ends_of(&second));
}

#[test]
fn ranks_decide_the_edges() {
    let graph = graph_from_ranks(4, &vec![0, 5]);
    assert_eq!(graph.node_count(), 4);
    assert_eq!(ends_of(&graph), vec![(0, 1), (2, 3)]);

    let graph = graph_from_ranks(4, &vec![4, 2, 3]);
    assert_eq!(ends_of(&graph), vec![(1, 3), (0, 3), (1, 2)]);

    let graph = graph_from_ranks(3, &Vec::new());
    assert_eq!(graph.node_count(), 3);
    assert_eq!(graph.edge_count(), 0);
}
