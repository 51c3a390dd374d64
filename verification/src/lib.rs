//! Random graphs drawn from two models: the binomial model, in which every pair
//! of nodes is joined with the same probability, and the uniform model, in which
//! every graph with a given number of edges is as likely as any other.
//!
//! - [`graph`] holds the graph abstraction and a plain graph that offers it.
//! - [`pairs`] counts and numbers the pairs of nodes that an edge can join.
//! - [`undirected`] and [`random`] state what the library takes from `petgraph`
//!   and from `rand`.
//! - [`distributions`] holds the two models.

pub mod distributions;
pub mod graph;
pub mod pairs;
pub mod random;
pub mod undirected;

pub use graph::{DumbEdge, DumbGraph, EdgeLike, GraphError, GraphLike};
