//! # Simple Pagerank
//!
//! The verified core of a PageRank engine over a directed graph that is
//! supplied one edge at a time.
//!
//! [`graph`] interns node identifiers into dense indices and records edges
//! as per-node adjacency (incoming sources, out-degree). [`ranking`] orders
//! nodes by a score key, highest first, ties by insertion order. Scores
//! themselves are 64-bit floating-point values and are kept by the caller.
use vstd::prelude::*;

pub mod graph;
pub mod model;
pub mod ranking;

pub use graph::Pagerank;
pub use model::LinkModel;
pub use ranking::rank_order;

verus! {

} // verus!
