//! A balanced hypergraph partitioner: a validated hypergraph store, an
//! evaluator for the cut and connectivity objectives, and a driver that builds
//! and improves balanced k-way partitions that honour fixed vertices.

pub mod hypergraph;
pub mod evaluate;
pub mod partitioner;
pub mod coarsening;
pub mod laws;

pub use hypergraph::{Hypergraph, HypergraphBuilder, HypergraphModel, PartitionError, UNFIXED};

pub use evaluate::{Evaluation, Metric};

pub use coarsening::Contraction;

pub use partitioner::{Context, Solution, Status};
