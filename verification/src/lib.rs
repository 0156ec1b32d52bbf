//! Fluid Communities: a density-weighted, randomized label-propagation
//! community-detection algorithm over an undirected graph, with verified
//! bookkeeping and convergence behaviour.

pub mod assemble;
pub mod counting;
pub mod fluid;
pub mod graph;
pub mod pgraph;
pub mod score;
mod randsrc;
