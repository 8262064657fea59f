//! Reverse-mode automatic differentiation over a graph of scalar nodes.
//!
//! Nodes live in an arena ([`graph::Graph`]) and refer to their operands by
//! index. An operand is always created before the node that uses it, so every
//! operand index is smaller than its consumer's index and the graph is acyclic
//! by construction.

pub mod scalar;
pub mod graph;
pub mod topo;
/// Properties of the backward pass proved over the spec counterparts of the
/// arithmetic.
pub mod laws;
