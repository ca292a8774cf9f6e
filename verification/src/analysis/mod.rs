//! Analysis passes over the computation graph.

pub mod bandwidth;
