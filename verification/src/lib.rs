//! # mlgraph - bandwidth-aware computation graph optimizer
//!
//! Analyzes and transforms ML model computation graphs to minimize HBM
//! (High Bandwidth Memory) traffic through operation fusion. Every shape
//! rule, cost estimate, graph mutation and fusion pass carries a
//! machine-checked contract.

pub mod analysis;
pub mod arith;
pub mod dtype;
pub mod error;
pub mod fusion;
pub mod graph;
pub mod mcts;
pub mod models;
pub mod op;
pub mod pass;
pub mod scalar;
pub mod text;

pub use dtype::DType;
pub use error::{Error, Result};
pub use graph::{Graph, Node, NodeId, TensorId, TensorMeta};
pub use pass::{AnalysisPass, TransformPass};
