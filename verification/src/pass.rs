//! Pass traits: the extension points of the optimizer.
//!
//! All graph analysis and transformation is done through passes. Adding a
//! new analysis or fusion strategy requires implementing one trait.

use vstd::prelude::*;
use crate::error::Result;
use crate::graph::Graph;

verus! {

/// A read-only analysis pass over the computation graph.
///
/// Implement this trait to add custom analysis (memory estimation,
/// bottleneck detection, roofline modeling, etc.).
pub trait AnalysisPass {
    /// The type of report this analysis produces.
    type Report;

    /// Human-readable name for logging.
    fn name(&self) -> &'static str;

    /// Run the analysis on a well-formed graph and produce a report.
    ///
    /// # Errors
    ///
    /// Returns an error if the analysis encounters invalid graph structure.
    fn analyze(&self, graph: &Graph) -> Result<Self::Report>
        requires
            graph.wf(),
    ;
}

/// A graph transformation pass that mutates the graph.
///
/// Implement this trait to add custom optimizations (fusion, pruning,
/// precision selection, etc.).
pub trait TransformPass {
    /// Human-readable name for logging.
    fn name(&self) -> &'static str;

    /// Apply this transformation to a well-formed graph, mutating it in
    /// place; the graph stays well formed. Returns the number of
    /// transformations applied (e.g., number of fusions performed).
    ///
    /// # Errors
    ///
    /// Returns an error if the transformation encounters invalid graph
    /// structure or fails a precondition check.
    fn transform(&self, graph: &mut Graph) -> (r: Result<usize>)
        requires
            old(graph).wf(),
        ensures
            final(graph).wf(),
    ;
}

} // verus!
