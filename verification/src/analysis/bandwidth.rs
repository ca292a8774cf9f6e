//! Bandwidth analysis: estimate HBM traffic for every node in the graph.
//!
//! This is the core analysis that motivates kernel fusion. Each unfused
//! operation reads its inputs from HBM and writes its outputs to HBM.
//! Fused operations keep intermediates in SRAM, dramatically reducing
//! total HBM traffic.
//!
//! The report carries integer counts only; the arithmetic intensity
//! (FLOPs per byte) is a ratio of two of them and is left to the caller.

use vstd::prelude::*;
use crate::arith::{add_sat, sat_add};
use crate::dtype::DType;
use crate::error::{owned, Error, Result};
use crate::graph::builder::{first_missing, lemma_first_missing_concat, shapes_of};
use crate::graph::topo::{in_degrees_fit, is_acyclic, is_cycle, is_topological, is_traversal, lemma_acyclic_iff_no_cycle, leaves_out_only_cycles,
    lemma_complete_order_iff_acyclic, lemma_order_len, lists_all};
use crate::graph::{Graph, GraphView, NodeId, NodeView, TensorId};
use crate::op::flops::flops_rule;
use crate::op::hbm::{hbm_read_rule, hbm_write_rule};
use crate::pass::AnalysisPass;
use crate::text::{dec_text, push_dec};

verus! {

broadcast use crate::graph::group_graph_model;

/// Per-node bandwidth statistics.
#[derive(Debug, Clone)]
pub struct NodeBandwidth {
    /// The node this measurement belongs to.
    pub node_id: NodeId,
    /// Human-readable node name.
    pub node_name: String,
    /// Operation name.
    pub op_name: String,
    /// Bytes read from HBM.
    pub hbm_read: u64,
    /// Bytes written to HBM.
    pub hbm_write: u64,
    /// Total HBM traffic (read + write, saturating).
    pub hbm_total: u64,
    /// Floating-point operations.
    pub flops: u64,
    /// Whether this is a fused operation.
    pub is_fused: bool,
}

/// Summary of bandwidth analysis across the entire graph.
#[derive(Debug, Clone)]
pub struct BandwidthReport {
    /// Per-node bandwidth breakdown, in topological order.
    pub nodes: Vec<NodeBandwidth>,
    /// Total HBM bytes read across all nodes.
    pub total_hbm_read: u64,
    /// Total HBM bytes written across all nodes.
    pub total_hbm_write: u64,
    /// Total HBM traffic (read + write).
    pub total_hbm_traffic: u64,
    /// Total floating-point operations.
    pub total_flops: u64,
}

/// The bandwidth analysis pass.
///
/// Estimates HBM read/write traffic for every node based on tensor shapes,
/// dtypes, and operation semantics. Fused operations report dramatically
/// lower traffic because intermediates stay in SRAM.
pub struct BandwidthAnalysis;

/// The element type traffic is read in: that of the node's first input,
/// or `F16` when there is none.
pub open spec fn input_dtype(g: GraphView, n: NodeView) -> DType {
    if n.inputs.len() > 0 && g.tensors.contains_key(n.inputs[0]@) {
        g.tensors[n.inputs[0]@].dtype
    } else {
        DType::F16
    }
}

/// The element type traffic is written in: that of the node's first
/// output, or else the input element type.
pub open spec fn output_dtype(g: GraphView, n: NodeView) -> DType {
    if n.outputs.len() > 0 && g.tensors.contains_key(n.outputs[0]@) {
        g.tensors[n.outputs[0]@].dtype
    } else {
        input_dtype(g, n)
    }
}

/// Bytes node `n` reads from HBM.
pub open spec fn node_read(g: GraphView, n: NodeView) -> u64 {
    hbm_read_rule(n.op, shapes_of(g, n.inputs), input_dtype(g, n))
}

/// Bytes node `n` writes to HBM.
pub open spec fn node_write(g: GraphView, n: NodeView) -> u64 {
    hbm_write_rule(n.op, shapes_of(g, n.outputs), output_dtype(g, n))
}

/// Floating-point operations of node `n`.
pub open spec fn node_flops(g: GraphView, n: NodeView) -> u64 {
    flops_rule(n.op, shapes_of(g, n.inputs), shapes_of(g, n.outputs))
}

/// `b` is the row of node `id`.
pub open spec fn row_of(g: GraphView, id: NodeId, b: NodeBandwidth) -> bool {
    let n = g.nodes[id@];
    &&& b.node_id == id
    &&& b.node_name@ == n.name
    &&& b.op_name@ == n.op.spec_name()
    &&& b.hbm_read == node_read(g, n)
    &&& b.hbm_write == node_write(g, n)
    &&& b.hbm_total == sat_add(node_read(g, n), node_write(g, n))
    &&& b.flops == node_flops(g, n)
    &&& b.is_fused == n.op.spec_is_fused()
}

/// The first tensor id naming no tensor among the inputs, then outputs,
/// of the first node in `order` that has such an id.
pub open spec fn first_dangling(g: GraphView, order: Seq<NodeId>) -> Option<TensorId>
    decreases order.len(),
{
    if order.len() == 0 {
        None
    } else {
        match first_dangling(g, order.drop_last()) {
            Some(t) => Some(t),
            None => first_missing(g, g.nodes[order.last()@].inputs + g.nodes[order.last()@].outputs),
        }
    }
}

/// Sum of the bytes read by the nodes of `order`.
pub open spec fn read_sum(g: GraphView, order: Seq<NodeId>) -> nat
    decreases order.len(),
{
    if order.len() == 0 { 0nat } else { read_sum(g, order.drop_last()) + node_read(g, g.nodes[order.last()@]) as nat }
}

/// Sum of the bytes written by the nodes of `order`.
pub open spec fn write_sum(g: GraphView, order: Seq<NodeId>) -> nat
    decreases order.len(),
{
    if order.len() == 0 { 0nat } else { write_sum(g, order.drop_last()) + node_write(g, g.nodes[order.last()@]) as nat }
}

/// Sum of the floating-point operations of the nodes of `order`.
pub open spec fn flops_sum(g: GraphView, order: Seq<NodeId>) -> nat
    decreases order.len(),
{
    if order.len() == 0 { 0nat } else { flops_sum(g, order.drop_last()) + node_flops(g, g.nodes[order.last()@]) as nat }
}

/// `x` clamped at `u64::MAX`.
pub open spec fn clamp(x: nat) -> u64 {
    if x > u64::MAX { u64::MAX } else { x as u64 }
}

/// The reason given for a graph whose topological order misses nodes.
pub open spec fn cycle_reason(visited: nat, total: nat) -> Seq<char> {
    "graph contains a cycle: topological order visited "@ + dec_text(visited) + " of "@ + dec_text(total)
        + " nodes. Fix: remove the cyclic edge before running analysis."@
}

/// `rep` reports the nodes of `order`, one row each in that order, with
/// totals that are the sums clamped at `u64::MAX`.
pub open spec fn report_matches(g: GraphView, order: Seq<NodeId>, rep: BandwidthReport) -> bool {
    &&& rep.nodes@.len() == order.len()
    &&& forall|i: int| 0 <= i < order.len() ==> row_of(g, order[i], #[trigger] rep.nodes@[i])
    &&& rep.total_hbm_read == clamp(read_sum(g, order))
    &&& rep.total_hbm_write == clamp(write_sum(g, order))
    &&& rep.total_hbm_traffic == sat_add(rep.total_hbm_read, rep.total_hbm_write)
    &&& rep.total_flops == clamp(flops_sum(g, order))
}

/// The outcome of analysing `g` node by node in `order`: a cycle error
/// when `order` misses nodes, else an unknown-tensor error for the first
/// dangling tensor reference, else the report.
pub open spec fn analysis_outcome(g: GraphView, order: Seq<NodeId>, r: Result<BandwidthReport>) -> bool {
    match r {
        Err(Error::InvalidGraph { reason }) =>
            order.len() != g.nodes.len() && reason@ == cycle_reason(order.len(), g.nodes.len()),
        Err(Error::UnknownId { kind, id }) =>
            order.len() == g.nodes.len() && kind@ == "tensor"@
                && (first_dangling(g, order) matches Some(t) && t@ == id),
        Ok(rep) =>
            order.len() == g.nodes.len() && first_dangling(g, order) is None && report_matches(g, order, rep),
        Err(_) => false,
    }
}

proof fn lemma_first_dangling_extends(g: GraphView, order: Seq<NodeId>, i: int)
    requires
        0 <= i <= order.len(),
        first_dangling(g, order.subrange(0, i)) is Some,
    ensures
        first_dangling(g, order) == first_dangling(g, order.subrange(0, i)),
    decreases order.len() - i,
{
    if i < order.len() {
        assert(order.subrange(0, i + 1).drop_last() =~= order.subrange(0, i));
        lemma_first_dangling_extends(g, order, i + 1);
    } else {
        assert(order.subrange(0, i) =~= order);
    }
}

proof fn lemma_clamp_step(s: nat, x: u64)
    ensures
        sat_add(clamp(s), x) == clamp(s + x as nat),
{
}

/// Analyse the nodes of `graph` in the given topological `order`.
///
/// # Errors
///
/// [`Error::InvalidGraph`] when `order` misses nodes of the graph (it
/// stalled on a cycle); [`Error::UnknownId`] for the first tensor id, in
/// order, that a node reads or writes but the graph does not hold.
pub fn analyze_in_order(graph: &Graph, order: &[NodeId]) -> (r: Result<BandwidthReport>)
    requires
        graph.wf(),
        is_topological(graph@, order@),
    ensures
        analysis_outcome(graph@, order@, r),
{
    let ghost g = graph@;
    let n_nodes = graph.num_nodes();
    if order.len() != n_nodes {
        let mut reason = owned("graph contains a cycle: topological order visited ");
        push_dec(&mut reason, order.len() as u64);
        reason.append(" of ");
        push_dec(&mut reason, n_nodes as u64);
        reason.append(" nodes. Fix: remove the cyclic edge before running analysis.");
        return Err(Error::InvalidGraph { reason });
    }
    let mut nodes: Vec<NodeBandwidth> = Vec::new();
    let mut total_read: u64 = 0;
    let mut total_write: u64 = 0;
    let mut total_flops: u64 = 0;
    let mut i: usize = 0;
    while i < order.len()
        invariant
            g == graph@,
            g.wf(),
            is_topological(g, order@),
            order@.len() == g.nodes.len(),
            i <= order@.len(),
            first_dangling(g, order@.subrange(0, i as int)) is None,
            nodes@.len() == i,
            forall|k: int| 0 <= k < i ==> row_of(g, order@[k], #[trigger] nodes@[k]),
            total_read == clamp(read_sum(g, order@.subrange(0, i as int))),
            total_write == clamp(write_sum(g, order@.subrange(0, i as int))),
            total_flops == clamp(flops_sum(g, order@.subrange(0, i as int))),
        decreases order@.len() - i,
    {
        let ghost pre = order@.subrange(0, i as int);
        let ghost cur = order@.subrange(0, i + 1);
        proof {
            assert(cur.drop_last() =~= pre);
            assert(cur.last() == order@[i as int]);
        }
        let nid = order[i];
        let node = match graph.node_by_id(nid) {
            Some(nd) => nd,
            None => {
                proof {
                    assert(g.nodes.contains_key(order@[i as int]@));
                }
                return Err(Error::UnknownId { kind: "node", id: nid.0 });
            },
        };
        let ghost nv = g.nodes[nid@];
        let ins = node.inputs();
        let outs = node.outputs();
        proof {
            lemma_first_missing_concat(g, nv.inputs, nv.outputs);
        }
        let in_shapes = match graph.shapes_of_ids(ins) {
            Ok(v) => v,
            Err(t) => {
                proof {
                    assert(first_dangling(g, cur) == Some(t));
                    lemma_first_dangling_extends(g, order@, i + 1);
                }
                return Err(Error::UnknownId { kind: "tensor", id: t.0 });
            },
        };
        let out_shapes = match graph.shapes_of_ids(outs) {
            Ok(v) => v,
            Err(t) => {
                proof {
                    assert(first_dangling(g, cur) == Some(t));
                    lemma_first_dangling_extends(g, order@, i + 1);
                }
                return Err(Error::UnknownId { kind: "tensor", id: t.0 });
            },
        };
        let in_dtype = if ins.len() > 0 {
            match graph.tensor(ins[0]) {
                Some(t) => t.dtype(),
                None => DType::F16,
            }
        } else {
            DType::F16
        };
        let out_dtype = if outs.len() > 0 {
            match graph.tensor(outs[0]) {
                Some(t) => t.dtype(),
                None => in_dtype,
            }
        } else {
            in_dtype
        };
        let op = node.op();
        let hbm_read = op.hbm_bytes_read(in_shapes.as_slice(), in_dtype);
        let hbm_write = op.hbm_bytes_written(out_shapes.as_slice(), out_dtype);
        let flops = op.flops(in_shapes.as_slice(), out_shapes.as_slice());
        let hbm_total = add_sat(hbm_read, hbm_write);
        let row = NodeBandwidth {
            node_id: nid,
            node_name: owned(node.name()),
            op_name: owned(op.name()),
            hbm_read,
            hbm_write,
            hbm_total,
            flops,
            is_fused: op.is_fused(),
        };
        proof {
            assert(in_dtype == input_dtype(g, nv));
            assert(out_dtype == output_dtype(g, nv));
            assert(row_of(g, nid, row));
            lemma_clamp_step(read_sum(g, pre), hbm_read);
            lemma_clamp_step(write_sum(g, pre), hbm_write);
            lemma_clamp_step(flops_sum(g, pre), flops);
        }
        let ghost before = nodes@;
        nodes.push(row);
        total_read = add_sat(total_read, hbm_read);
        total_write = add_sat(total_write, hbm_write);
        total_flops = add_sat(total_flops, flops);
        proof {
            assert forall|k: int| 0 <= k < i + 1 implies row_of(g, order@[k], #[trigger] nodes@[k]) by {
                if k < i {
                    assert(nodes@[k] == before[k]);
                }
            }
        }
        i = i + 1;
    }
    proof {
        assert(order@.subrange(0, order@.len() as int) =~= order@);
    }
    let total_traffic = add_sat(total_read, total_write);
    Ok(BandwidthReport {
        nodes,
        total_hbm_read: total_read,
        total_hbm_write: total_write,
        total_hbm_traffic: total_traffic,
        total_flops,
    })
}

impl AnalysisPass for BandwidthAnalysis {
    type Report = BandwidthReport;

    fn name(&self) -> (r: &'static str)
        ensures
            r@ == "bandwidth"@,
    {
        "bandwidth"
    }

    /// Analyse the graph in its topological order (see
    /// [`Graph::topological_order`] and [`analyze_in_order`]). A graph with
    /// a cycle is refused with [`Error::InvalidGraph`] rather than reported
    /// on in part.
    fn analyze(&self, graph: &Graph) -> (r: Result<BandwidthReport>)
        ensures
            exists|order: Seq<NodeId>|
                is_traversal(graph@, order)
                && (in_degrees_fit(graph@) ==> leaves_out_only_cycles(graph@, order))
                && #[trigger] analysis_outcome(graph@, order, r),
            in_degrees_fit(graph@) ==> ((r matches Err(Error::InvalidGraph { .. })) <==> !is_acyclic(graph@)),
            in_degrees_fit(graph@) ==> ((r matches Err(Error::InvalidGraph { .. }))
                <==> exists|c: Seq<u32>| #[trigger] is_cycle(graph@, c)),
    {
        let order = graph.topological_order();
        proof {
            assert(graph@.nodes.dom() =~= graph.nodes@.dom());
            lemma_order_len(graph@, order@);
            if in_degrees_fit(graph@) {
                lemma_complete_order_iff_acyclic(graph@, order@);
            }
            if in_degrees_fit(graph@) {
                lemma_acyclic_iff_no_cycle(graph@, order@);
            }
        }
        analyze_in_order(graph, order.as_slice())
    }
}

} // verus!
