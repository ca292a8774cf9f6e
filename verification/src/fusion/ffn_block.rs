//! FFN block fusion pass.
//!
//! Detects the pattern:
//! ```text
//! x ──→ LayerNorm ──→ Linear(up) ──→ GELU ──→ Linear(down) ──→ Add(residual)
//! ```
//!
//! And replaces it with a single [`FusedFfnBlock`](crate::op::Op::FusedFfnBlock).

use vstd::prelude::*;
use crate::error::{Error, Result};
use crate::fusion::{block_replaced, lemma_replaced_outputs_owned, outputs_owned, replace_with_fused};
use crate::graph::builder::names_tensor;
use crate::graph::builder::succ_seq;
use crate::graph::topo::{is_traversal, lemma_traversal_unique, listed};
use crate::graph::{Graph, GraphView, NodeId, TensorId};
use crate::op::{Activation, Op};
use crate::pass::TransformPass;

verus! {

broadcast use crate::graph::group_graph_model;

/// Fuses feed-forward network sub-blocks in transformer layers.
pub struct FfnBlockFusion;

/// A matched FFN block: its five nodes and the parameters of the fused
/// operation that replaces them.
#[derive(Debug, Clone, Copy, PartialEq, Eq, Structural)]
pub struct FfnBlockParams {
    /// The layer normalization that opens the block.
    pub ln: NodeId,
    /// The up projection.
    pub up: NodeId,
    /// The activation.
    pub act: NodeId,
    /// The down projection.
    pub down: NodeId,
    /// The residual addition that closes the block.
    pub add: NodeId,
    /// Input of the layer normalization.
    pub ln_input_tensor: TensorId,
    /// The other operand of the residual addition.
    pub residual_tensor: TensorId,
    /// Output of the residual addition.
    pub output_tensor: TensorId,
    /// Hidden dimension (last dimension of the block input).
    pub hidden_dim: usize,
    /// Features of the up projection.
    pub intermediate_dim: usize,
    /// The activation function.
    pub activation: Activation,
    /// Whether the up projection has a bias.
    pub has_bias: bool,
}

/// What the scan decides at one node.
pub enum FfnScanStep {
    /// The node does not open an FFN block; go on with the next one.
    Skip,
    /// A lookup on the way failed; the scan ends without a match.
    Stop,
    /// The node opens this FFN block.
    Found(FfnBlockParams),
}

impl FfnBlockParams {
    /// The five nodes of the block, in pattern order.
    pub open spec fn spec_nodes(self) -> Seq<NodeId> {
        seq![self.ln, self.up, self.act, self.down, self.add]
    }

    /// The fused operation replacing the block.
    pub open spec fn spec_op(self) -> Op {
        Op::FusedFfnBlock {
            hidden_dim: self.hidden_dim,
            intermediate_dim: self.intermediate_dim,
            activation: self.activation,
            has_bias: self.has_bias,
        }
    }

    fn nodes_to_remove(&self) -> (r: Vec<NodeId>)
        ensures
            r@ == self.spec_nodes(),
    {
        let mut v: Vec<NodeId> = Vec::new();
        v.push(self.ln);
        v.push(self.up);
        v.push(self.act);
        v.push(self.down);
        v.push(self.add);
        proof {
            assert(v@ =~= self.spec_nodes());
        }
        v
    }

    fn fused_op(&self) -> (r: Op)
        ensures
            r == self.spec_op(),
    {
        Op::FusedFfnBlock {
            hidden_dim: self.hidden_dim,
            intermediate_dim: self.intermediate_dim,
            activation: self.activation,
            has_bias: self.has_bias,
        }
    }
}

/// The only node consuming the outputs of node `id`, if exactly one
/// consumer entry exists.
pub open spec fn single_succ(g: GraphView, id: NodeId) -> Option<NodeId> {
    let s = succ_seq(g, g.nodes[id@].outputs);
    if s.len() == 1 { Some(s[0]) } else { None }
}

/// The activation an operation applies, if it is one.
pub open spec fn activation_of(op: Op) -> Option<Activation> {
    match op {
        Op::Gelu => Some(Activation::Gelu),
        Op::Relu => Some(Activation::Relu),
        Op::Silu => Some(Activation::Silu),
        _ => None,
    }
}

/// The first id in `ids` other than `ex`.
pub open spec fn first_other(ids: Seq<TensorId>, ex: TensorId) -> Option<TensorId>
    decreases ids.len(),
{
    if ids.len() == 0 {
        None
    } else if ids[0] != ex {
        Some(ids[0])
    } else {
        first_other(ids.drop_first(), ex)
    }
}

/// The residual operand of an addition: its first input other than the
/// projection output, or else the block input.
pub open spec fn residual_of(ids: Seq<TensorId>, proj: TensorId, x: TensorId) -> TensorId {
    match first_other(ids, proj) {
        Some(t) => t,
        None => x,
    }
}

/// The scan step once the down projection is known.
pub open spec fn ffn_step_down(
    g: GraphView,
    ln: NodeId,
    up: NodeId,
    act: NodeId,
    down: NodeId,
    x: TensorId,
    hidden: usize,
    inter: usize,
    activation: Activation,
    bias: bool,
) -> FfnScanStep {
    match single_succ(g, down) {
        None => FfnScanStep::Skip,
        Some(add) => if !g.nodes.contains_key(add@) {
            FfnScanStep::Stop
        } else if !(g.nodes[add@].op is Add) {
            FfnScanStep::Skip
        } else if g.nodes[add@].outputs.len() == 0 || g.nodes[down@].outputs.len() == 0 {
            FfnScanStep::Stop
        } else {
            FfnScanStep::Found(FfnBlockParams {
                ln,
                up,
                act,
                down,
                add,
                ln_input_tensor: x,
                residual_tensor: residual_of(g.nodes[add@].inputs, g.nodes[down@].outputs[0], x),
                output_tensor: g.nodes[add@].outputs[0],
                hidden_dim: hidden,
                intermediate_dim: inter,
                activation,
                has_bias: bias,
            })
        },
    }
}

/// The scan step once the up projection is known.
pub open spec fn ffn_step_up(g: GraphView, ln: NodeId, up: NodeId, inter: usize, bias: bool) -> FfnScanStep {
    let n = g.nodes[ln@];
    if n.inputs.len() == 0 || !g.tensors.contains_key(n.inputs[0]@) || g.tensors[n.inputs[0]@].shape.len() == 0 {
        FfnScanStep::Stop
    } else {
        let x = n.inputs[0];
        let hidden = g.tensors[x@].shape.last();
        if inter == 3 * hidden {
            FfnScanStep::Skip
        } else {
            match single_succ(g, up) {
                None => FfnScanStep::Skip,
                Some(act) => if !g.nodes.contains_key(act@) {
                    FfnScanStep::Stop
                } else {
                    match activation_of(g.nodes[act@].op) {
                        None => FfnScanStep::Skip,
                        Some(a) => match single_succ(g, act) {
                            None => FfnScanStep::Skip,
                            Some(down) => if !g.nodes.contains_key(down@) {
                                FfnScanStep::Stop
                            } else {
                                match g.nodes[down@].op {
                                    Op::Linear { out_features, .. } => if out_features == hidden {
                                        ffn_step_down(g, ln, up, act, down, x, hidden, inter, a, bias)
                                    } else {
                                        FfnScanStep::Skip
                                    },
                                    _ => FfnScanStep::Skip,
                                }
                            },
                        },
                    }
                },
            }
        }
    }
}

/// What the scan decides at node `nid`: whether it opens the pattern
/// `LayerNorm -> Linear (not 3x hidden) -> activation -> Linear (hidden)
/// -> Add`, each node the single consumer of the previous one.
pub open spec fn ffn_step(g: GraphView, nid: NodeId) -> FfnScanStep {
    if !g.nodes.contains_key(nid@) {
        FfnScanStep::Stop
    } else if !(g.nodes[nid@].op is LayerNorm) {
        FfnScanStep::Skip
    } else {
        match single_succ(g, nid) {
            None => FfnScanStep::Skip,
            Some(up) => if !g.nodes.contains_key(up@) {
                FfnScanStep::Stop
            } else {
                match g.nodes[up@].op {
                    Op::Linear { out_features, bias } => ffn_step_up(g, nid, up, out_features, bias),
                    _ => FfnScanStep::Skip,
                }
            },
        }
    }
}

/// The first FFN block found scanning `order` from the front.
pub open spec fn ffn_scan(g: GraphView, order: Seq<NodeId>) -> Option<FfnBlockParams>
    decreases order.len(),
{
    if order.len() == 0 {
        None
    } else {
        match ffn_step(g, order[0]) {
            FfnScanStep::Skip => ffn_scan(g, order.drop_first()),
            FfnScanStep::Stop => None,
            FfnScanStep::Found(p) => Some(p),
        }
    }
}

/// The node consuming the outputs of `id` when there is exactly one
/// consumer entry.
pub(crate) fn single_successor(graph: &Graph, id: NodeId) -> (r: Option<NodeId>)
    requires
        graph@.nodes.contains_key(id@),
    ensures
        r == single_succ(graph@, id),
{
    let s = graph.successors(id);
    if s.len() == 1 {
        Some(s[0])
    } else {
        None
    }
}

/// The first input of `ids` other than `ex`, or `x`.
pub(crate) fn residual_input(ids: &[TensorId], ex: TensorId, x: TensorId) -> (r: TensorId)
    ensures
        r == residual_of(ids@, ex, x),
{
    let mut i: usize = 0;
    proof {
        assert(ids@.subrange(0, ids@.len() as int) =~= ids@);
    }
    while i < ids.len()
        invariant
            i <= ids@.len(),
            first_other(ids@, ex) == first_other(ids@.subrange(i as int, ids@.len() as int), ex),
        decreases ids@.len() - i,
    {
        let ghost rest = ids@.subrange(i as int, ids@.len() as int);
        proof {
            assert(rest[0] == ids@[i as int]);
            assert(rest.drop_first() =~= ids@.subrange(i + 1, ids@.len() as int));
        }
        if ids[i].0 != ex.0 {
            return ids[i];
        }
        i = i + 1;
    }
    x
}

fn step_down(
    graph: &Graph,
    ln: NodeId,
    up: NodeId,
    act: NodeId,
    down: NodeId,
    x: TensorId,
    hidden: usize,
    inter: usize,
    activation: Activation,
    bias: bool,
) -> (r: FfnScanStep)
    requires
        graph@.nodes.contains_key(down@),
    ensures
        r == ffn_step_down(graph@, ln, up, act, down, x, hidden, inter, activation, bias),
{
    let add = match single_successor(graph, down) {
        Some(a) => a,
        None => return FfnScanStep::Skip,
    };
    let add_node = match graph.node_by_id(add) {
        Some(n) => n,
        None => return FfnScanStep::Stop,
    };
    match add_node.op() {
        Op::Add => {},
        _ => return FfnScanStep::Skip,
    }
    let down_node = match graph.node_by_id(down) {
        Some(n) => n,
        None => return FfnScanStep::Stop,
    };
    if add_node.outputs().len() == 0 || down_node.outputs().len() == 0 {
        return FfnScanStep::Stop;
    }
    let output_tensor = add_node.outputs()[0];
    let down_output = down_node.outputs()[0];
    let residual_tensor = residual_input(add_node.inputs(), down_output, x);
    FfnScanStep::Found(FfnBlockParams {
        ln,
        up,
        act,
        down,
        add,
        ln_input_tensor: x,
        residual_tensor,
        output_tensor,
        hidden_dim: hidden,
        intermediate_dim: inter,
        activation,
        has_bias: bias,
    })
}

fn step_up(graph: &Graph, ln: NodeId, up: NodeId, inter: usize, bias: bool) -> (r: FfnScanStep)
    requires
        graph@.nodes.contains_key(ln@),
        graph@.nodes.contains_key(up@),
    ensures
        r == ffn_step_up(graph@, ln, up, inter, bias),
{
    let node = match graph.node_by_id(ln) {
        Some(n) => n,
        None => return FfnScanStep::Stop,
    };
    if node.inputs().len() == 0 {
        return FfnScanStep::Stop;
    }
    let x = node.inputs()[0];
    let meta = match graph.tensor(x) {
        Some(t) => t,
        None => return FfnScanStep::Stop,
    };
    let shape = meta.shape();
    if shape.len() == 0 {
        return FfnScanStep::Stop;
    }
    let hidden = shape[shape.len() - 1];
    let is_qkv = match hidden.checked_mul(3) {
        Some(h3) => inter == h3,
        None => false,
    };
    if is_qkv {
        return FfnScanStep::Skip;
    }
    let act = match single_successor(graph, up) {
        Some(a) => a,
        None => return FfnScanStep::Skip,
    };
    let act_node = match graph.node_by_id(act) {
        Some(n) => n,
        None => return FfnScanStep::Stop,
    };
    let activation = match act_node.op() {
        Op::Gelu => Activation::Gelu,
        Op::Relu => Activation::Relu,
        Op::Silu => Activation::Silu,
        _ => return FfnScanStep::Skip,
    };
    let down = match single_successor(graph, act) {
        Some(d) => d,
        None => return FfnScanStep::Skip,
    };
    let down_node = match graph.node_by_id(down) {
        Some(n) => n,
        None => return FfnScanStep::Stop,
    };
    match down_node.op() {
        Op::Linear { out_features, .. } => {
            if *out_features != hidden {
                return FfnScanStep::Skip;
            }
        },
        _ => return FfnScanStep::Skip,
    }
    step_down(graph, ln, up, act, down, x, hidden, inter, activation, bias)
}

/// What the scan decides at node `nid` (see [`ffn_step`]).
fn ffn_step_at(graph: &Graph, nid: NodeId) -> (r: FfnScanStep)
    ensures
        r == ffn_step(graph@, nid),
{
    let node = match graph.node_by_id(nid) {
        Some(n) => n,
        None => return FfnScanStep::Stop,
    };
    match node.op() {
        Op::LayerNorm { .. } => {},
        _ => return FfnScanStep::Skip,
    }
    let up = match single_successor(graph, nid) {
        Some(u) => u,
        None => return FfnScanStep::Skip,
    };
    let up_node = match graph.node_by_id(up) {
        Some(n) => n,
        None => return FfnScanStep::Stop,
    };
    match up_node.op() {
        Op::Linear { out_features, bias } => step_up(graph, nid, up, *out_features, *bias),
        _ => FfnScanStep::Skip,
    }
}

/// The first FFN block opened by a node of `order`, scanning from the
/// front; `None` when there is none or a lookup on the way fails.
pub fn find_ffn_block_in(graph: &Graph, order: &[NodeId]) -> (r: Option<FfnBlockParams>)
    ensures
        r == ffn_scan(graph@, order@),
{
    let mut i: usize = 0;
    proof {
        assert(order@.subrange(0, order@.len() as int) =~= order@);
    }
    while i < order.len()
        invariant
            i <= order@.len(),
            ffn_scan(graph@, order@) == ffn_scan(graph@, order@.subrange(i as int, order@.len() as int)),
        decreases order@.len() - i,
    {
        let ghost rest = order@.subrange(i as int, order@.len() as int);
        proof {
            assert(rest[0] == order@[i as int]);
            assert(rest.drop_first() =~= order@.subrange(i + 1, order@.len() as int));
        }
        match ffn_step_at(graph, order[i]) {
            FfnScanStep::Skip => {},
            FfnScanStep::Stop => return None,
            FfnScanStep::Found(p) => return Some(p),
        }
        i = i + 1;
    }
    None
}

/// `g2` is `g1` with the first FFN block found in the traversal order of
/// `g1` (see [`is_traversal`]) replaced by one fused node.
pub open spec fn ffn_fused_once(g1: GraphView, g2: GraphView) -> bool {
    exists|order: Seq<NodeId>, p: FfnBlockParams|
        #[trigger] is_traversal(g1, order) && ffn_scan(g1, order) == Some(p)
            && #[trigger] block_replaced(g1, g2, p.spec_nodes(), p.ln_input_tensor, p.residual_tensor,
                p.output_tensor, "fused_ffn_block"@, p.spec_op())
}

/// `g2` is `g1` after `k` FFN fusions.
pub open spec fn ffn_fused_times(g1: GraphView, g2: GraphView, k: nat) -> bool
    decreases k,
{
    if k == 0 {
        g2 == g1
    } else {
        exists|gm: GraphView| ffn_fused_times(g1, gm, (k - 1) as nat) && #[trigger] ffn_fused_once(gm, g2)
    }
}

/// A fusion round on `g` fails with `reason`: the first block found in
/// the traversal order of `g` names an output tensor that `g` lacks, or
/// every node id of `g` has been handed out.
pub open spec fn ffn_round_fails(g: GraphView, reason: Seq<char>) -> bool {
    exists|order: Seq<NodeId>| #[trigger] is_traversal(g, order) && match ffn_scan(g, order) {
        Some(p) => if !g.tensors.contains_key(p.output_tensor@) {
            reason == "output tensor not found"@
        } else {
            g.next_node_id == u32::MAX && reason == "node ids exhausted"@
        },
        None => false,
    }
}

/// No FFN block is found in the traversal order of `g`.
pub open spec fn no_ffn_block(g: GraphView) -> bool {
    exists|order: Seq<NodeId>| #[trigger] is_traversal(g, order) && ffn_scan(g, order) is None
}

proof fn lemma_ffn_scan_found(g: GraphView, order: Seq<NodeId>)
    requires
        ffn_scan(g, order) is Some,
    ensures
        exists|j: int| 0 <= j < order.len() && ffn_step(g, #[trigger] order[j]) == FfnScanStep::Found(ffn_scan(g, order)->Some_0),
    decreases order.len(),
{
    match ffn_step(g, order[0]) {
        FfnScanStep::Skip => {
            lemma_ffn_scan_found(g, order.drop_first());
            let j = choose|j: int| 0 <= j < order.drop_first().len()
                && ffn_step(g, #[trigger] order.drop_first()[j]) == FfnScanStep::Found(ffn_scan(g, order)->Some_0);
            assert(order[j + 1] == order.drop_first()[j]);
        },
        _ => {},
    }
}

/// An FFN block the scan finds consists of existing nodes: a layer
/// normalization, a linear layer, an activation, a linear layer and an
/// addition.
proof fn lemma_ffn_found_nodes(g: GraphView, nid: NodeId, p: FfnBlockParams)
    requires
        ffn_step(g, nid) == FfnScanStep::Found(p),
    ensures
        p.ln == nid,
        g.nodes.contains_key(p.ln@) && g.nodes[p.ln@].op is LayerNorm,
        g.nodes.contains_key(p.up@) && g.nodes[p.up@].op is Linear,
        g.nodes.contains_key(p.act@) && activation_of(g.nodes[p.act@].op) is Some,
        g.nodes.contains_key(p.down@) && g.nodes[p.down@].op is Linear,
        g.nodes.contains_key(p.add@) && g.nodes[p.add@].op is Add,
        single_succ(g, p.up) == Some(p.act),
        single_succ(g, p.down) == Some(p.add),
        g.nodes[p.add@].outputs.len() > 0,
        p.output_tensor == g.nodes[p.add@].outputs[0],
{
}

/// What an FFN block found at node `nid` is: `nid` is a layer norm over
/// input `x` of last dimension `hidden_dim`, followed by a `Linear` up
/// projection to `intermediate_dim` (not `3 * hidden_dim`), an activation,
/// a `Linear` down projection back to `hidden_dim`, and an `Add` whose first
/// output is the block's output, each the single consumer of the one before. The fused operation records those sizes,
/// the up projection's bias, and the activation the activation node
/// applies: Gelu for a Gelu node, Relu for a Relu node, Silu for a Silu node.
pub proof fn lemma_ffn_block_found_law(g: GraphView, nid: NodeId, p: FfnBlockParams)
    requires
        ffn_step(g, nid) == FfnScanStep::Found(p),
    ensures
        p.ln == nid,
        g.nodes.contains_key(nid@) && g.nodes[nid@].op is LayerNorm,
        g.nodes[nid@].inputs.len() > 0 && p.ln_input_tensor == g.nodes[nid@].inputs[0],
        g.tensors.contains_key(p.ln_input_tensor@) && g.tensors[p.ln_input_tensor@].shape.len() > 0,
        p.hidden_dim == g.tensors[p.ln_input_tensor@].shape.last(),
        g.nodes.contains_key(p.up@)
            && g.nodes[p.up@].op == (Op::Linear { out_features: p.intermediate_dim, bias: p.has_bias }),
        p.intermediate_dim != 3 * p.hidden_dim,
        g.nodes.contains_key(p.down@)
            && (g.nodes[p.down@].op matches Op::Linear { out_features, .. } && out_features == p.hidden_dim),
        g.nodes.contains_key(p.add@) && g.nodes[p.add@].op == Op::Add,
        g.nodes[p.add@].outputs.len() > 0 && p.output_tensor == g.nodes[p.add@].outputs[0],
        g.nodes.contains_key(p.act@),
        single_succ(g, nid) == Some(p.up),
        single_succ(g, p.up) == Some(p.act),
        single_succ(g, p.act) == Some(p.down),
        single_succ(g, p.down) == Some(p.add),
        match g.nodes[p.act@].op {
            Op::Gelu => p.spec_op() == (Op::FusedFfnBlock { hidden_dim: p.hidden_dim,
                intermediate_dim: p.intermediate_dim, activation: Activation::Gelu, has_bias: p.has_bias }),
            Op::Relu => p.spec_op() == (Op::FusedFfnBlock { hidden_dim: p.hidden_dim,
                intermediate_dim: p.intermediate_dim, activation: Activation::Relu, has_bias: p.has_bias }),
            Op::Silu => p.spec_op() == (Op::FusedFfnBlock { hidden_dim: p.hidden_dim,
                intermediate_dim: p.intermediate_dim, activation: Activation::Silu, has_bias: p.has_bias }),
            _ => false,
        },
{
}

/// Replacing an FFN block removes its five distinct nodes and adds one.
proof fn lemma_ffn_fusion_shrinks(g1: GraphView, g2: GraphView, p: FfnBlockParams)
    requires
        g1.wf(),
        g1.nodes.dom().finite(),
        g1.nodes.contains_key(p.ln@) && g1.nodes[p.ln@].op is LayerNorm,
        g1.nodes.contains_key(p.up@) && g1.nodes[p.up@].op is Linear,
        g1.nodes.contains_key(p.act@) && activation_of(g1.nodes[p.act@].op) is Some,
        g1.nodes.contains_key(p.down@) && g1.nodes[p.down@].op is Linear,
        g1.nodes.contains_key(p.add@) && g1.nodes[p.add@].op is Add,
        single_succ(g1, p.up) == Some(p.act),
        single_succ(g1, p.down) == Some(p.add),
        block_replaced(g1, g2, p.spec_nodes(), p.ln_input_tensor, p.residual_tensor, p.output_tensor,
            "fused_ffn_block"@, p.spec_op()),
    ensures
        g2.nodes.dom().finite(),
        g2.nodes.len() + 4 == g1.nodes.len(),
{
    let fid = g1.next_node_id;
    let d1 = g1.nodes.dom();
    assert(p.up@ != p.down@) by {
        if p.up@ == p.down@ {
            assert(p.up == p.down);
        }
    }
    let r1 = d1.remove(p.ln@);
    let r2 = r1.remove(p.up@);
    let r3 = r2.remove(p.act@);
    let r4 = r3.remove(p.down@);
    let rest = r4.remove(p.add@);
    let bound = rest.insert(fid);
    assert(p.spec_nodes()[0] == p.ln && p.spec_nodes()[1] == p.up && p.spec_nodes()[2] == p.act
        && p.spec_nodes()[3] == p.down && p.spec_nodes()[4] == p.add);
    assert(listed(p.spec_nodes(), p.ln@) && listed(p.spec_nodes(), p.up@) && listed(p.spec_nodes(), p.act@)
        && listed(p.spec_nodes(), p.down@) && listed(p.spec_nodes(), p.add@));
    assert(!d1.contains(fid));
    assert(g2.nodes.dom() =~= bound) by {
        assert forall|k: u32| g2.nodes.dom().contains(k) <==> bound.contains(k) by {
            if k != fid {
                if listed(p.spec_nodes(), k) {
                    let j = choose|j: int| 0 <= j < p.spec_nodes().len() && p.spec_nodes()[j]@ == k;
                }
            }
        }
    }
    assert(r1.len() == d1.len() - 1);
    assert(r2.len() == r1.len() - 1);
    assert(r3.len() == r2.len() - 1);
    assert(r4.len() == r3.len() - 1);
    assert(rest.len() == r4.len() - 1);
}

impl TransformPass for FfnBlockFusion {
    fn name(&self) -> (r: &'static str)
        ensures
            r@ == "ffn_block_fusion"@,
    {
        "ffn_block_fusion"
    }

    /// Fuse FFN blocks until none is left: each round replaces the first
    /// block found in the graph's topological order. Returns the number of
    /// blocks fused; every fusion removes exactly four nodes net. A graph
    /// with no FFN block left, such as this pass's own result, is left
    /// unchanged with 0 reported.
    /// When every node's outputs are tensors of the graph owned by that
    /// node alone ([`outputs_owned`], true of every graph built node by
    /// node), a round can only fail for want of node ids.
    fn transform(&self, graph: &mut Graph) -> (r: Result<usize>)
        ensures
            match r {
                Ok(k) => ffn_fused_times(old(graph)@, final(graph)@, k as nat) && no_ffn_block(final(graph)@)
                    && final(graph)@.nodes.len() + 4 * k == old(graph)@.nodes.len(),
                Err(Error::FusionFailed { pattern_name, reason }) => pattern_name@ == "ffn_block"@
                    && (reason@ == "output tensor not found"@ || reason@ == "node ids exhausted"@)
                    && exists|k: nat| ffn_fused_times(old(graph)@, final(graph)@, k) && #[trigger] ffn_round_fails(final(graph)@, reason@),
                Err(_) => false,
            },
            no_ffn_block(old(graph)@) ==> (r matches Ok(k) && k == 0) && final(graph)@ == old(graph)@,
            outputs_owned(old(graph)@) ==> (r matches Err(Error::FusionFailed { reason, .. }) ==> reason@ == "node ids exhausted"@),
    {
        let ghost g0 = graph@;
        let n0 = graph.num_nodes();
        let mut fused_count: usize = 0;
        proof {
            assert(graph@.nodes.dom() =~= graph.nodes@.dom());
        }
        loop
            invariant
                graph.wf(),
                graph@.nodes.dom().finite(),
                ffn_fused_times(g0, graph@, fused_count as nat),
                graph@.nodes.len() + 4 * fused_count == g0.nodes.len(),
                n0 == g0.nodes.len(),
                g0 == old(graph)@,
                no_ffn_block(g0) ==> fused_count == 0,
                outputs_owned(g0) ==> outputs_owned(graph@),
            ensures
                graph.wf(),
                no_ffn_block(g0) ==> fused_count == 0,
                ffn_fused_times(g0, graph@, fused_count as nat) && no_ffn_block(graph@)
                    && graph@.nodes.len() + 4 * fused_count == g0.nodes.len(),
            decreases graph@.nodes.len(),
        {
            let order = graph.topological_order();
            let candidate = find_ffn_block_in(graph, order.as_slice());
            let p = match candidate {
                Some(p) => p,
                None => {
                    proof {
                        assert(no_ffn_block(graph@)) by {
                            assert(is_traversal(graph@, order@));
                        }
                    }
                    break;
                },
            };
            let ghost gm = graph@;
            proof {
                if fused_count == 0 && no_ffn_block(g0) {
                    assert(gm == g0);
                    let order2 = choose|order2: Seq<NodeId>| #[trigger] is_traversal(g0, order2) && ffn_scan(g0, order2) is None;
                    lemma_traversal_unique(g0, order2, order@);
                    assert(false);
                }
            }
            proof {
                lemma_ffn_scan_found(gm, order@);
                let j = choose|j: int| 0 <= j < order@.len()
                    && ffn_step(gm, #[trigger] order@[j]) == FfnScanStep::Found(p);
                lemma_ffn_found_nodes(gm, order@[j], p);
            }
            let removed = p.nodes_to_remove();
            match replace_with_fused(graph, removed.as_slice(), p.ln_input_tensor, p.residual_tensor,
                p.output_tensor, "fused_ffn_block", p.fused_op(), "ffn_block") {
                Ok(()) => {},
                Err(e) => {
                    proof {
                        assert(ffn_fused_times(g0, graph@, fused_count as nat));
                        if let Error::FusionFailed { reason, .. } = &e {
                            assert(is_traversal(gm, order@));
                            assert(ffn_round_fails(graph@, reason@));
                            if outputs_owned(g0) {
                                assert(names_tensor(gm.nodes[p.add@].outputs, p.output_tensor@)) by {
                                    assert(gm.nodes[p.add@].outputs[0]@ == p.output_tensor@);
                                }
                                assert(gm.tensors.contains_key(p.output_tensor@));
                            }
                        }
                    }
                    return Err(e);
                },
            }
            proof {
                lemma_ffn_fusion_shrinks(gm, graph@, p);
                if outputs_owned(g0) {
                    assert(names_tensor(gm.nodes[p.add@].outputs, p.output_tensor@)) by {
                        assert(gm.nodes[p.add@].outputs[0]@ == p.output_tensor@);
                    }
                    assert(p.spec_nodes()[4] == p.add);
                    assert(listed(p.spec_nodes(), p.add@));
                    lemma_replaced_outputs_owned(gm, graph@, p.spec_nodes(), p.ln_input_tensor, p.residual_tensor,
                        p.output_tensor, "fused_ffn_block"@, p.spec_op(), p.add@);
                }
                assert(ffn_fused_once(gm, graph@)) by {
                    assert(is_traversal(gm, order@));
                }
                assert(ffn_fused_times(g0, graph@, (fused_count + 1) as nat));
            }
            fused_count = fused_count + 1;
        }
        Ok(fused_count)
    }
}

} // verus!
