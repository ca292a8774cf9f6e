//! Attention block fusion pass.
//!
//! Detects the pattern:
//! ```text
//! x ──→ LayerNorm ──→ Linear(QKV) ──→ Split ──→ [Reshape → Transpose] × 3
//!   ──→ MatMul(Q,K^T) ──→ ScalarMul ──→ Softmax ──→ MatMul(attn,V)
//!   ──→ Transpose ──→ Reshape ──→ Linear(out) ──→ Add(residual)
//! ```
//!
//! And replaces it with a single [`FusedAttentionBlock`](crate::op::Op::FusedAttentionBlock)
//! node. The fused node reads input + residual + weights from HBM and writes
//! only the output to HBM. All intermediates stay in SRAM.

use vstd::prelude::*;
use crate::error::{Error, Result};
use crate::fusion::{block_replaced, lemma_replaced_outputs_owned, outputs_owned, replace_with_fused};
use crate::fusion::ffn_block::{residual_input, residual_of, single_succ, single_successor};
use crate::graph::builder::{names_tensor, succ_seq};
use crate::graph::topo::{is_traversal, lemma_traversal_unique, listed};
use crate::graph::{Graph, GraphView, NodeId, TensorId};
use crate::op::Op;
use crate::pass::TransformPass;

verus! {

broadcast use crate::graph::group_graph_model;

/// Fuses attention sub-blocks in transformer layers.
///
/// Scans the graph for `LayerNorm → Linear → ... → Add` patterns that
/// match multi-head self-attention structure and replaces them with a
/// single `FusedAttentionBlock` node.
pub struct AttentionBlockFusion;

/// Rounds of the forward walk from the QKV projection.
pub const TRACE_ROUNDS: usize = 20;

/// A matched attention block: the nodes it removes and the parameters of
/// the fused operation that replaces them.
#[derive(Debug, Clone)]
pub struct AttentionBlockParams {
    /// The nodes of the block, by ascending id, each once.
    pub nodes_to_remove: Vec<NodeId>,
    /// Input of the layer normalization.
    pub ln_input_tensor: TensorId,
    /// The other operand of the residual addition.
    pub residual_tensor: TensorId,
    /// Output of the residual addition.
    pub output_tensor: TensorId,
    /// Number of attention heads.
    pub num_heads: usize,
    /// Dimension per head.
    pub head_dim: usize,
    /// Hidden dimension.
    pub hidden_dim: usize,
    /// Whether the projections have biases.
    pub has_bias: bool,
}

/// The model of [`AttentionBlockParams`].
pub struct AttentionBlockView {
    /// The nodes of the block, by ascending id, each once.
    pub nodes: Seq<NodeId>,
    /// Input of the layer normalization.
    pub ln_input_tensor: TensorId,
    /// The other operand of the residual addition.
    pub residual_tensor: TensorId,
    /// Output of the residual addition.
    pub output_tensor: TensorId,
    /// Number of attention heads.
    pub num_heads: usize,
    /// Dimension per head.
    pub head_dim: usize,
    /// Hidden dimension.
    pub hidden_dim: usize,
    /// Whether the projections have biases.
    pub has_bias: bool,
}

impl View for AttentionBlockParams {
    type V = AttentionBlockView;

    open spec fn view(&self) -> AttentionBlockView {
        AttentionBlockView {
            nodes: self.nodes_to_remove@,
            ln_input_tensor: self.ln_input_tensor,
            residual_tensor: self.residual_tensor,
            output_tensor: self.output_tensor,
            num_heads: self.num_heads,
            head_dim: self.head_dim,
            hidden_dim: self.hidden_dim,
            has_bias: self.has_bias,
        }
    }
}

impl AttentionBlockView {
    /// The fused operation replacing the block.
    pub open spec fn spec_op(self) -> Op {
        Op::FusedAttentionBlock {
            num_heads: self.num_heads,
            head_dim: self.head_dim,
            hidden_dim: self.hidden_dim,
            has_bias: self.has_bias,
        }
    }
}

/// What the scan decides at one node.
pub enum AttnScanStep {
    /// The node does not open an attention block; go on with the next one.
    Skip,
    /// A lookup on the way failed; the scan ends without a match.
    Stop,
    /// The node opens this attention block.
    Found(AttentionBlockView),
}

/// What the scan decides at one node, as computed.
pub enum AttnScan {
    /// The node does not open an attention block.
    Skip,
    /// A lookup on the way failed.
    Stop,
    /// The node opens this attention block.
    Found(AttentionBlockParams),
}

impl View for AttnScan {
    type V = AttnScanStep;

    open spec fn view(&self) -> AttnScanStep {
        match self {
            AttnScan::Skip => AttnScanStep::Skip,
            AttnScan::Stop => AttnScanStep::Stop,
            AttnScan::Found(p) => AttnScanStep::Found(p@),
        }
    }
}

/// The state of the forward walk from the QKV projection.
pub struct TraceState {
    /// Nodes walked through, in visiting order (with repetitions).
    pub visited: Seq<NodeId>,
    /// Consumers collected for the next round.
    pub next: Seq<NodeId>,
    /// The last residual addition reached.
    pub last_add: Option<NodeId>,
    /// The output of the output projection, as last determined.
    pub proj: Option<TensorId>,
}

// ----------------------------------------------------------- Sorted sets

/// `acc` with `x` inserted before the first larger id from the back,
/// unless an equal id is met first.
pub open spec fn sorted_insert(acc: Seq<NodeId>, x: NodeId) -> Seq<NodeId>
    decreases acc.len(),
{
    if acc.len() == 0 {
        seq![x]
    } else if acc.last()@ < x@ {
        acc.push(x)
    } else if acc.last()@ == x@ {
        acc
    } else {
        sorted_insert(acc.drop_last(), x).push(acc.last())
    }
}

/// The ids of `s`, ascending, each once.
pub open spec fn sorted_set(s: Seq<NodeId>) -> Seq<NodeId>
    decreases s.len(),
{
    if s.len() == 0 {
        Seq::empty()
    } else {
        sorted_insert(sorted_set(s.drop_last()), s.last())
    }
}

/// Ids strictly ascending.
pub open spec fn ascending(s: Seq<NodeId>) -> bool {
    forall|i: int, j: int| 0 <= i < j < s.len() ==> #[trigger] s[i]@ < #[trigger] s[j]@
}

proof fn lemma_sorted_insert(acc: Seq<NodeId>, x: NodeId)
    requires
        ascending(acc),
    ensures
        ascending(sorted_insert(acc, x)),
        forall|k: u32| #[trigger] listed(sorted_insert(acc, x), k) <==> (listed(acc, k) || x@ == k),
    decreases acc.len(),
{
    let r = sorted_insert(acc, x);
    if acc.len() == 0 {
        assert forall|k: u32| listed(r, k) <==> (listed(acc, k) || x@ == k) by {
            if x@ == k {
                assert(r[0]@ == k);
            }
        }
    } else if acc.last()@ < x@ {
        assert forall|k: u32| listed(r, k) <==> (listed(acc, k) || x@ == k) by {
            if listed(acc, k) {
                let j = choose|j: int| 0 <= j < acc.len() && acc[j]@ == k;
                assert(r[j] == acc[j]);
            }
            if x@ == k {
                assert(r[acc.len() as int]@ == k);
            }
            if listed(r, k) {
                let j = choose|j: int| 0 <= j < r.len() && r[j]@ == k;
                if j < acc.len() {
                    assert(acc[j] == r[j]);
                }
            }
        }
        assert forall|i: int, j: int| 0 <= i < j < r.len() implies #[trigger] r[i]@ < #[trigger] r[j]@ by {
            if j == acc.len() {
                if i < acc.len() - 1 {
                    assert(acc[i]@ < acc[acc.len() - 1]@);
                }
            }
        }
    } else if acc.last()@ == x@ {
        assert forall|k: u32| listed(r, k) <==> (listed(acc, k) || x@ == k) by {
            if x@ == k {
                assert(acc[acc.len() - 1]@ == k);
            }
        }
    } else {
        let a = acc.drop_last();
        assert(ascending(a)) by {
            assert forall|i: int, j: int| 0 <= i < j < a.len() implies #[trigger] a[i]@ < #[trigger] a[j]@ by {
                assert(a[i] == acc[i] && a[j] == acc[j]);
            }
        }
        lemma_sorted_insert(a, x);
        let ri = sorted_insert(a, x);
        assert(r == ri.push(acc.last()));
        assert forall|k: u32| listed(r, k) <==> (listed(acc, k) || x@ == k) by {
            if listed(acc, k) {
                let j = choose|j: int| 0 <= j < acc.len() && acc[j]@ == k;
                if j < a.len() {
                    assert(a[j] == acc[j]);
                    assert(listed(ri, k));
                    let j2 = choose|j2: int| 0 <= j2 < ri.len() && ri[j2]@ == k;
                    assert(r[j2] == ri[j2]);
                } else {
                    assert(r[ri.len() as int]@ == k);
                }
            }
            if x@ == k {
                assert(listed(ri, k));
                let j2 = choose|j2: int| 0 <= j2 < ri.len() && ri[j2]@ == k;
                assert(r[j2] == ri[j2]);
            }
            if listed(r, k) {
                let j = choose|j: int| 0 <= j < r.len() && r[j]@ == k;
                if j < ri.len() {
                    assert(ri[j] == r[j]);
                    assert(listed(ri, k));
                    if listed(a, k) {
                        let j3 = choose|j3: int| 0 <= j3 < a.len() && a[j3]@ == k;
                        assert(acc[j3] == a[j3]);
                    }
                } else {
                    assert(acc[acc.len() - 1]@ == k);
                }
            }
        }
        assert forall|i: int, j: int| 0 <= i < j < r.len() implies #[trigger] r[i]@ < #[trigger] r[j]@ by {
            if j == ri.len() {
                assert(r[j] == acc.last());
                assert(r[i] == ri[i]);
                assert(listed(ri, ri[i]@));
                if ri[i]@ == x@ {
                } else {
                    assert(listed(a, ri[i]@));
                    let j3 = choose|j3: int| 0 <= j3 < a.len() && a[j3]@ == ri[i]@;
                    assert(acc[j3] == a[j3]);
                }
            } else {
                assert(r[i] == ri[i] && r[j] == ri[j]);
            }
        }
    }
}

proof fn lemma_sorted_set(s: Seq<NodeId>)
    ensures
        ascending(sorted_set(s)),
        forall|k: u32| #[trigger] listed(sorted_set(s), k) <==> listed(s, k),
    decreases s.len(),
{
    if s.len() > 0 {
        lemma_sorted_set(s.drop_last());
        lemma_sorted_insert(sorted_set(s.drop_last()), s.last());
        assert forall|k: u32| listed(sorted_set(s), k) <==> listed(s, k) by {
            if listed(s, k) {
                let j = choose|j: int| 0 <= j < s.len() && s[j]@ == k;
                if j < s.len() - 1 {
                    assert(s.drop_last()[j] == s[j]);
                }
            }
            if listed(s.drop_last(), k) {
                let j = choose|j: int| 0 <= j < s.drop_last().len() && s.drop_last()[j]@ == k;
                assert(s[j] == s.drop_last()[j]);
            }
            if s.last()@ == k {
                assert(s[s.len() - 1]@ == k);
            }
        }
    }
}

fn insert_sorted(acc: &mut Vec<NodeId>, x: NodeId)
    ensures
        final(acc)@ == sorted_insert(old(acc)@, x),
    decreases old(acc)@.len(),
{
    let n = acc.len();
    if n == 0 {
        acc.push(x);
        proof {
            assert(acc@ =~= seq![x]);
        }
        return;
    }
    let last = acc[n - 1];
    if last.0 < x.0 {
        acc.push(x);
    } else if last.0 == x.0 {
    } else {
        let ghost before = acc@;
        acc.pop();
        proof {
            assert(acc@ =~= before.drop_last());
        }
        insert_sorted(acc, x);
        acc.push(last);
    }
}

/// The ids of `s`, ascending, each once.
fn sorted_unique(s: &[NodeId]) -> (r: Vec<NodeId>)
    ensures
        r@ == sorted_set(s@),
{
    let mut r: Vec<NodeId> = Vec::new();
    let mut i: usize = 0;
    while i < s.len()
        invariant
            i <= s@.len(),
            r@ == sorted_set(s@.subrange(0, i as int)),
        decreases s@.len() - i,
    {
        proof {
            assert(s@.subrange(0, i + 1).drop_last() =~= s@.subrange(0, i as int));
        }
        insert_sorted(&mut r, s[i]);
        i = i + 1;
    }
    proof {
        assert(s@.subrange(0, s@.len() as int) =~= s@);
    }
    r
}

// ------------------------------------------------------- The forward walk

/// The output of the output projection as an addition determines it: its
/// last input whose producer was walked through, if any.
pub open spec fn add_proj(g: GraphView, visited: Seq<NodeId>, ins: Seq<TensorId>) -> Option<TensorId>
    decreases ins.len(),
{
    if ins.len() == 0 {
        None
    } else {
        let t = ins.last();
        if g.tensors.contains_key(t@) && (g.tensors[t@].producer matches Some(p) && visited.contains(p)) {
            Some(t)
        } else {
            add_proj(g, visited, ins.drop_last())
        }
    }
}

/// Visit node `nid` during the walk: an addition ends the block; a linear
/// layer is the output projection so far; every other node is walked
/// through. Walked-through nodes contribute their consumers to the next
/// round.
pub open spec fn visit(g: GraphView, s: TraceState, nid: NodeId) -> TraceState {
    if !g.nodes.contains_key(nid@) {
        s
    } else {
        let n = g.nodes[nid@];
        match n.op {
            Op::Add => TraceState {
                last_add: Some(nid),
                proj: if s.proj is None { add_proj(g, s.visited, n.inputs) } else { s.proj },
                ..s
            },
            Op::Linear { .. } => TraceState {
                visited: s.visited.push(nid),
                next: s.next + succ_seq(g, n.outputs),
                proj: if n.outputs.len() > 0 { Some(n.outputs[0]) } else { s.proj },
                ..s
            },
            _ => TraceState {
                visited: s.visited.push(nid),
                next: s.next + succ_seq(g, n.outputs),
                ..s
            },
        }
    }
}

/// Visit the nodes of `frontier` in order.
pub open spec fn visit_all(g: GraphView, s: TraceState, frontier: Seq<NodeId>) -> TraceState
    decreases frontier.len(),
{
    if frontier.len() == 0 {
        s
    } else {
        visit(g, visit_all(g, s, frontier.drop_last()), frontier.last())
    }
}

/// Walk `fuel` more rounds: each round visits the frontier; the walk ends
/// at an empty frontier or once an addition was reached, and otherwise
/// goes on with the collected consumers, ascending and each once.
pub open spec fn trace_rounds(g: GraphView, s: TraceState, frontier: Seq<NodeId>, fuel: nat) -> TraceState
    decreases fuel,
{
    if fuel == 0 || frontier.len() == 0 {
        s
    } else {
        let s2 = visit_all(g, TraceState { next: Seq::empty(), ..s }, frontier);
        if s2.last_add is Some {
            s2
        } else {
            trace_rounds(g, s2, sorted_set(s2.next), (fuel - 1) as nat)
        }
    }
}

/// Some output other than `proj` of a walked-through node is consumed by
/// a node outside the block (the walked-through nodes and `add`).
pub open spec fn escapes(g: GraphView, visited: Seq<NodeId>, add: NodeId, proj: TensorId) -> bool {
    exists|i: int, j: int, c: NodeId|
        0 <= i < visited.len() && g.nodes.contains_key(#[trigger] visited[i]@)
        && 0 <= j < g.nodes[visited[i]@].outputs.len()
        && #[trigger] g.nodes[visited[i]@].outputs[j] != proj
        && g.tensors.contains_key(g.nodes[visited[i]@].outputs[j]@)
        && #[trigger] g.tensors[g.nodes[visited[i]@].outputs[j]@].consumers.contains(c)
        && !visited.contains(c) && c != add
}

/// The walk from the QKV projection `qkv`: the nodes walked through, the
/// output projection's output and the residual addition, unless the walk
/// found no addition or no projection output, or an intermediate result
/// escapes the block.
pub open spec fn attn_trace(g: GraphView, qkv: NodeId) -> Option<(Seq<NodeId>, TensorId, NodeId)> {
    let s = trace_rounds(
        g,
        TraceState { visited: seq![qkv], next: Seq::empty(), last_add: None, proj: None },
        succ_seq(g, g.nodes[qkv@].outputs),
        TRACE_ROUNDS as nat,
    );
    match (s.last_add, s.proj) {
        (Some(add), Some(proj)) => if escapes(g, s.visited, add, proj) {
            None
        } else {
            Some((s.visited, proj, add))
        },
        _ => None,
    }
}

/// Head dimension for a hidden size: 64 or 32 when they divide it, else
/// the whole hidden size.
pub open spec fn head_dim_for(hidden: usize) -> usize {
    if hidden % 64 == 0 { 64 } else if hidden % 32 == 0 { 32 } else { hidden }
}

/// The scan step once the QKV projection is known.
pub open spec fn attn_step_qkv(g: GraphView, ln: NodeId, qkv: NodeId, qkv_out: usize, bias: bool) -> AttnScanStep {
    let n = g.nodes[ln@];
    if n.inputs.len() == 0 || !g.tensors.contains_key(n.inputs[0]@) || g.tensors[n.inputs[0]@].shape.len() == 0 {
        AttnScanStep::Stop
    } else {
        let x = n.inputs[0];
        let hidden = g.tensors[x@].shape.last();
        if qkv_out != 3 * hidden {
            AttnScanStep::Skip
        } else {
            match attn_trace(g, qkv) {
                None => AttnScanStep::Skip,
                Some((vis, proj, add)) => if !g.nodes.contains_key(add@) || g.nodes[add@].outputs.len() == 0 {
                    AttnScanStep::Stop
                } else {
                    let hd = head_dim_for(hidden);
                    AttnScanStep::Found(AttentionBlockView {
                        nodes: sorted_set(seq![ln, qkv] + vis + seq![add]),
                        ln_input_tensor: x,
                        residual_tensor: residual_of(g.nodes[add@].inputs, proj, x),
                        output_tensor: g.nodes[add@].outputs[0],
                        num_heads: (hidden / hd) as usize,
                        head_dim: hd,
                        hidden_dim: hidden,
                        has_bias: bias,
                    })
                },
            }
        }
    }
}

/// What the scan decides at node `nid`: whether it is a layer
/// normalization whose single consumer is a linear layer projecting to
/// three times the hidden size, from which the walk finds a closed block.
pub open spec fn attn_step(g: GraphView, nid: NodeId) -> AttnScanStep {
    if !g.nodes.contains_key(nid@) {
        AttnScanStep::Stop
    } else if !(g.nodes[nid@].op is LayerNorm) {
        AttnScanStep::Skip
    } else {
        match single_succ(g, nid) {
            None => AttnScanStep::Skip,
            Some(qkv) => if !g.nodes.contains_key(qkv@) {
                AttnScanStep::Stop
            } else {
                match g.nodes[qkv@].op {
                    Op::Linear { out_features, bias } => attn_step_qkv(g, nid, qkv, out_features, bias),
                    _ => AttnScanStep::Skip,
                }
            },
        }
    }
}

/// The first attention block found scanning `order` from the front.
pub open spec fn attn_scan(g: GraphView, order: Seq<NodeId>) -> Option<AttentionBlockView>
    decreases order.len(),
{
    if order.len() == 0 {
        None
    } else {
        match attn_step(g, order[0]) {
            AttnScanStep::Skip => attn_scan(g, order.drop_first()),
            AttnScanStep::Stop => None,
            AttnScanStep::Found(p) => Some(p),
        }
    }
}

// ------------------------------------------------------ Walk, computed

/// The state of the forward walk, as computed.
struct Walk {
    visited: Vec<NodeId>,
    next: Vec<NodeId>,
    last_add: Option<NodeId>,
    proj: Option<TensorId>,
}

impl View for Walk {
    type V = TraceState;

    closed spec fn view(&self) -> TraceState {
        TraceState { visited: self.visited@, next: self.next@, last_add: self.last_add, proj: self.proj }
    }
}

fn contains_id(ids: &[NodeId], n: NodeId) -> (r: bool)
    ensures
        r == ids@.contains(n),
{
    let mut i: usize = 0;
    while i < ids.len()
        invariant
            i <= ids@.len(),
            forall|j: int| 0 <= j < i ==> ids@[j] != n,
        decreases ids@.len() - i,
    {
        if ids[i].0 == n.0 {
            proof {
                assert(ids@[i as int] == n);
            }
            return true;
        }
        i = i + 1;
    }
    false
}

fn append_ids(dst: &mut Vec<NodeId>, src: &[NodeId])
    ensures
        final(dst)@ == old(dst)@ + src@,
{
    let mut i: usize = 0;
    while i < src.len()
        invariant
            i <= src@.len(),
            dst@ == old(dst)@ + src@.subrange(0, i as int),
        decreases src@.len() - i,
    {
        dst.push(src[i]);
        proof {
            assert(old(dst)@ + src@.subrange(0, i + 1) =~= (old(dst)@ + src@.subrange(0, i as int)).push(src@[i as int]));
        }
        i = i + 1;
    }
    proof {
        assert(src@.subrange(0, src@.len() as int) =~= src@);
    }
}

fn projection_input(graph: &Graph, visited: &[NodeId], ins: &[TensorId]) -> (r: Option<TensorId>)
    ensures
        r == add_proj(graph@, visited@, ins@),
{
    let mut acc: Option<TensorId> = None;
    let mut i: usize = 0;
    while i < ins.len()
        invariant
            i <= ins@.len(),
            acc == add_proj(graph@, visited@, ins@.subrange(0, i as int)),
        decreases ins@.len() - i,
    {
        proof {
            assert(ins@.subrange(0, i + 1).drop_last() =~= ins@.subrange(0, i as int));
            assert(ins@.subrange(0, i + 1).last() == ins@[i as int]);
        }
        if let Some(t) = graph.tensor(ins[i]) {
            if let Some(p) = t.producer() {
                if contains_id(visited, p) {
                    acc = Some(ins[i]);
                }
            }
        }
        i = i + 1;
    }
    proof {
        assert(ins@.subrange(0, ins@.len() as int) =~= ins@);
    }
    acc
}

fn visit_node(graph: &Graph, w: &mut Walk, nid: NodeId)
    ensures
        final(w)@ == visit(graph@, old(w)@, nid),
{
    let node = match graph.node_by_id(nid) {
        Some(n) => n,
        None => return,
    };
    match node.op() {
        Op::Add => {
            w.last_add = Some(nid);
            if w.proj.is_none() {
                w.proj = projection_input(graph, w.visited.as_slice(), node.inputs());
            }
        },
        Op::Linear { .. } => {
            w.visited.push(nid);
            let outs = node.outputs();
            if outs.len() > 0 {
                w.proj = Some(outs[0]);
            }
            let succs = graph.successors(nid);
            append_ids(&mut w.next, succs.as_slice());
        },
        _ => {
            w.visited.push(nid);
            let succs = graph.successors(nid);
            append_ids(&mut w.next, succs.as_slice());
        },
    }
}

/// Walk the graph forward from the QKV projection `qkv`.
fn walk_from(graph: &Graph, qkv: NodeId) -> (r: Walk)
    requires
        graph@.nodes.contains_key(qkv@),
    ensures
        r@ == trace_rounds(
            graph@,
            TraceState { visited: seq![qkv], next: Seq::empty(), last_add: None, proj: None },
            succ_seq(graph@, graph@.nodes[qkv@].outputs),
            TRACE_ROUNDS as nat,
        ),
{
    let ghost g = graph@;
    let mut visited: Vec<NodeId> = Vec::new();
    visited.push(qkv);
    let mut w = Walk { visited, next: Vec::new(), last_add: None, proj: None };
    let mut frontier = graph.successors(qkv);
    let ghost goal = trace_rounds(
        g,
        TraceState { visited: seq![qkv], next: Seq::empty(), last_add: None, proj: None },
        succ_seq(g, g.nodes[qkv@].outputs),
        TRACE_ROUNDS as nat,
    );
    proof {
        assert(w@.visited =~= seq![qkv]);
        assert(w@ == TraceState { visited: seq![qkv], next: Seq::empty(), last_add: None, proj: None });
    }
    let mut round: usize = 0;
    while round < TRACE_ROUNDS
        invariant
            g == graph@,
            g.nodes.contains_key(qkv@),
            goal == trace_rounds(
                g,
                TraceState { visited: seq![qkv], next: Seq::empty(), last_add: None, proj: None },
                succ_seq(g, g.nodes[qkv@].outputs),
                TRACE_ROUNDS as nat,
            ),
            round <= TRACE_ROUNDS,
            goal == trace_rounds(g, w@, frontier@, (TRACE_ROUNDS - round) as nat),
        decreases TRACE_ROUNDS - round,
    {
        if frontier.len() == 0 {
            proof {
                assert(trace_rounds(g, w@, frontier@, (TRACE_ROUNDS - round) as nat) == w@);
            }
            return w;
        }
        let ghost s0 = w@;
        w.next = Vec::new();
        let mut i: usize = 0;
        proof {
            assert(w@ == TraceState { next: Seq::empty(), ..s0 });
            assert(frontier@.subrange(0, 0) =~= Seq::<NodeId>::empty());
        }
        while i < frontier.len()
            invariant
                g == graph@,
                i <= frontier@.len(),
                w@ == visit_all(g, TraceState { next: Seq::empty(), ..s0 }, frontier@.subrange(0, i as int)),
            decreases frontier@.len() - i,
        {
            proof {
                assert(frontier@.subrange(0, i + 1).drop_last() =~= frontier@.subrange(0, i as int));
                assert(frontier@.subrange(0, i + 1).last() == frontier@[i as int]);
            }
            visit_node(graph, &mut w, frontier[i]);
            i = i + 1;
        }
        proof {
            assert(frontier@.subrange(0, frontier@.len() as int) =~= frontier@);
        }
        if w.last_add.is_some() {
            proof {
                assert(trace_rounds(g, s0, frontier@, (TRACE_ROUNDS - round) as nat)
                    == visit_all(g, TraceState { next: Seq::empty(), ..s0 }, frontier@));
            }
            return w;
        }
        frontier = sorted_unique(w.next.as_slice());
        round = round + 1;
    }
    w
}

/// No output other than `proj` of the first `i` walked-through nodes is
/// consumed outside the block.
spec fn sealed_upto(g: GraphView, visited: Seq<NodeId>, add: NodeId, proj: TensorId, i: int) -> bool {
    forall|i2: int, j: int, c: NodeId|
        0 <= i2 < i && g.nodes.contains_key(#[trigger] visited[i2]@)
        && 0 <= j < g.nodes[visited[i2]@].outputs.len()
        && #[trigger] g.nodes[visited[i2]@].outputs[j] != proj
        && g.tensors.contains_key(g.nodes[visited[i2]@].outputs[j]@)
        && #[trigger] g.tensors[g.nodes[visited[i2]@].outputs[j]@].consumers.contains(c)
        ==> visited.contains(c) || c == add
}

fn escapes_block(graph: &Graph, visited: &[NodeId], add: NodeId, proj: TensorId) -> (r: bool)
    ensures
        r == escapes(graph@, visited@, add, proj),
{
    let ghost g = graph@;
    let mut i: usize = 0;
    while i < visited.len()
        invariant
            g == graph@,
            i <= visited@.len(),
            sealed_upto(g, visited@, add, proj, i as int),
        decreases visited@.len() - i,
    {
        let ghost v = visited@[i as int];
        if let Some(node) = graph.node_by_id(visited[i]) {
            let outs = node.outputs();
            let mut j: usize = 0;
            while j < outs.len()
                invariant
                    g == graph@,
                    i < visited@.len(),
                    v == visited@[i as int],
                    g.nodes.contains_key(v@),
                    outs@ == g.nodes[v@].outputs,
                    j <= outs@.len(),
                    sealed_upto(g, visited@, add, proj, i as int),
                    forall|j2: int, c: NodeId|
                        0 <= j2 < j && #[trigger] outs@[j2] != proj && g.tensors.contains_key(outs@[j2]@)
                        && #[trigger] g.tensors[outs@[j2]@].consumers.contains(c)
                        ==> visited@.contains(c) || c == add,
                decreases outs@.len() - j,
            {
                if outs[j].0 != proj.0 {
                    if let Some(t) = graph.tensor(outs[j]) {
                        let cons = t.consumers();
                        let mut k: usize = 0;
                        while k < cons.len()
                            invariant
                                g == graph@,
                                i < visited@.len(),
                                v == visited@[i as int],
                                g.nodes.contains_key(v@),
                                outs@ == g.nodes[v@].outputs,
                                j < outs@.len(),
                                outs@[j as int] != proj,
                                g.tensors.contains_key(outs@[j as int]@),
                                cons@ == g.tensors[outs@[j as int]@].consumers,
                                k <= cons@.len(),
                                forall|k2: int| 0 <= k2 < k ==> visited@.contains(#[trigger] cons@[k2]) || cons@[k2] == add,
                            decreases cons@.len() - k,
                        {
                            let c = cons[k];
                            if !contains_id(visited, c) && c.0 != add.0 {
                                proof {
                                    assert(g.tensors[g.nodes[visited@[i as int]@].outputs[j as int]@].consumers.contains(c)) by {
                                        assert(cons@[k as int] == c);
                                    }
                                    assert(c != add);
                                }
                                return true;
                            }
                            k = k + 1;
                        }
                        proof {
                            assert forall|c: NodeId| #[trigger] g.tensors[outs@[j as int]@].consumers.contains(c)
                                implies visited@.contains(c) || c == add by {
                                let k2 = choose|k2: int| 0 <= k2 < cons@.len() && cons@[k2] == c;
                                assert(visited@.contains(cons@[k2]) || cons@[k2] == add);
                            }
                        }
                    }
                }
                j = j + 1;
            }
        }
        proof {
            assert forall|i2: int, j: int, c: NodeId|
                0 <= i2 < i + 1 && g.nodes.contains_key(#[trigger] visited@[i2]@)
                && 0 <= j < g.nodes[visited@[i2]@].outputs.len()
                && #[trigger] g.nodes[visited@[i2]@].outputs[j] != proj
                && g.tensors.contains_key(g.nodes[visited@[i2]@].outputs[j]@)
                && #[trigger] g.tensors[g.nodes[visited@[i2]@].outputs[j]@].consumers.contains(c)
                implies visited@.contains(c) || c == add by {
                if i2 < i {
                } else {
                    assert(visited@[i2] == v);
                }
            }
        }
        i = i + 1;
    }
    false
}

/// Walk forward from the QKV projection (see [`attn_trace`]).
fn trace_attention_chain(graph: &Graph, qkv: NodeId) -> (r: Option<(Vec<NodeId>, TensorId, NodeId)>)
    requires
        graph@.nodes.contains_key(qkv@),
    ensures
        match r {
            Some((vis, proj, add)) => attn_trace(graph@, qkv) == Some((vis@, proj, add)),
            None => attn_trace(graph@, qkv) is None,
        },
{
    let w = walk_from(graph, qkv);
    let add = match w.last_add {
        Some(a) => a,
        None => return None,
    };
    let proj = match w.proj {
        Some(p) => p,
        None => return None,
    };
    if escapes_block(graph, w.visited.as_slice(), add, proj) {
        return None;
    }
    Some((w.visited, proj, add))
}

fn step_qkv(graph: &Graph, ln: NodeId, qkv: NodeId, qkv_out: usize, bias: bool) -> (r: AttnScan)
    requires
        graph@.nodes.contains_key(ln@),
        graph@.nodes.contains_key(qkv@),
    ensures
        r@ == attn_step_qkv(graph@, ln, qkv, qkv_out, bias),
{
    let node = match graph.node_by_id(ln) {
        Some(n) => n,
        None => return AttnScan::Stop,
    };
    if node.inputs().len() == 0 {
        return AttnScan::Stop;
    }
    let x = node.inputs()[0];
    let meta = match graph.tensor(x) {
        Some(t) => t,
        None => return AttnScan::Stop,
    };
    let shape = meta.shape();
    if shape.len() == 0 {
        return AttnScan::Stop;
    }
    let hidden = shape[shape.len() - 1];
    let is_qkv = match hidden.checked_mul(3) {
        Some(h3) => qkv_out == h3,
        None => false,
    };
    if !is_qkv {
        return AttnScan::Skip;
    }
    let (visited, proj, add) = match trace_attention_chain(graph, qkv) {
        Some(t) => t,
        None => return AttnScan::Skip,
    };
    let add_node = match graph.node_by_id(add) {
        Some(n) => n,
        None => return AttnScan::Stop,
    };
    if add_node.outputs().len() == 0 {
        return AttnScan::Stop;
    }
    let output_tensor = add_node.outputs()[0];
    let residual_tensor = residual_input(add_node.inputs(), proj, x);
    let head_dim: usize = if hidden % 64 == 0 {
        64
    } else if hidden % 32 == 0 {
        32
    } else {
        hidden
    };
    let num_heads = hidden / head_dim;
    let mut all: Vec<NodeId> = Vec::new();
    all.push(ln);
    all.push(qkv);
    append_ids(&mut all, visited.as_slice());
    all.push(add);
    proof {
        assert(all@ =~= seq![ln, qkv] + visited@ + seq![add]);
    }
    let nodes_to_remove = sorted_unique(all.as_slice());
    AttnScan::Found(AttentionBlockParams {
        nodes_to_remove,
        ln_input_tensor: x,
        residual_tensor,
        output_tensor,
        num_heads,
        head_dim,
        hidden_dim: hidden,
        has_bias: bias,
    })
}

/// What the scan decides at node `nid` (see [`attn_step`]).
fn attn_step_at(graph: &Graph, nid: NodeId) -> (r: AttnScan)
    ensures
        r@ == attn_step(graph@, nid),
{
    let node = match graph.node_by_id(nid) {
        Some(n) => n,
        None => return AttnScan::Stop,
    };
    match node.op() {
        Op::LayerNorm { .. } => {},
        _ => return AttnScan::Skip,
    }
    let qkv = match single_successor(graph, nid) {
        Some(q) => q,
        None => return AttnScan::Skip,
    };
    let qkv_node = match graph.node_by_id(qkv) {
        Some(n) => n,
        None => return AttnScan::Stop,
    };
    match qkv_node.op() {
        Op::Linear { out_features, bias } => step_qkv(graph, nid, qkv, *out_features, *bias),
        _ => AttnScan::Skip,
    }
}

/// The first attention block opened by a node of `order`, scanning from
/// the front; `None` when there is none or a lookup on the way fails.
pub fn find_attention_block_in(graph: &Graph, order: &[NodeId]) -> (r: Option<AttentionBlockParams>)
    ensures
        match r {
            Some(p) => attn_scan(graph@, order@) == Some(p@),
            None => attn_scan(graph@, order@) is None,
        },
{
    let mut i: usize = 0;
    proof {
        assert(order@.subrange(0, order@.len() as int) =~= order@);
    }
    while i < order.len()
        invariant
            i <= order@.len(),
            attn_scan(graph@, order@) == attn_scan(graph@, order@.subrange(i as int, order@.len() as int)),
        decreases order@.len() - i,
    {
        let ghost rest = order@.subrange(i as int, order@.len() as int);
        proof {
            assert(rest[0] == order@[i as int]);
            assert(rest.drop_first() =~= order@.subrange(i + 1, order@.len() as int));
        }
        match attn_step_at(graph, order[i]) {
            AttnScan::Skip => {},
            AttnScan::Stop => return None,
            AttnScan::Found(p) => return Some(p),
        }
        i = i + 1;
    }
    None
}

/// `g2` is `g1` with the first attention block found in the traversal
/// order of `g1` (see [`is_traversal`]) replaced by one fused node.
pub open spec fn attn_fused_once(g1: GraphView, g2: GraphView) -> bool {
    exists|order: Seq<NodeId>, p: AttentionBlockView|
        #[trigger] is_traversal(g1, order) && attn_scan(g1, order) == Some(p)
            && #[trigger] block_replaced(g1, g2, p.nodes, p.ln_input_tensor, p.residual_tensor,
                p.output_tensor, "fused_attn_block"@, p.spec_op())
}

/// `g2` is `g1` after `k` attention fusions.
pub open spec fn attn_fused_times(g1: GraphView, g2: GraphView, k: nat) -> bool
    decreases k,
{
    if k == 0 {
        g2 == g1
    } else {
        exists|gm: GraphView| attn_fused_times(g1, gm, (k - 1) as nat) && #[trigger] attn_fused_once(gm, g2)
    }
}

/// A fusion round on `g` fails with `reason`: the first block found in
/// the traversal order of `g` names an output tensor that `g` lacks, or
/// every node id of `g` has been handed out.
pub open spec fn attn_round_fails(g: GraphView, reason: Seq<char>) -> bool {
    exists|order: Seq<NodeId>| #[trigger] is_traversal(g, order) && match attn_scan(g, order) {
        Some(p) => if !g.tensors.contains_key(p.output_tensor@) {
            reason == "output tensor not found"@
        } else {
            g.next_node_id == u32::MAX && reason == "node ids exhausted"@
        },
        None => false,
    }
}

/// No attention block is found in the traversal order of `g`.
pub open spec fn no_attention_block(g: GraphView) -> bool {
    exists|order: Seq<NodeId>| #[trigger] is_traversal(g, order) && attn_scan(g, order) is None
}

proof fn lemma_attn_scan_found(g: GraphView, order: Seq<NodeId>)
    requires
        attn_scan(g, order) is Some,
    ensures
        exists|j: int| 0 <= j < order.len() && attn_step(g, #[trigger] order[j]) == AttnScanStep::Found(attn_scan(g, order)->Some_0),
    decreases order.len(),
{
    match attn_step(g, order[0]) {
        AttnScanStep::Skip => {
            lemma_attn_scan_found(g, order.drop_first());
            let j = choose|j: int| 0 <= j < order.drop_first().len()
                && attn_step(g, #[trigger] order.drop_first()[j]) == AttnScanStep::Found(attn_scan(g, order)->Some_0);
            assert(order[j + 1] == order.drop_first()[j]);
        },
        _ => {},
    }
}

/// The last addition reached, if any, is an existing addition node.
spec fn add_ok(g: GraphView, s: TraceState) -> bool {
    s.last_add matches Some(a) ==> g.nodes.contains_key(a@) && g.nodes[a@].op is Add
}

proof fn lemma_visit_all_add(g: GraphView, s: TraceState, fr: Seq<NodeId>)
    requires
        add_ok(g, s),
    ensures
        add_ok(g, visit_all(g, s, fr)),
    decreases fr.len(),
{
    if fr.len() > 0 {
        lemma_visit_all_add(g, s, fr.drop_last());
    }
}

proof fn lemma_rounds_add(g: GraphView, s: TraceState, fr: Seq<NodeId>, fuel: nat)
    requires
        add_ok(g, s),
    ensures
        add_ok(g, trace_rounds(g, s, fr, fuel)),
    decreases fuel,
{
    if fuel > 0 && fr.len() > 0 {
        let s0 = TraceState { next: Seq::empty(), ..s };
        lemma_visit_all_add(g, s0, fr);
        let s2 = visit_all(g, s0, fr);
        if s2.last_add is None {
            lemma_rounds_add(g, s2, sorted_set(s2.next), (fuel - 1) as nat);
        }
    }
}

/// An attention block the scan finds removes its layer normalization, its
/// QKV projection and its residual addition, which exist.
proof fn lemma_attn_found_nodes(g: GraphView, nid: NodeId, p: AttentionBlockView)
    requires
        attn_step(g, nid) == AttnScanStep::Found(p),
    ensures
        exists|qkv: NodeId, add: NodeId|
            g.nodes.contains_key(nid@) && g.nodes[nid@].op is LayerNorm
            && g.nodes.contains_key(qkv@) && g.nodes[qkv@].op is Linear
            && g.nodes.contains_key(add@) && g.nodes[add@].op is Add
            && listed(p.nodes, nid@) && #[trigger] listed(p.nodes, qkv@) && #[trigger] listed(p.nodes, add@)
            && g.nodes[add@].outputs.len() > 0 && p.output_tensor == g.nodes[add@].outputs[0],
{
    let qkv = single_succ(g, nid)->Some_0;
    let (vis, proj, add) = attn_trace(g, qkv)->Some_0;
    let all = seq![nid, qkv] + vis + seq![add];
    lemma_rounds_add(
        g,
        TraceState { visited: seq![qkv], next: Seq::empty(), last_add: None, proj: None },
        succ_seq(g, g.nodes[qkv@].outputs),
        TRACE_ROUNDS as nat,
    );
    lemma_sorted_set(all);
    assert(p.nodes == sorted_set(all));
    assert(all[0] == nid && all[1] == qkv && all[all.len() - 1] == add);
    assert(listed(all, nid@) && listed(all, qkv@) && listed(all, add@));
    assert(listed(p.nodes, nid@) && listed(p.nodes, qkv@) && listed(p.nodes, add@));
    assert(g.nodes.contains_key(add@) && g.nodes[add@].op is Add);
}

/// What an attention block found at node `nid` is: `nid` is a layer norm
/// over input `x` of last dimension `hidden_dim`, whose only successor is a
/// `Linear` QKV projection to `3 * hidden_dim`, and the block's output is
/// the first output of an `Add` among its nodes. The fused operation splits
/// `hidden_dim` into heads of 64 when 64 divides it, else of 32 when 32
/// does, else into one head of the whole hidden size; the heads times the
/// head size give `hidden_dim`.
pub proof fn lemma_attention_block_found_law(g: GraphView, nid: NodeId, p: AttentionBlockView)
    requires
        attn_step(g, nid) == AttnScanStep::Found(p),
    ensures
        g.nodes.contains_key(nid@) && g.nodes[nid@].op is LayerNorm,
        g.nodes[nid@].inputs.len() > 0 && p.ln_input_tensor == g.nodes[nid@].inputs[0],
        g.tensors.contains_key(p.ln_input_tensor@) && g.tensors[p.ln_input_tensor@].shape.len() > 0,
        p.hidden_dim == g.tensors[p.ln_input_tensor@].shape.last(),
        single_succ(g, nid) is Some,
        g.nodes.contains_key(single_succ(g, nid)->Some_0@),
        g.nodes[single_succ(g, nid)->Some_0@].op
            == (Op::Linear { out_features: (3 * p.hidden_dim) as usize, bias: p.has_bias }),
        p.hidden_dim % 64 == 0 ==> p.head_dim == 64,
        p.hidden_dim % 64 != 0 && p.hidden_dim % 32 == 0 ==> p.head_dim == 32,
        p.hidden_dim % 64 != 0 && p.hidden_dim % 32 != 0 ==> p.head_dim == p.hidden_dim,
        p.num_heads * p.head_dim == p.hidden_dim,
        p.spec_op() matches Op::FusedAttentionBlock { num_heads, head_dim, hidden_dim, has_bias }
            && num_heads == p.num_heads && head_dim == p.head_dim && hidden_dim == p.hidden_dim
            && has_bias == p.has_bias,
{
    let h = p.hidden_dim;
    let hd = p.head_dim;
    let qkv = single_succ(g, nid)->Some_0;
    if let Op::Linear { out_features, bias } = g.nodes[qkv@].op {
        assert(attn_step_qkv(g, nid, qkv, out_features, bias) == AttnScanStep::Found(p));
    }
    assert(hd == head_dim_for(h));
    assert(p.num_heads == (h / hd) as usize);
    if h % 64 == 0 {
        assert(hd == 64);
        let q: int = (h / 64) as int;
        assert(q * 64 == h) by (nonlinear_arith)
            requires h % 64 == 0, q == h / 64;
        assert(p.num_heads == q);
        assert(p.num_heads * p.head_dim == h);
    } else if h % 32 == 0 {
        assert(hd == 32);
        let q: int = (h / 32) as int;
        assert(q * 32 == h) by (nonlinear_arith)
            requires h % 32 == 0, q == h / 32;
        assert(p.num_heads == q);
        assert(p.num_heads * p.head_dim == h);
    } else {
        assert(hd == h);
        assert(h > 0);
        assert(h / h == 1) by (nonlinear_arith)
            requires h > 0;
        assert(p.num_heads == 1);
        assert(p.num_heads * p.head_dim == h);
    }
}

/// Replacing an attention block removes at least three distinct nodes
/// and adds one.
proof fn lemma_attn_fusion_shrinks(g1: GraphView, g2: GraphView, p: AttentionBlockView, a: NodeId, b: NodeId, c: NodeId)
    requires
        g1.wf(),
        g1.nodes.dom().finite(),
        g1.nodes.contains_key(a@) && g1.nodes[a@].op is LayerNorm,
        g1.nodes.contains_key(b@) && g1.nodes[b@].op is Linear,
        g1.nodes.contains_key(c@) && g1.nodes[c@].op is Add,
        listed(p.nodes, a@) && listed(p.nodes, b@) && listed(p.nodes, c@),
        block_replaced(g1, g2, p.nodes, p.ln_input_tensor, p.residual_tensor, p.output_tensor,
            "fused_attn_block"@, p.spec_op()),
    ensures
        g2.nodes.dom().finite(),
        g2.nodes.len() + 2 <= g1.nodes.len(),
{
    let fid = g1.next_node_id;
    let bound = g1.nodes.dom().remove(a@).remove(b@).remove(c@).insert(fid);
    assert(g2.nodes.dom().subset_of(bound)) by {
        assert forall|k: u32| g2.nodes.dom().contains(k) implies bound.contains(k) by {
            if k != fid {
                assert(g2.nodes.contains_key(k));
            }
        }
    }
    vstd::set_lib::lemma_len_subset(g2.nodes.dom(), bound);
}

impl TransformPass for AttentionBlockFusion {
    fn name(&self) -> (r: &'static str)
        ensures
            r@ == "attention_block_fusion"@,
    {
        "attention_block_fusion"
    }

    /// Fuse attention blocks until none is left: each round replaces the
    /// first block found in the graph's topological order. Returns the
    /// number of blocks fused; every fusion removes at least two nodes net.
    /// A graph with no attention block left, such as this pass's own
    /// result, is left unchanged with 0 reported.
    /// When every node's outputs are tensors of the graph owned by that
    /// node alone ([`outputs_owned`], true of every graph built node by
    /// node), a round can only fail for want of node ids.
    fn transform(&self, graph: &mut Graph) -> (r: Result<usize>)
        ensures
            match r {
                Ok(k) => attn_fused_times(old(graph)@, final(graph)@, k as nat) && no_attention_block(final(graph)@)
                    && final(graph)@.nodes.len() + 2 * k <= old(graph)@.nodes.len(),
                Err(Error::FusionFailed { pattern_name, reason }) => pattern_name@ == "attention_block"@
                    && (reason@ == "output tensor not found"@ || reason@ == "node ids exhausted"@)
                    && exists|k: nat| attn_fused_times(old(graph)@, final(graph)@, k) && #[trigger] attn_round_fails(final(graph)@, reason@),
                Err(_) => false,
            },
            no_attention_block(old(graph)@) ==> (r matches Ok(k) && k == 0) && final(graph)@ == old(graph)@,
            outputs_owned(old(graph)@) ==> (r matches Err(Error::FusionFailed { reason, .. }) ==> reason@ == "node ids exhausted"@),
    {
        let ghost g0 = graph@;
        let n0 = graph.num_nodes();
        let mut fused_count: usize = 0;
        proof {
            assert(graph@.nodes.dom() =~= graph.nodes@.dom());
        }
        loop
            invariant
                graph.wf(),
                graph@.nodes.dom().finite(),
                attn_fused_times(g0, graph@, fused_count as nat),
                graph@.nodes.len() + 2 * fused_count <= g0.nodes.len(),
                n0 == g0.nodes.len(),
                g0 == old(graph)@,
                no_attention_block(g0) ==> fused_count == 0,
                outputs_owned(g0) ==> outputs_owned(graph@),
            ensures
                graph.wf(),
                no_attention_block(g0) ==> fused_count == 0,
                attn_fused_times(g0, graph@, fused_count as nat) && no_attention_block(graph@)
                    && graph@.nodes.len() + 2 * fused_count <= g0.nodes.len(),
            decreases graph@.nodes.len(),
        {
            let order = graph.topological_order();
            let candidate = find_attention_block_in(graph, order.as_slice());
            let p = match candidate {
                Some(p) => p,
                None => {
                    proof {
                        assert(no_attention_block(graph@)) by {
                            assert(is_traversal(graph@, order@));
                        }
                    }
                    break;
                },
            };
            let ghost gm = graph@;
            proof {
                if fused_count == 0 && no_attention_block(g0) {
                    assert(gm == g0);
                    let order2 = choose|order2: Seq<NodeId>| #[trigger] is_traversal(g0, order2) && attn_scan(g0, order2) is None;
                    lemma_traversal_unique(g0, order2, order@);
                    assert(false);
                }
            }
            let ghost pv = p@;
            proof {
                lemma_attn_scan_found(gm, order@);
                let j = choose|j: int| 0 <= j < order@.len()
                    && attn_step(gm, #[trigger] order@[j]) == AttnScanStep::Found(pv);
                lemma_attn_found_nodes(gm, order@[j], pv);
            }
            let op = Op::FusedAttentionBlock {
                num_heads: p.num_heads,
                head_dim: p.head_dim,
                hidden_dim: p.hidden_dim,
                has_bias: p.has_bias,
            };
            match replace_with_fused(graph, p.nodes_to_remove.as_slice(), p.ln_input_tensor, p.residual_tensor,
                p.output_tensor, "fused_attn_block", op, "attention_block") {
                Ok(()) => {},
                Err(e) => {
                    proof {
                        assert(attn_fused_times(g0, graph@, fused_count as nat));
                        if let Error::FusionFailed { reason, .. } = &e {
                            assert(is_traversal(gm, order@));
                            assert(attn_round_fails(graph@, reason@));
                            if outputs_owned(g0) {
                                let j = choose|j: int| 0 <= j < order@.len()
                                    && attn_step(gm, #[trigger] order@[j]) == AttnScanStep::Found(pv);
                                lemma_attn_found_nodes(gm, order@[j], pv);
                                let (qkv, add) = choose|qkv: NodeId, add: NodeId|
                                    gm.nodes.contains_key(order@[j]@) && gm.nodes[order@[j]@].op is LayerNorm
                                    && gm.nodes.contains_key(qkv@) && gm.nodes[qkv@].op is Linear
                                    && gm.nodes.contains_key(add@) && gm.nodes[add@].op is Add
                                    && listed(pv.nodes, order@[j]@) && #[trigger] listed(pv.nodes, qkv@) && #[trigger] listed(pv.nodes, add@)
                                    && gm.nodes[add@].outputs.len() > 0 && pv.output_tensor == gm.nodes[add@].outputs[0];
                                assert(names_tensor(gm.nodes[add@].outputs, pv.output_tensor@)) by {
                                    assert(gm.nodes[add@].outputs[0]@ == pv.output_tensor@);
                                }
                                assert(gm.tensors.contains_key(p.output_tensor@));
                            }
                        }
                    }
                    return Err(e);
                },
            }
            proof {
                let j = choose|j: int| 0 <= j < order@.len()
                    && attn_step(gm, #[trigger] order@[j]) == AttnScanStep::Found(pv);
                lemma_attn_found_nodes(gm, order@[j], pv);
                let (qkv, add) = choose|qkv: NodeId, add: NodeId|
                    gm.nodes.contains_key(order@[j]@) && gm.nodes[order@[j]@].op is LayerNorm
                    && gm.nodes.contains_key(qkv@) && gm.nodes[qkv@].op is Linear
                    && gm.nodes.contains_key(add@) && gm.nodes[add@].op is Add
                    && listed(pv.nodes, order@[j]@) && #[trigger] listed(pv.nodes, qkv@) && #[trigger] listed(pv.nodes, add@)
                    && gm.nodes[add@].outputs.len() > 0 && pv.output_tensor == gm.nodes[add@].outputs[0];
                lemma_attn_fusion_shrinks(gm, graph@, pv, order@[j], qkv, add);
                assert(attn_fused_once(gm, graph@)) by {
                    assert(is_traversal(gm, order@));
                    assert(attn_scan(gm, order@) == Some(pv));
                    assert(block_replaced(gm, graph@, pv.nodes, pv.ln_input_tensor, pv.residual_tensor,
                        pv.output_tensor, "fused_attn_block"@, pv.spec_op()));
                }
                assert(attn_fused_times(g0, graph@, (fused_count + 1) as nat));
                if outputs_owned(g0) {
                    assert(names_tensor(gm.nodes[add@].outputs, pv.output_tensor@)) by {
                        assert(gm.nodes[add@].outputs[0]@ == pv.output_tensor@);
                    }
                    lemma_replaced_outputs_owned(gm, graph@, pv.nodes, pv.ln_input_tensor, pv.residual_tensor,
                        pv.output_tensor, "fused_attn_block"@, pv.spec_op(), add@);
                }
            }
            fused_count = fused_count + 1;
        }
        Ok(fused_count)
    }
}

} // verus!
