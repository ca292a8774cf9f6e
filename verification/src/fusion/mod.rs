//! Fusion passes: replace recognised subgraphs by single fused nodes.
//!
//! A fusion removes every node of the matched block and inserts one fused
//! node that reads the block input (and the residual, when it differs) and
//! produces the block's own output tensor, so downstream consumers
//! keep pointing at the same tensor id.

use vstd::prelude::*;
use crate::error::{owned, Error, Result};
use crate::graph::builder::{built_by_nodes, names_tensor, node_built, node_removed, without_node, without_tensors};
use crate::graph::topo::listed;
use crate::graph::{Graph, GraphView, Node, NodeId, NodeView, TensorId, TensorView};
use crate::op::Op;

pub mod attn_block;
pub mod ffn_block;

verus! {

broadcast use crate::graph::group_graph_model;

/// The inputs of a fused block: the block input, then the residual when it
/// is a different tensor.
pub open spec fn fused_inputs(x: TensorId, residual: TensorId) -> Seq<TensorId> {
    if residual == x { seq![x] } else { seq![x, residual] }
}

/// Node `c`, one of `removed`, is taken off the consumers of tensor `t`
/// when it goes: it is a node of `g1` that reads `t`.
pub open spec fn drops_consumer(g1: GraphView, removed: Seq<NodeId>, t: u32, c: NodeId) -> bool {
    listed(removed, c@) && g1.nodes.contains_key(c@) && names_tensor(g1.nodes[c@].inputs, t)
}

/// The entries of `cons`, consumers of tensor `t`, that stay when the
/// nodes in `removed` go, in order.
pub open spec fn kept_consumers(g1: GraphView, removed: Seq<NodeId>, t: u32, cons: Seq<NodeId>) -> Seq<NodeId>
    decreases cons.len(),
{
    if cons.len() == 0 {
        Seq::empty()
    } else if drops_consumer(g1, removed, t, cons.last()) {
        kept_consumers(g1, removed, t, cons.drop_last())
    } else {
        kept_consumers(g1, removed, t, cons.drop_last()).push(cons.last())
    }
}

/// Tensor `t` goes with the nodes in `removed`: it is not `output` and one
/// of those nodes of `g1` lists it as an output.
pub open spec fn dropped_tensor(g1: GraphView, removed: Seq<NodeId>, output: TensorId, t: u32) -> bool {
    &&& t != output@
    &&& exists|j: int| 0 <= j < removed.len() && g1.nodes.contains_key(#[trigger] removed[j]@)
            && names_tensor(g1.nodes[removed[j]@].outputs, t)
}

/// The entries of `ids` that are not dropped with the nodes in `removed`,
/// in order.
pub open spec fn kept_tensors(g1: GraphView, removed: Seq<NodeId>, output: TensorId, ids: Seq<TensorId>) -> Seq<TensorId>
    decreases ids.len(),
{
    if ids.len() == 0 {
        Seq::empty()
    } else if dropped_tensor(g1, removed, output, ids.last()@) {
        kept_tensors(g1, removed, output, ids.drop_last())
    } else {
        kept_tensors(g1, removed, output, ids.drop_last()).push(ids.last())
    }
}

/// Tensor `t` of `g1` once the nodes in `removed` are replaced by node
/// `fid` reading [`fused_inputs`] and producing `output`: the removed
/// nodes leave its consumers, `fid` joins them when it reads `t`, and
/// `output` is now produced by `fid`. Shape, element type and name stay.
pub open spec fn replaced_tensor(
    g1: GraphView,
    removed: Seq<NodeId>,
    x: TensorId,
    residual: TensorId,
    output: TensorId,
    fid: NodeId,
    t: u32,
) -> TensorView {
    let kept = kept_consumers(g1, removed, t, g1.tensors[t].consumers);
    TensorView {
        producer: if t == output@ { Some(fid) } else { g1.tensors[t].producer },
        consumers: if names_tensor(fused_inputs(x, residual), t) && !kept.contains(fid) { kept.push(fid) } else { kept },
        ..g1.tensors[t]
    }
}

/// `g2` is `g1` with the nodes in `removed` taken out and one new node
/// added under the next node id: it is called `name`, runs `op`, reads
/// [`fused_inputs`] and produces `output`, which it now owns. Every other
/// node is unchanged and no tensor is created. The tensors produced by the
/// removed nodes go, except `output`, also from the graph outputs; every
/// other tensor stays as [`replaced_tensor`] says: the removed nodes leave
/// its consumers and, when it is an input of the new node, the new node
/// joins them.
pub open spec fn block_replaced(
    g1: GraphView,
    g2: GraphView,
    removed: Seq<NodeId>,
    x: TensorId,
    residual: TensorId,
    output: TensorId,
    name: Seq<char>,
    op: Op,
) -> bool {
    let fid = g1.next_node_id;
    let f = g2.nodes[fid];
    &&& g2.next_node_id == fid + 1
    &&& g2.next_tensor_id == g1.next_tensor_id
    &&& g2.name == g1.name
    &&& g2.inputs == g1.inputs
    &&& g2.nodes.contains_key(fid)
    &&& f.id@ == fid
    &&& f.name == name
    &&& f.op == op
    &&& f.inputs == fused_inputs(x, residual)
    &&& f.outputs == seq![output]
    &&& forall|k: u32| k != fid ==> (#[trigger] g2.nodes.contains_key(k) <==> g1.nodes.contains_key(k) && !listed(removed, k))
    &&& forall|k: u32| k != fid && #[trigger] g2.nodes.contains_key(k) ==> g2.nodes[k] == g1.nodes[k]
    &&& forall|t: u32| #[trigger] g2.tensors.contains_key(t) ==> g1.tensors.contains_key(t)
    &&& g2.tensors.contains_key(output@)
    &&& g2.tensors[output@].producer == Some(f.id)
    &&& forall|i: int| 0 <= i < f.inputs.len() && #[trigger] g2.tensors.contains_key(f.inputs[i]@) ==>
            g2.tensors[f.inputs[i]@].consumers.contains(f.id)
    &&& g2.outputs == kept_tensors(g1, removed, output, g1.outputs)
    &&& forall|t: u32| #[trigger] g2.tensors.contains_key(t) <==>
            g1.tensors.contains_key(t) && !dropped_tensor(g1, removed, output, t)
    &&& forall|t: u32| #[trigger] g2.tensors.contains_key(t) ==>
            g2.tensors[t] == replaced_tensor(g1, removed, x, residual, output, f.id, t)
}

proof fn lemma_without_tensors_excludes(ids: Seq<TensorId>, t: TensorId)
    ensures
        !names_tensor(without_tensors(ids, seq![t]), t@),
    decreases ids.len(),
{
    if ids.len() > 0 {
        lemma_without_tensors_excludes(ids.drop_last(), t);
        let w = without_tensors(ids.drop_last(), seq![t]);
        if !names_tensor(seq![t], ids.last()@) {
            assert(ids.last()@ != t@) by {
                if ids.last()@ == t@ {
                    assert(seq![t][0]@ == ids.last()@);
                }
            }
            let wp = w.push(ids.last());
            if names_tensor(wp, t@) {
                let i = choose|i: int| 0 <= i < wp.len() && #[trigger] wp[i]@ == t@;
                if i < w.len() {
                    assert(wp[i] == w[i]);
                }
            }
        }
    }
}

proof fn lemma_listed_prefix(s: Seq<NodeId>, i: int, k: u32)
    requires
        0 <= i < s.len(),
    ensures
        listed(s.subrange(0, i + 1), k) <==> (listed(s.subrange(0, i), k) || s[i]@ == k),
{
    let s1 = s.subrange(0, i + 1);
    let s0 = s.subrange(0, i);
    if listed(s1, k) {
        let j = choose|j: int| 0 <= j < s1.len() && s1[j]@ == k;
        if j < i {
            assert(s0[j]@ == k);
        }
    }
    if listed(s0, k) {
        let j = choose|j: int| 0 <= j < s0.len() && s0[j]@ == k;
        assert(s1[j]@ == k);
    }
    if s[i]@ == k {
        assert(s1[i]@ == k);
    }
}

/// Every node's outputs are tensors of `g`, and no tensor is an output of
/// two nodes.
pub open spec fn outputs_owned(g: GraphView) -> bool {
    &&& forall|n: u32, t: u32| g.nodes.contains_key(n) && #[trigger] names_tensor(g.nodes[n].outputs, t)
            ==> g.tensors.contains_key(t)
    &&& forall|n: u32, m: u32, t: u32| g.nodes.contains_key(n) && g.nodes.contains_key(m)
            && #[trigger] names_tensor(g.nodes[n].outputs, t) && #[trigger] names_tensor(g.nodes[m].outputs, t) ==> n == m
}

/// A graph built by nodes has every output owned by one node.
pub proof fn lemma_built_outputs_owned(g: GraphView)
    requires
        g.wf(),
        built_by_nodes(g),
    ensures
        outputs_owned(g),
{
    reveal(built_by_nodes);
    assert forall|n: u32, t: u32| g.nodes.contains_key(n) && #[trigger] names_tensor(g.nodes[n].outputs, t)
        implies g.tensors.contains_key(t) by {
        assert(node_built(g, n));
        let i = choose|i: int| 0 <= i < g.nodes[n].outputs.len() && #[trigger] g.nodes[n].outputs[i]@ == t;
    }
    assert forall|n: u32, m: u32, t: u32| g.nodes.contains_key(n) && g.nodes.contains_key(m)
        && #[trigger] names_tensor(g.nodes[n].outputs, t) && #[trigger] names_tensor(g.nodes[m].outputs, t)
        implies n == m by {
        assert(node_built(g, n));
        assert(node_built(g, m));
        let i = choose|i: int| 0 <= i < g.nodes[n].outputs.len() && #[trigger] g.nodes[n].outputs[i]@ == t;
        let j = choose|j: int| 0 <= j < g.nodes[m].outputs.len() && #[trigger] g.nodes[m].outputs[j]@ == t;
        assert(g.tensors[t].producer == Some(g.nodes[n].id));
        assert(g.tensors[t].producer == Some(g.nodes[m].id));
    }
}

/// Replacing a block whose output belongs to one of its nodes keeps every
/// output owned by one node.
pub proof fn lemma_replaced_outputs_owned(
    g1: GraphView,
    g2: GraphView,
    removed: Seq<NodeId>,
    x: TensorId,
    residual: TensorId,
    output: TensorId,
    name: Seq<char>,
    op: Op,
    a: u32,
)
    requires
        g1.wf(),
        outputs_owned(g1),
        block_replaced(g1, g2, removed, x, residual, output, name, op),
        g1.nodes.contains_key(a),
        listed(removed, a),
        names_tensor(g1.nodes[a].outputs, output@),
    ensures
        outputs_owned(g2),
{
    let fid = g1.next_node_id;
    assert(!g1.nodes.contains_key(fid));
    assert(names_tensor(seq![output], output@)) by {
        assert(seq![output][0]@ == output@);
    }
    assert forall|n: u32, t: u32| g2.nodes.contains_key(n) && #[trigger] names_tensor(g2.nodes[n].outputs, t)
        implies g2.tensors.contains_key(t) by {
        if n == fid {
            let i = choose|i: int| 0 <= i < g2.nodes[n].outputs.len() && #[trigger] g2.nodes[n].outputs[i]@ == t;
            assert(g2.nodes[n].outputs == seq![output]);
        } else {
            assert(g1.nodes.contains_key(n) && !listed(removed, n));
            assert(g2.nodes[n] == g1.nodes[n]);
            assert(g1.tensors.contains_key(t));
            if dropped_tensor(g1, removed, output, t) {
                let j = choose|j: int| 0 <= j < removed.len() && g1.nodes.contains_key(#[trigger] removed[j]@)
                    && names_tensor(g1.nodes[removed[j]@].outputs, t);
                assert(removed[j]@ == n);
                assert(listed(removed, n));
            }
        }
    }
    assert forall|n: u32, m: u32, t: u32| g2.nodes.contains_key(n) && g2.nodes.contains_key(m)
        && #[trigger] names_tensor(g2.nodes[n].outputs, t) && #[trigger] names_tensor(g2.nodes[m].outputs, t)
        implies n == m by {
        if n != fid && m != fid {
            assert(g2.nodes[n] == g1.nodes[n] && g2.nodes[m] == g1.nodes[m]);
        } else if n == fid && m != fid {
            let i = choose|i: int| 0 <= i < g2.nodes[n].outputs.len() && #[trigger] g2.nodes[n].outputs[i]@ == t;
            assert(g2.nodes[n].outputs == seq![output]);
            assert(t == output@);
            assert(g2.nodes[m] == g1.nodes[m]);
            assert(m == a);
        } else if m == fid && n != fid {
            let i = choose|i: int| 0 <= i < g2.nodes[m].outputs.len() && #[trigger] g2.nodes[m].outputs[i]@ == t;
            assert(g2.nodes[m].outputs == seq![output]);
            assert(t == output@);
            assert(g2.nodes[n] == g1.nodes[n]);
            assert(n == a);
        }
    }
}

proof fn lemma_names_push(s: Seq<TensorId>, a: TensorId, t: u32)
    ensures
        names_tensor(s.push(a), t) <==> names_tensor(s, t) || a@ == t,
{
    if names_tensor(s.push(a), t) {
        let i = choose|i: int| 0 <= i < s.push(a).len() && #[trigger] s.push(a)[i]@ == t;
        if i < s.len() {
            assert(s[i] == s.push(a)[i]);
        }
    }
    if names_tensor(s, t) {
        let i = choose|i: int| 0 <= i < s.len() && #[trigger] s[i]@ == t;
        assert(s.push(a)[i] == s[i]);
    }
    if a@ == t {
        assert(s.push(a)[s.len() as int] == a);
    }
}

proof fn lemma_names_without(ids: Seq<TensorId>, gone: Seq<TensorId>, t: u32)
    ensures
        names_tensor(without_tensors(ids, gone), t) <==> names_tensor(ids, t) && !names_tensor(gone, t),
    decreases ids.len(),
{
    if ids.len() > 0 {
        let p = ids.drop_last();
        let a = ids.last();
        lemma_names_without(p, gone, t);
        assert(p.push(a) =~= ids);
        lemma_names_push(p, a, t);
        lemma_names_push(without_tensors(p, gone), a, t);
        if a@ == t && names_tensor(gone, a@) {
            assert(names_tensor(gone, t));
        }
    } else {
        if names_tensor(ids, t) {
            let i = choose|i: int| 0 <= i < ids.len() && #[trigger] ids[i]@ == t;
        }
        let w = without_tensors(ids, gone);
        if names_tensor(w, t) {
            let i = choose|i: int| 0 <= i < w.len() && #[trigger] w[i]@ == t;
        }
    }
}

proof fn lemma_dropped_step(g1: GraphView, rm: Seq<NodeId>, output: TensorId, i: int, t: u32)
    requires
        0 <= i < rm.len(),
    ensures
        dropped_tensor(g1, rm.subrange(0, i + 1), output, t) <==> dropped_tensor(g1, rm.subrange(0, i), output, t)
            || (t != output@ && g1.nodes.contains_key(rm[i]@) && names_tensor(g1.nodes[rm[i]@].outputs, t)),
{
    let r1 = rm.subrange(0, i + 1);
    let r0 = rm.subrange(0, i);
    if dropped_tensor(g1, r1, output, t) {
        let j = choose|j: int| 0 <= j < r1.len() && g1.nodes.contains_key(#[trigger] r1[j]@)
            && names_tensor(g1.nodes[r1[j]@].outputs, t);
        if j < i {
            assert(r0[j] == r1[j]);
        }
    }
    if dropped_tensor(g1, r0, output, t) {
        let j = choose|j: int| 0 <= j < r0.len() && g1.nodes.contains_key(#[trigger] r0[j]@)
            && names_tensor(g1.nodes[r0[j]@].outputs, t);
        assert(r1[j] == r0[j]);
    }
    if t != output@ && g1.nodes.contains_key(rm[i]@) && names_tensor(g1.nodes[rm[i]@].outputs, t) {
        assert(r1[i] == rm[i]);
    }
}

proof fn lemma_kept_consumers_step(g1: GraphView, rm: Seq<NodeId>, i: int, t: u32, cons: Seq<NodeId>)
    requires
        0 <= i < rm.len(),
    ensures
        g1.nodes.contains_key(rm[i]@) && !listed(rm.subrange(0, i), rm[i]@)
            && names_tensor(g1.nodes[rm[i]@].inputs, t) ==>
            kept_consumers(g1, rm.subrange(0, i + 1), t, cons)
                == without_node(kept_consumers(g1, rm.subrange(0, i), t, cons), rm[i]@),
        !(g1.nodes.contains_key(rm[i]@) && !listed(rm.subrange(0, i), rm[i]@)
            && names_tensor(g1.nodes[rm[i]@].inputs, t)) ==>
            kept_consumers(g1, rm.subrange(0, i + 1), t, cons) == kept_consumers(g1, rm.subrange(0, i), t, cons),
    decreases cons.len(),
{
    if cons.len() > 0 {
        lemma_kept_consumers_step(g1, rm, i, t, cons.drop_last());
        let c = cons.last();
        lemma_listed_prefix(rm, i, c@);
        let k = rm[i]@;
        let live = g1.nodes.contains_key(k) && !listed(rm.subrange(0, i), k) && names_tensor(g1.nodes[k].inputs, t);
        let w = kept_consumers(g1, rm.subrange(0, i), t, cons.drop_last());
        if live && !drops_consumer(g1, rm.subrange(0, i), t, c) {
            assert(w.push(c).drop_last() =~= w);
        }
        if !live && listed(rm.subrange(0, i + 1), c@) && !listed(rm.subrange(0, i), c@) {
            assert(c@ == k);
        }
    }
}

proof fn lemma_kept_tensors_step(g1: GraphView, rm: Seq<NodeId>, output: TensorId, i: int, ids: Seq<TensorId>)
    requires
        0 <= i < rm.len(),
    ensures
        g1.nodes.contains_key(rm[i]@) && !listed(rm.subrange(0, i), rm[i]@) ==>
            kept_tensors(g1, rm.subrange(0, i + 1), output, ids)
                == without_tensors(kept_tensors(g1, rm.subrange(0, i), output, ids),
                    without_tensors(g1.nodes[rm[i]@].outputs, seq![output])),
        !(g1.nodes.contains_key(rm[i]@) && !listed(rm.subrange(0, i), rm[i]@)) ==>
            kept_tensors(g1, rm.subrange(0, i + 1), output, ids) == kept_tensors(g1, rm.subrange(0, i), output, ids),
    decreases ids.len(),
{
    if ids.len() > 0 {
        lemma_kept_tensors_step(g1, rm, output, i, ids.drop_last());
        let a = ids.last();
        let k = rm[i]@;
        lemma_dropped_step(g1, rm, output, i, a@);
        lemma_names_without(g1.nodes[k].outputs, seq![output], a@);
        assert(names_tensor(seq![output], a@) <==> a@ == output@) by {
            if names_tensor(seq![output], a@) {
                let j = choose|j: int| 0 <= j < 1 && #[trigger] seq![output][j]@ == a@;
            }
            if a@ == output@ {
                assert(seq![output][0]@ == a@);
            }
        }
        if !(g1.nodes.contains_key(k) && !listed(rm.subrange(0, i), k)) && g1.nodes.contains_key(k) {
            let j = choose|j: int| 0 <= j < rm.subrange(0, i).len() && rm.subrange(0, i)[j]@ == k;
            if a@ != output@ && names_tensor(g1.nodes[k].outputs, a@) {
                assert(rm.subrange(0, i)[j] == rm[j]);
                assert(dropped_tensor(g1, rm.subrange(0, i), output, a@));
            }
        }
        let w = kept_tensors(g1, rm.subrange(0, i), output, ids.drop_last());
        assert(w.push(a).drop_last() =~= w);
    }
}

proof fn lemma_kept_none(g1: GraphView, output: TensorId, t: u32, cons: Seq<NodeId>, ids: Seq<TensorId>)
    ensures
        kept_consumers(g1, Seq::empty(), t, cons) == cons,
        kept_tensors(g1, Seq::empty(), output, ids) == ids,
    decreases cons.len() + ids.len(),
{
    if cons.len() > 0 {
        lemma_kept_none(g1, output, t, cons.drop_last(), ids);
        assert(!listed(Seq::<NodeId>::empty(), cons.last()@));
        assert(cons.drop_last().push(cons.last()) =~= cons);
    }
    if ids.len() > 0 {
        lemma_kept_none(g1, output, t, cons, ids.drop_last());
        assert(ids.drop_last().push(ids.last()) =~= ids);
    }
}

/// Replace the nodes in `removed` by one fused node named `name` running
/// `op` on [`fused_inputs`] and producing `output` (see
/// [`block_replaced`]).
///
/// # Errors
///
/// [`Error::FusionFailed`] for `pattern` when the graph holds no tensor
/// `output`, or when every node id has been handed out; the graph is then
/// unchanged.
pub(crate) fn replace_with_fused(
    graph: &mut Graph,
    removed: &[NodeId],
    x: TensorId,
    residual: TensorId,
    output: TensorId,
    name: &str,
    op: Op,
    pattern: &str,
) -> (r: Result<()>)
    requires
        old(graph).wf(),
    ensures
        final(graph).wf(),
        match r {
            Ok(()) => old(graph)@.tensors.contains_key(output@) && old(graph)@.next_node_id < u32::MAX
                && block_replaced(old(graph)@, final(graph)@, removed@, x, residual, output, name@, op),
            Err(Error::FusionFailed { pattern_name, reason }) => pattern_name@ == pattern@ && final(graph)@ == old(graph)@
                && if !old(graph)@.tensors.contains_key(output@) {
                    reason@ == "output tensor not found"@
                } else {
                    old(graph)@.next_node_id == u32::MAX && reason@ == "node ids exhausted"@
                },
            Err(_) => false,
        },
{
    if graph.tensor(output).is_none() {
        return Err(Error::FusionFailed { pattern_name: owned(pattern), reason: owned("output tensor not found") });
    }
    if graph.next_node_id == u32::MAX {
        return Err(Error::FusionFailed { pattern_name: owned(pattern), reason: owned("node ids exhausted") });
    }
    let ghost g1 = graph@;
    proof {
        assert(removed@.subrange(0, 0) =~= Seq::<NodeId>::empty());
        lemma_kept_none(g1, output, 0, Seq::empty(), g1.outputs);
        assert forall|t: u32| #[trigger] graph@.tensors.contains_key(t) implies graph@.tensors[t] == (TensorView {
            consumers: kept_consumers(g1, removed@.subrange(0, 0), t, g1.tensors[t].consumers),
            ..g1.tensors[t]
        }) by {
            lemma_kept_none(g1, output, t, g1.tensors[t].consumers, Seq::empty());
        }
    }
    let mut i: usize = 0;
    while i < removed.len()
        invariant
            graph.wf(),
            i <= removed@.len(),
            graph@.next_node_id == g1.next_node_id,
            graph@.next_tensor_id == g1.next_tensor_id,
            graph@.name == g1.name,
            graph@.inputs == g1.inputs,
            forall|k: u32| #[trigger] graph@.nodes.contains_key(k) <==>
                g1.nodes.contains_key(k) && !listed(removed@.subrange(0, i as int), k),
            forall|k: u32| #[trigger] graph@.nodes.contains_key(k) ==> graph@.nodes[k] == g1.nodes[k],
            forall|t: u32| #[trigger] graph@.tensors.contains_key(t) ==> g1.tensors.contains_key(t),
            graph@.tensors.contains_key(output@),
            forall|t: u32| #[trigger] graph@.tensors.contains_key(t) <==>
                g1.tensors.contains_key(t) && !dropped_tensor(g1, removed@.subrange(0, i as int), output, t),
            forall|t: u32| #[trigger] graph@.tensors.contains_key(t) ==> graph@.tensors[t] == (TensorView {
                consumers: kept_consumers(g1, removed@.subrange(0, i as int), t, g1.tensors[t].consumers),
                ..g1.tensors[t]
            }),
            graph@.outputs == kept_tensors(g1, removed@.subrange(0, i as int), output, g1.outputs),
        decreases removed@.len() - i,
    {
        let nid = removed[i];
        let ghost g0 = graph@;
        graph.detach_output(nid, output);
        let ghost gd = graph@;
        graph.remove_node(nid);
        proof {
            assert forall|k: u32| #[trigger] graph@.nodes.contains_key(k) <==>
                g1.nodes.contains_key(k) && !listed(removed@.subrange(0, i + 1), k) by {
                lemma_listed_prefix(removed@, i as int, k);
            }
            let k = nid@;
            let r0 = removed@.subrange(0, i as int);
            let r1 = removed@.subrange(0, i + 1);
            assert(removed@[i as int] == nid);
            lemma_kept_tensors_step(g1, removed@, output, i as int, g1.outputs);
            assert(g0.nodes.contains_key(k) <==> g1.nodes.contains_key(k) && !listed(r0, k));
            if g1.nodes.contains_key(k) && listed(r0, k) {
                let j0 = choose|j: int| 0 <= j < r0.len() && r0[j]@ == k;
                assert(r0[j0] == removed@[j0]);
                assert forall|t: u32| dropped_tensor(g1, r1, output, t) implies dropped_tensor(g1, r0, output, t) by {
                    lemma_dropped_step(g1, removed@, output, i as int, t);
                    if !dropped_tensor(g1, r0, output, t) {
                        assert(g1.nodes.contains_key(r0[j0]@));
                    }
                }
            }
            if !g0.nodes.contains_key(k) {
                assert(graph@ == g0);
                assert forall|t: u32| #[trigger] graph@.tensors.contains_key(t) <==>
                    g1.tensors.contains_key(t) && !dropped_tensor(g1, r1, output, t) by {
                    lemma_dropped_step(g1, removed@, output, i as int, t);
                }
                assert forall|t: u32| #[trigger] graph@.tensors.contains_key(t) implies graph@.tensors[t] == (TensorView {
                    consumers: kept_consumers(g1, r1, t, g1.tensors[t].consumers),
                    ..g1.tensors[t]
                }) by {
                    lemma_kept_consumers_step(g1, removed@, i as int, t, g1.tensors[t].consumers);
                }
            }
            if g0.nodes.contains_key(nid@) {
                lemma_without_tensors_excludes(g0.nodes[nid@].outputs, output);
                assert(gd.tensors == g0.tensors);
                assert(gd.outputs == g0.outputs);
                assert(gd.nodes[k].inputs == g1.nodes[k].inputs);
                assert(names_tensor(seq![output], output@)) by {
                    assert(seq![output][0]@ == output@);
                }
                assert forall|t: u32| #[trigger] graph@.tensors.contains_key(t) <==>
                    g1.tensors.contains_key(t) && !dropped_tensor(g1, r1, output, t) by {
                    lemma_dropped_step(g1, removed@, output, i as int, t);
                    lemma_names_without(g1.nodes[k].outputs, seq![output], t);
                    if names_tensor(seq![output], t) {
                        let j = choose|j: int| 0 <= j < 1 && #[trigger] seq![output][j]@ == t;
                    }
                }
                assert forall|t: u32| #[trigger] graph@.tensors.contains_key(t) implies graph@.tensors[t] == (TensorView {
                    consumers: kept_consumers(g1, r1, t, g1.tensors[t].consumers),
                    ..g1.tensors[t]
                }) by {
                    lemma_kept_consumers_step(g1, removed@, i as int, t, g1.tensors[t].consumers);
                    assert(gd.tensors.contains_key(t));
                }
                assert(node_removed(gd, graph@, nid@));
                assert(gd.nodes[nid@].outputs == without_tensors(g0.nodes[nid@].outputs, seq![output]));
                assert(graph@.tensors.contains_key(output@));
                assert forall|k: u32| #[trigger] graph@.nodes.contains_key(k) implies graph@.nodes[k] == g1.nodes[k] by {
                    assert(k != nid@);
                    assert(gd.nodes[k] == g0.nodes[k]);
                }
            }
        }
        i = i + 1;
    }
    proof {
        assert(removed@.subrange(0, removed@.len() as int) =~= removed@);
    }
    let ghost g3 = graph@;
    proof {
        assert(g3.outputs == kept_tensors(g1, removed@, output, g1.outputs));
    }
    let fid = graph.alloc_node_id();
    graph.update_tensor_producer(output, Some(fid));
    let mut inputs: Vec<TensorId> = Vec::new();
    inputs.push(x);
    if residual.0 != x.0 {
        inputs.push(residual);
    }
    let mut outputs: Vec<TensorId> = Vec::new();
    outputs.push(output);
    let node = Node::new(fid, name, op, inputs, outputs);
    proof {
        assert(inputs@ =~= fused_inputs(x, residual));
        assert(outputs@ =~= seq![output]);
    }
    let ghost g4 = graph@;
    let ghost nv = node@;
    graph.insert_node(node);
    proof {
        let g2 = graph@;
        assert(!g3.nodes.contains_key(fid@));
        assert(g2.nodes[fid@] == nv);
        assert forall|k: u32| k != fid@ implies (#[trigger] g2.nodes.contains_key(k) <==>
            g1.nodes.contains_key(k) && !listed(removed@, k)) by {
            assert(g4.nodes == g3.nodes);
        }
        assert forall|j: int| 0 <= j < nv.inputs.len() && #[trigger] g2.tensors.contains_key(nv.inputs[j]@) implies
            g2.tensors[nv.inputs[j]@].consumers.contains(nv.id) by {
            let xk = nv.inputs[j]@;
            assert(names_tensor(nv.inputs, xk));
            if g4.tensors[xk].consumers.contains(nv.id) {
            } else {
                assert(g2.tensors[xk].consumers == g4.tensors[xk].consumers + seq![nv.id]);
                assert(g2.tensors[xk].consumers[g4.tensors[xk].consumers.len() as int] == nv.id);
            }
        }
        assert(g4.nodes == g3.nodes);
        assert forall|k: u32| k != fid@ && #[trigger] g2.nodes.contains_key(k) implies g2.nodes[k] == g1.nodes[k] by {
            assert(g3.nodes.contains_key(k));
        }
        assert forall|t: u32| #[trigger] g2.tensors.contains_key(t) implies g1.tensors.contains_key(t) by {
            assert(g3.tensors.contains_key(t));
        }
        assert(g2.tensors.contains_key(output@));
        assert(g2.tensors[output@].producer == Some(nv.id));
        assert(nv.id@ == fid@);
        assert forall|t: u32| #[trigger] g2.tensors.contains_key(t) <==>
            g1.tensors.contains_key(t) && !dropped_tensor(g1, removed@, output, t) by {
            assert(g4.tensors.contains_key(t) == g3.tensors.contains_key(t));
        }
        assert forall|t: u32| #[trigger] g2.tensors.contains_key(t) implies
            g2.tensors[t] == replaced_tensor(g1, removed@, x, residual, output, nv.id, t) by {
            assert(g3.tensors.contains_key(t));
            let kept = kept_consumers(g1, removed@, t, g1.tensors[t].consumers);
            assert(g3.tensors[t].consumers == kept);
            assert(kept + seq![nv.id] =~= kept.push(nv.id));
        }
        assert(g2.outputs == g3.outputs);
        assert(block_replaced(g1, g2, removed@, x, residual, output, name@, op));
    }
    Ok(())
}

} // verus!
