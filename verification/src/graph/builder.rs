//! Graph construction and mutation: adding nodes, fused nodes, removal.

use vstd::prelude::*;
use crate::dtype::DType;
use crate::error::{owned, Error, Result};
use crate::graph::{Graph, GraphView, Node, NodeId, NodeView, TensorId, TensorMeta, TensorView};
use crate::op::{Op, shapes_view, vecs_view};
use crate::op::shape::{infer_rule, shapes_fit, shape_to_vec};
use crate::text::{dec_text, push_dec};

verus! {

broadcast use crate::graph::group_graph_model;

/// How many times tensor `k` occurs in `ids`.
pub open spec fn count_in(ids: Seq<TensorId>, k: u32) -> nat
    decreases ids.len(),
{
    if ids.len() == 0 {
        0
    } else {
        count_in(ids.drop_last(), k) + if ids.last()@ == k { 1nat } else { 0nat }
    }
}

/// The first id in `ids` that names no tensor of the graph.
pub open spec fn first_missing(g: GraphView, ids: Seq<TensorId>) -> Option<TensorId>
    decreases ids.len(),
{
    if ids.len() == 0 {
        None
    } else {
        match first_missing(g, ids.drop_last()) {
            Some(t) => Some(t),
            None => if g.tensors.contains_key(ids.last()@) { None } else { Some(ids.last()) },
        }
    }
}

/// The shapes of the tensors named by `ids`.
pub open spec fn shapes_of(g: GraphView, ids: Seq<TensorId>) -> Seq<Seq<usize>> {
    Seq::new(ids.len(), |i: int| g.tensors[ids[i]@].shape)
}

/// Name of output `i` of a node called `name` with `count` outputs.
pub open spec fn output_name(name: Seq<char>, count: nat, i: int) -> Seq<char> {
    if count == 1 { name } else { name + "."@ + dec_text(i as nat) }
}

/// Outputs an operation produces when its shapes are accepted.
pub open spec fn op_outputs(op: Op) -> nat {
    match op {
        Op::Split { sections, .. } => sections@.len(),
        _ => 1,
    }
}

/// The element type of a new node's outputs: that of its first input, or
/// `F32` when it has none.
pub open spec fn first_dtype(g: GraphView, ids: Seq<TensorId>) -> DType {
    if ids.len() > 0 && g.tensors.contains_key(ids[0]@) { g.tensors[ids[0]@].dtype } else { DType::F32 }
}

/// Tensor `new` is tensor `old` with `extra` appended to its consumers.
pub open spec fn with_consumers(old: TensorView, extra: Seq<NodeId>) -> TensorView {
    TensorView { consumers: old.consumers + extra, ..old }
}

/// `g2` is `g1` after adding a node `name` running `op` on `inputs` and
/// producing fresh tensors `outs` with shapes `out_shapes`: the node takes
/// the next node id, its outputs the next tensor ids, and every input
/// tensor lists the node as a consumer once per use.
pub open spec fn node_added(
    g1: GraphView,
    g2: GraphView,
    name: Seq<char>,
    op: Op,
    inputs: Seq<TensorId>,
    outs: Seq<TensorId>,
    out_shapes: Seq<Seq<usize>>,
) -> bool {
    let nid = g1.next_node_id;
    let k = out_shapes.len();
    let node = g2.nodes[nid];
    &&& outs.len() == k
    &&& forall|i: int| 0 <= i < k ==> #[trigger] outs[i]@ == g1.next_tensor_id + i
    &&& g2.next_node_id == nid + 1
    &&& g2.next_tensor_id == g1.next_tensor_id + k
    &&& g2.name == g1.name && g2.inputs == g1.inputs && g2.outputs == g1.outputs
    &&& g2.nodes == g1.nodes.insert(nid, node)
    &&& node.id@ == nid && node.name == name && node.op == op && node.inputs == inputs && node.outputs == outs
    &&& g2.tensors.dom() == g1.tensors.dom() + Set::new(|x: u32| g1.next_tensor_id <= x < g1.next_tensor_id + k)
    &&& forall|x: u32| #[trigger] g1.tensors.contains_key(x) ==>
            g2.tensors[x] == with_consumers(g1.tensors[x], Seq::new(count_in(inputs, x), |_j: int| node.id))
    &&& forall|i: int| 0 <= i < k ==> g2.tensors[#[trigger] outs[i]@] == (TensorView {
            id: outs[i],
            shape: out_shapes[i],
            dtype: first_dtype(g1, inputs),
            producer: Some(node.id),
            consumers: Seq::empty(),
            name: output_name(name, k, i),
        })
}

proof fn lemma_first_missing_extends(g: GraphView, ids: Seq<TensorId>, i: int)
    requires
        0 <= i <= ids.len(),
        first_missing(g, ids.subrange(0, i)) is Some,
    ensures
        first_missing(g, ids) == first_missing(g, ids.subrange(0, i)),
    decreases ids.len() - i,
{
    if i < ids.len() {
        assert(ids.subrange(0, i + 1).drop_last() =~= ids.subrange(0, i));
        lemma_first_missing_extends(g, ids, i + 1);
    } else {
        assert(ids.subrange(0, i) =~= ids);
    }
}

pub proof fn lemma_none_missing(g: GraphView, ids: Seq<TensorId>, j: int)
    requires
        first_missing(g, ids) is None,
        0 <= j < ids.len(),
    ensures
        g.tensors.contains_key(ids[j]@),
    decreases ids.len(),
{
    if j < ids.len() - 1 {
        lemma_none_missing(g, ids.drop_last(), j);
    }
}

/// The first id naming no tensor in `a + b` is the first in `a`, or else
/// the first in `b`.
pub proof fn lemma_first_missing_concat(g: GraphView, a: Seq<TensorId>, b: Seq<TensorId>)
    ensures
        first_missing(g, a + b) == match first_missing(g, a) {
            Some(t) => Some(t),
            None => first_missing(g, b),
        },
    decreases b.len(),
{
    if b.len() == 0 {
        assert(a + b =~= a);
    } else {
        assert((a + b).drop_last() =~= a + b.drop_last());
        lemma_first_missing_concat(g, a, b.drop_last());
    }
}

impl Graph {
    /// The shapes of the tensors named by `ids`, in order, or the first id
    /// that names no tensor.
    pub(crate) fn shapes_of_ids<'a>(&'a self, ids: &[TensorId]) -> (r: std::result::Result<Vec<&'a [usize]>, TensorId>)
        ensures
            match r {
                Ok(v) => first_missing(self@, ids@) is None && v@.map_values(|x: &[usize]| x@) == shapes_of(self@, ids@),
                Err(t) => first_missing(self@, ids@) == Some(t),
            },
    {
        let ghost g0 = self@;
        let mut refs: Vec<&'a [usize]> = Vec::new();
        let mut i: usize = 0;
        while i < ids.len()
            invariant
                self@ == g0,
                i <= ids@.len(),
                first_missing(g0, ids@.subrange(0, i as int)) is None,
                refs@.map_values(|x: &[usize]| x@) =~= shapes_of(g0, ids@.subrange(0, i as int)),
            decreases ids@.len() - i,
        {
            let ghost pre = ids@.subrange(0, i as int);
            proof {
                assert(ids@.subrange(0, i + 1).drop_last() =~= pre);
            }
            match self.tensors.get(&ids[i].0) {
                Some(t) => {
                    let ghost before = refs@;
                    let sl = t.shape.as_slice();
                    proof {
                        assert(g0.tensors[ids@[i as int]@] == t@);
                        assert((*t)@.shape == (*t).shape@);
                    }
                    refs.push(sl);
                    proof {
                        assert(refs@ == before.push(sl));
                        assert(refs@.map_values(|x: &[usize]| x@) =~= shapes_of(g0, pre).push(sl@));
                        assert(shapes_of(g0, ids@.subrange(0, i + 1)) =~= shapes_of(g0, pre).push(g0.tensors[ids@[i as int]@].shape));
                    }
                },
                None => {
                    proof {
                        lemma_first_missing_extends(g0, ids@, i + 1);
                    }
                    return Err(ids[i]);
                },
            }
            i = i + 1;
        }
        proof {
            assert(ids@.subrange(0, ids@.len() as int) =~= ids@);
        }
        Ok(refs)
    }
}

/// The nodes with ids below `k` that read tensor `t`, each once per use,
/// by ascending id.
pub open spec fn readers(g: GraphView, t: u32, k: nat) -> Seq<NodeId>
    decreases k,
{
    if k == 0 {
        Seq::empty()
    } else {
        let u = (k - 1) as u32;
        readers(g, t, (k - 1) as nat) + if g.nodes.contains_key(u) {
            Seq::new(count_in(g.nodes[u].inputs, t), |_j: int| g.nodes[u].id)
        } else {
            Seq::empty()
        }
    }
}

/// Node `n` of `g` is as [`Graph::node`] makes one: its inputs exist, its
/// operation accepts their shapes, and each output is a tensor with the
/// inferred shape, the first input's element type, the node as producer,
/// the nodes reading it as consumers, and a name taken from the node's.
/// Every input was produced, if at all, by a node with a smaller id.
pub open spec fn node_built(g: GraphView, n: u32) -> bool {
    let nd = g.nodes[n];
    let sh = infer_rule(nd.op, shapes_of(g, nd.inputs));
    &&& first_missing(g, nd.inputs) is None
    &&& nd.inputs.len() <= usize::MAX
    &&& forall|i: int| 0 <= i < nd.inputs.len() ==>
            (#[trigger] g.tensors[nd.inputs[i]@].producer matches Some(p) ==> p@ < n)
    &&& sh is Ok
    &&& nd.outputs.len() == sh->Ok_0.len()
    &&& nd.outputs.no_duplicates()
    &&& forall|i: int| 0 <= i < nd.outputs.len() ==> g.tensors.contains_key(#[trigger] nd.outputs[i]@)
        && g.tensors[nd.outputs[i]@] == (TensorView {
            id: nd.outputs[i],
            shape: sh->Ok_0[i],
            dtype: first_dtype(g, nd.inputs),
            producer: Some(nd.id),
            consumers: readers(g, nd.outputs[i]@, g.next_node_id as nat),
            name: output_name(nd.name, nd.outputs.len(), i),
        })
}

/// `g` is what [`Graph::new`], [`Graph::input`] and [`Graph::node`] build:
/// tensor ids are handed out densely, every node is built from existing
/// tensors (see [`node_built`]), every tensor lists exactly the nodes that
/// read it as consumers, once per use, and a tensor with a producer is one
/// of that node's outputs.
#[verifier::opaque]
pub open spec fn built_by_nodes(g: GraphView) -> bool {
    &&& forall|x: u32| #[trigger] g.tensors.contains_key(x) <==> x < g.next_tensor_id
    &&& forall|n: u32| #[trigger] g.nodes.contains_key(n) ==> node_built(g, n)
    &&& forall|x: u32| #[trigger] g.tensors.contains_key(x) ==>
            g.tensors[x].consumers == readers(g, x, g.next_node_id as nat)
            && (g.tensors[x].producer matches Some(p) ==> g.nodes.contains_key(p@) && names_tensor(g.nodes[p@].outputs, x))
}

proof fn lemma_readers_same(g1: GraphView, g2: GraphView, t: u32, k: nat)
    requires
        k <= u32::MAX + 1,
        forall|u: u32| (u as nat) < k ==> (#[trigger] g1.nodes.contains_key(u) <==> g2.nodes.contains_key(u)),
        forall|u: u32| (u as nat) < k && #[trigger] g1.nodes.contains_key(u) ==> g1.nodes[u] == g2.nodes[u],
    ensures
        readers(g1, t, k) == readers(g2, t, k),
    decreases k,
{
    if k > 0 {
        lemma_readers_same(g1, g2, t, (k - 1) as nat);
    }
}

proof fn lemma_readers_none(g: GraphView, t: u32, k: nat)
    requires
        k <= u32::MAX + 1,
        forall|u: u32| (u as nat) < k && #[trigger] g.nodes.contains_key(u) ==> count_in(g.nodes[u].inputs, t) == 0,
    ensures
        readers(g, t, k) == Seq::<NodeId>::empty(),
    decreases k,
{
    if k > 0 {
        lemma_readers_none(g, t, (k - 1) as nat);
        let u = (k - 1) as u32;
        if g.nodes.contains_key(u) {
            assert(Seq::new(count_in(g.nodes[u].inputs, t), |_j: int| g.nodes[u].id) =~= Seq::<NodeId>::empty());
        }
        assert(readers(g, t, (k - 1) as nat) + Seq::<NodeId>::empty() =~= Seq::<NodeId>::empty());
    }
}

proof fn lemma_count_in_absent(g: GraphView, ids: Seq<TensorId>, t: u32)
    requires
        first_missing(g, ids) is None,
        !g.tensors.contains_key(t),
    ensures
        count_in(ids, t) == 0,
    decreases ids.len(),
{
    if ids.len() > 0 {
        lemma_count_in_absent(g, ids.drop_last(), t);
    }
}

proof fn lemma_first_missing_grow(g1: GraphView, g2: GraphView, ids: Seq<TensorId>)
    requires
        first_missing(g1, ids) is None,
        forall|x: u32| #[trigger] g1.tensors.contains_key(x) ==> g2.tensors.contains_key(x),
    ensures
        first_missing(g2, ids) is None,
    decreases ids.len(),
{
    if ids.len() > 0 {
        lemma_first_missing_grow(g1, g2, ids.drop_last());
    }
}

proof fn lemma_shapes_same(g1: GraphView, g2: GraphView, ids: Seq<TensorId>)
    requires
        first_missing(g1, ids) is None,
        forall|x: u32| #[trigger] g1.tensors.contains_key(x) ==> g2.tensors.contains_key(x)
            && g2.tensors[x].shape == g1.tensors[x].shape && g2.tensors[x].dtype == g1.tensors[x].dtype,
    ensures
        shapes_of(g1, ids) == shapes_of(g2, ids),
        first_dtype(g1, ids) == first_dtype(g2, ids),
{
    assert forall|i: int| 0 <= i < ids.len() implies g1.tensors.contains_key(#[trigger] ids[i]@) by {
        lemma_none_missing(g1, ids, i);
    }
    assert(shapes_of(g1, ids) =~= shapes_of(g2, ids));
}

/// Adding a node keeps a graph built by nodes.
proof fn lemma_node_added_built(
    g1: GraphView,
    g2: GraphView,
    name: Seq<char>,
    op: Op,
    inputs: Seq<TensorId>,
    outs: Seq<TensorId>,
)
    requires
        g1.wf(),
        built_by_nodes(g1),
        first_missing(g1, inputs) is None,
        inputs.len() <= usize::MAX,
        infer_rule(op, shapes_of(g1, inputs)) is Ok,
        node_added(g1, g2, name, op, inputs, outs, infer_rule(op, shapes_of(g1, inputs))->Ok_0),
    ensures
        built_by_nodes(g2),
{
    reveal(built_by_nodes);
    let nid = g1.next_node_id;
    let nd = g2.nodes[nid];
    let sh = infer_rule(op, shapes_of(g1, inputs))->Ok_0;
    let k = sh.len();
    let n2 = g2.next_node_id as nat;
    assert(!g1.nodes.contains_key(nid));
    assert forall|x: u32| #[trigger] g1.tensors.contains_key(x) implies g2.tensors.contains_key(x)
        && g2.tensors[x].shape == g1.tensors[x].shape && g2.tensors[x].dtype == g1.tensors[x].dtype by {
        assert(g2.tensors.dom().contains(x));
    }
    // Readers below the new node are unchanged.
    assert forall|t: u32| #[trigger] readers(g2, t, nid as nat) == readers(g1, t, nid as nat) by {
        lemma_readers_same(g1, g2, t, nid as nat);
    }
    // Readers including the new node.
    assert forall|t: u32| #[trigger] readers(g2, t, n2) == readers(g1, t, nid as nat)
        + Seq::new(count_in(inputs, t), |_j: int| nd.id) by {
        assert(readers(g2, t, nid as nat) == readers(g1, t, nid as nat));
        assert(((n2 - 1) as nat) == nid as nat);
        assert(((n2 - 1) as u32) == nid);
        assert(g2.nodes.contains_key(nid));
        assert(Seq::new(count_in(g2.nodes[nid].inputs, t), |_j: int| g2.nodes[nid].id)
            =~= Seq::new(count_in(inputs, t), |_j: int| nd.id));
    }
    // A tensor of g1 keeps its readers among the nodes of g1.
    assert forall|t: u32| #[trigger] g1.tensors.contains_key(t) implies
        g1.tensors[t].consumers == readers(g1, t, nid as nat) by {
    }
    // The new outputs have no readers.
    assert forall|i: int| 0 <= i < k implies #[trigger] readers(g2, outs[i]@, n2) == Seq::<NodeId>::empty() by {
        let t = outs[i]@;
        assert(!g1.tensors.contains_key(t));
        assert forall|u: u32| (u as nat) < nid && #[trigger] g1.nodes.contains_key(u) implies
            count_in(g1.nodes[u].inputs, t) == 0 by {
            assert(node_built(g1, u));
            lemma_count_in_absent(g1, g1.nodes[u].inputs, t);
        }
        lemma_readers_none(g1, t, nid as nat);
        lemma_count_in_absent(g1, inputs, t);
        assert(readers(g1, t, nid as nat) + Seq::new(count_in(inputs, t), |_j: int| nd.id) =~= Seq::<NodeId>::empty());
    }
    // Old nodes stay built.
    assert forall|n: u32| #[trigger] g2.nodes.contains_key(n) implies node_built(g2, n) by {
        if n == nid {
            lemma_shapes_same(g1, g2, inputs);
            lemma_first_missing_grow(g1, g2, inputs);
            assert(nd.outputs.no_duplicates()) by {
                assert forall|a: int, b: int| 0 <= a < nd.outputs.len() && 0 <= b < nd.outputs.len() && a != b
                    implies nd.outputs[a] != nd.outputs[b] by {
                    assert(outs[a]@ == g1.next_tensor_id + a);
                    assert(outs[b]@ == g1.next_tensor_id + b);
                }
            }
            assert forall|i: int| 0 <= i < inputs.len() implies
                (#[trigger] g2.tensors[inputs[i]@].producer matches Some(p) ==> p@ < nid) by {
                lemma_none_missing(g1, inputs, i);
                let t = inputs[i]@;
                assert(g2.tensors[t].producer == g1.tensors[t].producer);
                if let Some(p) = g1.tensors[t].producer {
                    assert(g1.nodes.contains_key(p@));
                }
            }
            assert forall|i: int| 0 <= i < nd.outputs.len() implies g2.tensors.contains_key(#[trigger] nd.outputs[i]@)
                && g2.tensors[nd.outputs[i]@] == (TensorView {
                    id: nd.outputs[i],
                    shape: sh[i],
                    dtype: first_dtype(g2, nd.inputs),
                    producer: Some(nd.id),
                    consumers: readers(g2, nd.outputs[i]@, n2),
                    name: output_name(nd.name, nd.outputs.len(), i),
                }) by {
                assert(g2.tensors.dom().contains(outs[i]@));
                assert(readers(g2, outs[i]@, n2) == Seq::<NodeId>::empty());
            }
        } else {
            let ndo = g1.nodes[n];
            assert(g2.nodes[n] == ndo);
            assert(node_built(g1, n));
            lemma_shapes_same(g1, g2, ndo.inputs);
            lemma_first_missing_grow(g1, g2, ndo.inputs);
            let sho = infer_rule(ndo.op, shapes_of(g1, ndo.inputs))->Ok_0;
            assert forall|i: int| 0 <= i < ndo.inputs.len() implies
                (#[trigger] g2.tensors[ndo.inputs[i]@].producer matches Some(p) ==> p@ < n) by {
                lemma_none_missing(g1, ndo.inputs, i);
                assert(g2.tensors[ndo.inputs[i]@].producer == g1.tensors[ndo.inputs[i]@].producer);
            }
            assert forall|i: int| 0 <= i < ndo.outputs.len() implies g2.tensors.contains_key(#[trigger] ndo.outputs[i]@)
                && g2.tensors[ndo.outputs[i]@] == (TensorView {
                    id: ndo.outputs[i],
                    shape: sho[i],
                    dtype: first_dtype(g2, ndo.inputs),
                    producer: Some(ndo.id),
                    consumers: readers(g2, ndo.outputs[i]@, n2),
                    name: output_name(ndo.name, ndo.outputs.len(), i),
                }) by {
                let t = ndo.outputs[i]@;
                assert(g1.tensors.contains_key(t));
                assert(g1.tensors[t].consumers == readers(g1, t, nid as nat));
                assert(readers(g2, t, n2) =~= g1.tensors[t].consumers + Seq::new(count_in(inputs, t), |_j: int| nd.id));
            }
        }
    }
    assert forall|x: u32| #[trigger] g2.tensors.contains_key(x) implies
        g2.tensors[x].consumers == readers(g2, x, n2)
        && (g2.tensors[x].producer matches Some(p) ==> g2.nodes.contains_key(p@) && names_tensor(g2.nodes[p@].outputs, x)) by {
        if g1.tensors.contains_key(x) {
            assert(readers(g2, x, n2) =~= g1.tensors[x].consumers + Seq::new(count_in(inputs, x), |_j: int| nd.id));
            if let Some(p) = g1.tensors[x].producer {
                assert(g1.nodes.contains_key(p@));
                assert(p@ != nid);
                assert(g2.nodes[p@] == g1.nodes[p@]);
            }
        } else {
            assert(g2.tensors.dom().contains(x));
            assert(g1.next_tensor_id <= x < g1.next_tensor_id + k);
            let i = x - g1.next_tensor_id;
            assert(outs[i]@ == x);
            assert(readers(g2, outs[i]@, n2) == Seq::<NodeId>::empty());
            assert(nd.outputs[i]@ == x);
        }
    }
    assert forall|x: u32| #[trigger] g2.tensors.contains_key(x) <==> x < g2.next_tensor_id by {
        assert(g2.tensors.dom().contains(x) <==> (g1.tensors.dom().contains(x) || (g1.next_tensor_id <= x < g1.next_tensor_id + k)));
    }
}

/// Adding an input tensor keeps a graph built by nodes.
pub(crate) proof fn lemma_input_built(g1: GraphView, g2: GraphView, t: TensorView)
    requires
        g1.wf(),
        built_by_nodes(g1),
        g1.next_tensor_id < u32::MAX,
        t.producer is None,
        t.consumers == Seq::<NodeId>::empty(),
        g2 == (GraphView {
            tensors: g1.tensors.insert(g1.next_tensor_id, t),
            next_tensor_id: (g1.next_tensor_id + 1) as u32,
            inputs: g2.inputs,
            ..g1
        }),
    ensures
        built_by_nodes(g2),
{
    reveal(built_by_nodes);
    let x0 = g1.next_tensor_id;
    let n2 = g2.next_node_id as nat;
    assert(!g1.tensors.contains_key(x0));
    assert forall|x: u32| #[trigger] g1.tensors.contains_key(x) implies g2.tensors.contains_key(x)
        && g2.tensors[x].shape == g1.tensors[x].shape && g2.tensors[x].dtype == g1.tensors[x].dtype
        && g2.tensors[x] == g1.tensors[x] by {
    }
    assert forall|tt: u32| #[trigger] readers(g2, tt, n2) == readers(g1, tt, n2) by {
        lemma_readers_same(g1, g2, tt, n2);
    }
    assert forall|n: u32| #[trigger] g2.nodes.contains_key(n) implies node_built(g2, n) by {
        let nd = g1.nodes[n];
        assert(node_built(g1, n));
        lemma_shapes_same(g1, g2, nd.inputs);
        lemma_first_missing_grow(g1, g2, nd.inputs);
        assert forall|i: int| 0 <= i < nd.outputs.len() implies g2.tensors.contains_key(#[trigger] nd.outputs[i]@)
            && g2.tensors[nd.outputs[i]@] == g1.tensors[nd.outputs[i]@] by {
            assert(g1.tensors.contains_key(nd.outputs[i]@));
        }
    }
    assert forall|x: u32| #[trigger] g2.tensors.contains_key(x) implies
        g2.tensors[x].consumers == readers(g2, x, n2)
        && (g2.tensors[x].producer matches Some(p) ==> g2.nodes.contains_key(p@) && names_tensor(g2.nodes[p@].outputs, x)) by {
        if x == x0 {
            assert forall|u: u32| (u as nat) < n2 && #[trigger] g1.nodes.contains_key(u) implies
                count_in(g1.nodes[u].inputs, x0) == 0 by {
                assert(node_built(g1, u));
                lemma_count_in_absent(g1, g1.nodes[u].inputs, x0);
            }
            lemma_readers_none(g1, x0, n2);
        }
    }
}

/// Whether a graph is built by nodes depends on its nodes, tensors and id
/// counters alone.
pub proof fn lemma_built_same_content(g1: GraphView, g2: GraphView)
    requires
        built_by_nodes(g1),
        g2.nodes == g1.nodes,
        g2.tensors == g1.tensors,
        g2.next_node_id == g1.next_node_id,
        g2.next_tensor_id == g1.next_tensor_id,
    ensures
        built_by_nodes(g2),
{
    reveal(built_by_nodes);
    let n2 = g2.next_node_id as nat;
    assert forall|tt: u32| #[trigger] readers(g2, tt, n2) == readers(g1, tt, n2) by {
        lemma_readers_same(g1, g2, tt, n2);
    }
    assert forall|n: u32| #[trigger] g2.nodes.contains_key(n) implies node_built(g2, n) by {
        let nd = g1.nodes[n];
        assert(node_built(g1, n));
        lemma_shapes_same(g1, g2, nd.inputs);
        lemma_first_missing_grow(g1, g2, nd.inputs);
    }
}

/// A graph built by nodes has tensor ids handed out densely.
pub proof fn lemma_built_dense(g: GraphView)
    requires
        built_by_nodes(g),
    ensures
        forall|x: u32| #[trigger] g.tensors.contains_key(x) <==> x < g.next_tensor_id,
{
    reveal(built_by_nodes);
}

/// The empty graph is built by nodes.
pub proof fn lemma_empty_built(g: GraphView)
    requires
        g.nodes == Map::<u32, NodeView>::empty(),
        g.tensors == Map::<u32, TensorView>::empty(),
        g.next_tensor_id == 0,
    ensures
        built_by_nodes(g),
{
    reveal(built_by_nodes);
}

/// Every successful shape rule yields exactly one shape per output of the
/// operation (see [`Op::num_outputs`]), and at least one.
pub proof fn lemma_infer_output_count(op: Op, s: Seq<Seq<usize>>)
    requires
        infer_rule(op, s) is Ok,
    ensures
        infer_rule(op, s)->Ok_0.len() == op_outputs(op),
        op_outputs(op) >= 1,
{
    reveal(infer_rule);
}

/// A copy of a list of tensor ids.
pub fn ids_to_vec(ids: &[TensorId]) -> (r: Vec<TensorId>)
    ensures
        r@ == ids@,
{
    let mut r: Vec<TensorId> = Vec::new();
    let mut i: usize = 0;
    while i < ids.len()
        invariant
            i <= ids@.len(),
            r@ == ids@.subrange(0, i as int),
        decreases ids@.len() - i,
    {
        r.push(ids[i]);
        i = i + 1;
    }
    r
}

impl Graph {
    /// Add a computation node to the graph.
    ///
    /// Performs shape inference from the input tensors and creates output
    /// tensor metadata automatically. Returns the output tensor IDs.
    ///
    /// # Errors
    ///
    /// Returns [`Error::UnknownId`] for the first input tensor that does
    /// not exist, or [`Error::ShapeMismatch`] if shape inference fails; the
    /// graph is then unchanged.
    pub fn node(&mut self, name: &str, op: Op, inputs: &[TensorId]) -> (r: Result<Vec<TensorId>>)
        requires
            old(self).wf(),
            old(self)@.next_node_id < u32::MAX,
            old(self)@.next_tensor_id + op_outputs(op) <= u32::MAX,
            first_missing(old(self)@, inputs@) is None ==> shapes_fit(op, shapes_of(old(self)@, inputs@)),
        ensures
            final(self).wf(),
            match r {
                Err(Error::UnknownId { kind, id }) =>
                    kind@ == "tensor"@ && final(self)@ == old(self)@
                        && (first_missing(old(self)@, inputs@) matches Some(t) && t@ == id),
                Err(Error::ShapeMismatch { op_name, reason }) =>
                    first_missing(old(self)@, inputs@) is None
                        && infer_rule(op, shapes_of(old(self)@, inputs@)) == Err::<Seq<Seq<usize>>, Seq<char>>(reason@)
                        && op_name@ == op.spec_name() && final(self)@ == old(self)@,
                Err(_) => false,
                Ok(outs) => first_missing(old(self)@, inputs@) is None
                    && infer_rule(op, shapes_of(old(self)@, inputs@)) is Ok
                    && node_added(old(self)@, final(self)@, name@, op, inputs@, outs@,
                        infer_rule(op, shapes_of(old(self)@, inputs@))->Ok_0)
                    && (built_by_nodes(old(self)@) ==> built_by_nodes(final(self)@)),
            },
    {
        let ghost g0 = self@;
        // Collect the input shapes, failing on the first unknown tensor.
        let mut shapes: Vec<Vec<usize>> = Vec::new();
        let mut i: usize = 0;
        while i < inputs.len()
            invariant
                self@ == g0,
                g0 == old(self)@,
                g0.wf(),
                i <= inputs@.len(),
                first_missing(g0, inputs@.subrange(0, i as int)) is None,
                vecs_view(shapes) =~= shapes_of(g0, inputs@.subrange(0, i as int)),
            decreases inputs@.len() - i,
        {
            let ghost pre = inputs@.subrange(0, i as int);
            proof {
                assert(inputs@.subrange(0, i + 1).drop_last() =~= pre);
            }
            match self.tensors.get(&inputs[i].0) {
                Some(t) => {
                    let ghost before = shapes@;
                    proof {
                        assert(g0.tensors[inputs@[i as int]@] == t@);
                        assert((*t)@.shape == (*t).shape@);
                    }
                    shapes.push(shape_to_vec(t.shape.as_slice()));
                    proof {
                        assert(shapes@ == before.push(shapes@.last()));
                        assert(shapes@.last()@ == t.shape@);
                        assert(vecs_view(shapes) =~= shapes_of(g0, pre).push(t.shape@));
                        assert(shapes_of(g0, inputs@.subrange(0, i + 1)) =~= shapes_of(g0, pre).push(g0.tensors[inputs@[i as int]@].shape));
                    }
                },
                None => {
                    proof {
                        lemma_first_missing_extends(g0, inputs@, i + 1);
                    }
                    return Err(Error::UnknownId { kind: "tensor", id: inputs[i].0 });
                },
            }
            i = i + 1;
        }
        proof {
            assert(inputs@.subrange(0, inputs@.len() as int) =~= inputs@);
        }
        let mut refs: Vec<&[usize]> = Vec::new();
        let mut j: usize = 0;
        while j < shapes.len()
            invariant
                j <= shapes@.len(),
                refs@.map_values(|x: &[usize]| x@) =~= vecs_view(shapes).subrange(0, j as int),
            decreases shapes@.len() - j,
        {
            let ghost before = refs@;
            let sl = shapes[j].as_slice();
            refs.push(sl);
            proof {
                assert(refs@ == before.push(sl));
                assert(vecs_view(shapes).subrange(0, j + 1) =~= vecs_view(shapes).subrange(0, j as int).push(sl@));
            }
            j = j + 1;
        }
        let rs = refs.as_slice();
        proof {
            assert(shapes_view(rs) =~= shapes_of(g0, inputs@));
        }
        let out_shapes = match op.infer_shapes(rs) {
            Ok(v) => v,
            Err(e) => {
                return Err(e);
            },
        };
        proof {
            lemma_infer_output_count(op, shapes_of(g0, inputs@));
        }
        // Outputs take the element type of the first input.
        let dtype = if inputs.len() > 0 {
            match self.tensors.get(&inputs[0].0) {
                Some(t) => t.dtype,
                None => DType::F32,
            }
        } else {
            DType::F32
        };
        let node_id = self.alloc_node_id();
        let count = out_shapes.len();
        let mut output_ids: Vec<TensorId> = Vec::new();
        let mut k: usize = 0;
        while k < count
            invariant
                self.wf(),
                g0.wf(),
                count == out_shapes@.len(),
                vecs_view(out_shapes) == infer_rule(op, shapes_of(g0, inputs@))->Ok_0,
                k <= count,
                g0.next_tensor_id + count <= u32::MAX,
                dtype == first_dtype(g0, inputs@),
                node_id@ == g0.next_node_id,
                self@.next_node_id == g0.next_node_id + 1,
                self@.next_tensor_id == g0.next_tensor_id + k,
                self@.nodes == g0.nodes,
                self@.name == g0.name && self@.inputs == g0.inputs && self@.outputs == g0.outputs,
                output_ids@.len() == k,
                forall|x: int| 0 <= x < k ==> #[trigger] output_ids@[x]@ == g0.next_tensor_id + x,
                self@.tensors.dom() == g0.tensors.dom() + Set::new(|x: u32| g0.next_tensor_id <= x < g0.next_tensor_id + k),
                forall|x: u32| #[trigger] g0.tensors.contains_key(x) ==> self@.tensors[x] == g0.tensors[x],
                forall|x: int| 0 <= x < k ==> self@.tensors[#[trigger] output_ids@[x]@] == (TensorView {
                    id: output_ids@[x],
                    shape: vecs_view(out_shapes)[x],
                    dtype,
                    producer: Some(node_id),
                    consumers: Seq::empty(),
                    name: output_name(name@, count as nat, x),
                }),
            decreases count - k,
        {
            let tensor_id = self.alloc_tensor_id();
            let tensor_name = if count == 1 {
                owned(name)
            } else {
                let mut s = owned(name);
                s.append(".");
                push_dec(&mut s, k as u64);
                s
            };
            let t = TensorMeta {
                id: tensor_id,
                shape: shape_to_vec(out_shapes[k].as_slice()),
                dtype,
                producer: Some(node_id),
                consumers: Vec::new(),
                name: tensor_name,
            };
            let ghost before = self@.tensors;
            self.tensors.insert(tensor_id.0, t);
            output_ids.push(tensor_id);
            proof {
                assert(self@.tensors =~= before.insert(tensor_id@, t@));
                assert(self@.tensors.dom() =~= g0.tensors.dom() + Set::new(|x: u32| g0.next_tensor_id <= x < g0.next_tensor_id + k + 1));
                assert(!g0.tensors.contains_key(tensor_id@));
            }
            k = k + 1;
        }
        let node = Node { id: node_id, name: owned(name), op, inputs: ids_to_vec(inputs), outputs: ids_to_vec(output_ids.as_slice()) };
        let ghost nv = node@;
        self.nodes.insert(node_id.0, node);
        proof {
            assert(self@.nodes =~= g0.nodes.insert(node_id@, nv));
        }
        let ghost g1 = self@;
        // Register the node as a consumer of each input, once per use.
        let mut m: usize = 0;
        while m < inputs.len()
            invariant
                self.wf(),
                g0.wf(),
                m <= inputs@.len(),
                forall|x: u32| g0.tensors.contains_key(x) ==> #[trigger] self@.tensors.contains_key(x),
                first_missing(g0, inputs@) is None,
                node_id@ == g0.next_node_id,
                g1.nodes.contains_key(node_id@),
                self@ == (GraphView { tensors: self@.tensors, ..g1 }),
                self@.tensors.dom() == g1.tensors.dom(),
                forall|x: u32| #[trigger] g0.tensors.contains_key(x) ==>
                    self@.tensors[x] == with_consumers(g0.tensors[x],
                        Seq::new(count_in(inputs@.subrange(0, m as int), x), |_j: int| node_id)),
                forall|x: u32| g1.tensors.contains_key(x) && !g0.tensors.contains_key(x) ==>
                    #[trigger] self@.tensors[x] == g1.tensors[x],
                forall|x: u32| #[trigger] g0.tensors.contains_key(x) ==> g1.tensors[x] == g0.tensors[x],
            decreases inputs@.len() - m,
        {
            let tid = inputs[m];
            proof {
                lemma_none_missing(g0, inputs@, m as int);
                assert(inputs@.subrange(0, m + 1).drop_last() =~= inputs@.subrange(0, m as int));
            }
            let ghost before = self@.tensors;
            assert(self@.tensors.contains_key(tid@));
            if let Some(mut t) = self.tensors.remove(&tid.0) {
                let ghost t0 = t@;
                assert(t0 == before[tid@]);
                t.consumers.push(node_id);
                self.tensors.insert(tid.0, t);
                proof {
                    assert(t0.consumers + seq![node_id] =~= t0.consumers.push(node_id));
                    assert(t@ == with_consumers(t0, seq![node_id]));
                    assert(self@.tensors =~= before.insert(tid@, t@));
                    assert forall|x: u32| #[trigger] g0.tensors.contains_key(x) implies
                        self@.tensors[x] == with_consumers(g0.tensors[x],
                            Seq::new(count_in(inputs@.subrange(0, m + 1), x), |_j: int| node_id)) by {
                        if x == tid@ {
                            assert(Seq::new(count_in(inputs@.subrange(0, m as int), x), |_j: int| node_id).push(node_id)
                                =~= Seq::new(count_in(inputs@.subrange(0, m + 1), x), |_j: int| node_id));
                        } else {
                            assert(Seq::new(count_in(inputs@.subrange(0, m as int), x), |_j: int| node_id)
                                =~= Seq::new(count_in(inputs@.subrange(0, m + 1), x), |_j: int| node_id));
                        }
                    }
                }
            } else {
                proof {
                    assert(false);
                }
            }
            m = m + 1;
        }
        proof {
            assert(inputs@.subrange(0, inputs@.len() as int) =~= inputs@);
            assert(self@.nodes[g0.next_node_id].id == node_id);
            if built_by_nodes(g0) {
                assert(inputs@.len() <= usize::MAX);
                lemma_node_added_built(g0, self@, name@, op, inputs@, output_ids@);
            }
        }
        Ok(output_ids)
    }
}

/// Some id in `ids` is tensor `x`.
pub open spec fn names_tensor(ids: Seq<TensorId>, x: u32) -> bool {
    exists|i: int| 0 <= i < ids.len() && #[trigger] ids[i]@ == x
}

/// `cons` without the entries for node `k`, order kept.
pub open spec fn without_node(cons: Seq<NodeId>, k: u32) -> Seq<NodeId>
    decreases cons.len(),
{
    if cons.len() == 0 {
        Seq::empty()
    } else if cons.last()@ == k {
        without_node(cons.drop_last(), k)
    } else {
        without_node(cons.drop_last(), k).push(cons.last())
    }
}

/// `ids` without the tensors named in `gone`, order kept.
pub open spec fn without_tensors(ids: Seq<TensorId>, gone: Seq<TensorId>) -> Seq<TensorId>
    decreases ids.len(),
{
    if ids.len() == 0 {
        Seq::empty()
    } else if names_tensor(gone, ids.last()@) {
        without_tensors(ids.drop_last(), gone)
    } else {
        without_tensors(ids.drop_last(), gone).push(ids.last())
    }
}

/// `g2` is `g1` after removing node `k`: the node and its output tensors
/// are gone (also from the graph outputs), and its input tensors no
/// longer list it as a consumer.
pub open spec fn node_removed(g1: GraphView, g2: GraphView, k: u32) -> bool {
    let n = g1.nodes[k];
    &&& g2.nodes == g1.nodes.remove(k)
    &&& g2.tensors.dom() == g1.tensors.dom().filter(|x: u32| !names_tensor(n.outputs, x))
    &&& forall|x: u32| #[trigger] g2.tensors.contains_key(x) ==> g2.tensors[x] == if names_tensor(n.inputs, x) {
            TensorView { consumers: without_node(g1.tensors[x].consumers, k), ..g1.tensors[x] }
        } else {
            g1.tensors[x]
        }
    &&& g2.outputs == without_tensors(g1.outputs, n.outputs)
    &&& g2.next_node_id == g1.next_node_id && g2.next_tensor_id == g1.next_tensor_id
    &&& g2.name == g1.name && g2.inputs == g1.inputs
}

proof fn lemma_without_node_idempotent(cons: Seq<NodeId>, k: u32)
    ensures
        without_node(without_node(cons, k), k) == without_node(cons, k),
    decreases cons.len(),
{
    if cons.len() > 0 {
        lemma_without_node_idempotent(cons.drop_last(), k);
        if cons.last()@ != k {
            let w = without_node(cons.drop_last(), k).push(cons.last());
            assert(w.drop_last() =~= without_node(cons.drop_last(), k));
        }
    }
}

fn drop_consumer(cons: &Vec<NodeId>, id: NodeId) -> (r: Vec<NodeId>)
    ensures
        r@ == without_node(cons@, id@),
{
    let mut r: Vec<NodeId> = Vec::new();
    let mut i: usize = 0;
    while i < cons.len()
        invariant
            i <= cons@.len(),
            r@ == without_node(cons@.subrange(0, i as int), id@),
        decreases cons@.len() - i,
    {
        proof {
            assert(cons@.subrange(0, i + 1).drop_last() =~= cons@.subrange(0, i as int));
        }
        if cons[i] != id {
            r.push(cons[i]);
        }
        i = i + 1;
    }
    proof {
        assert(cons@.subrange(0, cons@.len() as int) =~= cons@);
    }
    r
}

fn contains_tensor(ids: &[TensorId], t: TensorId) -> (r: bool)
    ensures
        r == names_tensor(ids@, t@),
{
    let mut i: usize = 0;
    while i < ids.len()
        invariant
            i <= ids@.len(),
            forall|j: int| 0 <= j < i ==> ids@[j]@ != t@,
        decreases ids@.len() - i,
    {
        if ids[i] == t {
            return true;
        }
        i = i + 1;
    }
    false
}

fn contains_node(ids: &[NodeId], n: NodeId) -> (r: bool)
    ensures
        r == ids@.contains(n),
{
    let mut i: usize = 0;
    while i < ids.len()
        invariant
            i <= ids@.len(),
            forall|j: int| 0 <= j < i ==> ids@[j] != n,
        decreases ids@.len() - i,
    {
        if ids[i] == n {
            return true;
        }
        i = i + 1;
    }
    false
}

impl Graph {
    /// Remove a node from the graph.
    ///
    /// This removes the node and its output tensors from the graph (and
    /// from the graph outputs), and removes the node from the consumer
    /// lists of its input tensors. Removing an unknown node does nothing.
    ///
    /// Note: this does NOT check whether the node's outputs are still
    /// consumed by other nodes; the caller must keep the graph meaningful.
    pub fn remove_node(&mut self, node_id: NodeId)
        requires
            old(self).wf(),
        ensures
            final(self).wf(),
            if old(self)@.nodes.contains_key(node_id@) {
                node_removed(old(self)@, final(self)@, node_id@)
            } else {
                final(self)@ == old(self)@
            },
    {
        let ghost g0 = self@;
        let node = match self.nodes.remove(&node_id.0) {
            Some(n) => n,
            None => {
                proof {
                    assert(self.nodes@ =~= old(self).nodes@);
                    assert(self@.nodes =~= g0.nodes);
                }
                return;
            },
        };
        let ghost nv = node@;
        assert(nv == g0.nodes[node_id@]);
        let ghost g1 = self@;
        assert(g1.nodes =~= g0.nodes.remove(node_id@));
        let mut i: usize = 0;
        while i < node.inputs.len()
            invariant
                self.wf(),
                g0.wf(),
                nv == node@,
                i <= nv.inputs.len(),
                self@ == (GraphView { tensors: self@.tensors, ..g1 }),
                self@.tensors.dom() == g0.tensors.dom(),
                g1.tensors == g0.tensors,
                forall|x: u32| #[trigger] self@.tensors.contains_key(x) ==> self@.tensors[x] ==
                    if names_tensor(nv.inputs.subrange(0, i as int), x) {
                        TensorView { consumers: without_node(g0.tensors[x].consumers, node_id@), ..g0.tensors[x] }
                    } else {
                        g0.tensors[x]
                    },
            decreases nv.inputs.len() - i,
        {
            let tid = node.inputs[i];
            let ghost before = self@.tensors;
            if let Some(mut t) = self.tensors.remove(&tid.0) {
                let ghost t0 = t@;
                let kept = drop_consumer(&t.consumers, node_id);
                t.consumers = kept;
                self.tensors.insert(tid.0, t);
                proof {
                    assert(self@.tensors =~= before.insert(tid@, t@));
                    lemma_without_node_idempotent(g0.tensors[tid@].consumers, node_id@);
                    assert forall|x: u32| #[trigger] self@.tensors.contains_key(x) implies self@.tensors[x] ==
                        if names_tensor(nv.inputs.subrange(0, i + 1), x) {
                            TensorView { consumers: without_node(g0.tensors[x].consumers, node_id@), ..g0.tensors[x] }
                        } else {
                            g0.tensors[x]
                        } by {
                        if x == tid@ {
                            assert(nv.inputs.subrange(0, i + 1)[i as int]@ == x);
                        } else {
                            if names_tensor(nv.inputs.subrange(0, i + 1), x) {
                                let w = choose|w: int| 0 <= w < i + 1 && #[trigger] nv.inputs.subrange(0, i + 1)[w]@ == x;
                                assert(nv.inputs.subrange(0, i as int)[w]@ == x);
                            }
                            if names_tensor(nv.inputs.subrange(0, i as int), x) {
                                let w = choose|w: int| 0 <= w < i && #[trigger] nv.inputs.subrange(0, i as int)[w]@ == x;
                                assert(nv.inputs.subrange(0, i + 1)[w]@ == x);
                            }
                        }
                    }
                }
            } else {
                proof {
                    assert(self@.tensors =~= before);
                    assert forall|x: u32| #[trigger] self@.tensors.contains_key(x) implies self@.tensors[x] ==
                        if names_tensor(nv.inputs.subrange(0, i + 1), x) {
                            TensorView { consumers: without_node(g0.tensors[x].consumers, node_id@), ..g0.tensors[x] }
                        } else {
                            g0.tensors[x]
                        } by {
                        assert(x != tid@);
                        if names_tensor(nv.inputs.subrange(0, i + 1), x) {
                            let w = choose|w: int| 0 <= w < i + 1 && #[trigger] nv.inputs.subrange(0, i + 1)[w]@ == x;
                            assert(nv.inputs.subrange(0, i as int)[w]@ == x);
                        }
                        if names_tensor(nv.inputs.subrange(0, i as int), x) {
                            let w = choose|w: int| 0 <= w < i && #[trigger] nv.inputs.subrange(0, i as int)[w]@ == x;
                            assert(nv.inputs.subrange(0, i + 1)[w]@ == x);
                        }
                    }
                    assert(self@.tensors =~= before);
                }
            }
            i = i + 1;
        }
        proof {
            assert(nv.inputs.subrange(0, nv.inputs.len() as int) =~= nv.inputs);
        }
        let ghost g2 = self@;
        let mut j: usize = 0;
        while j < node.outputs.len()
            invariant
                self.wf(),
                nv == node@,
                j <= nv.outputs.len(),
                self@ == (GraphView { tensors: self@.tensors, ..g2 }),
                self@.tensors.dom() == g2.tensors.dom().filter(|x: u32| !names_tensor(nv.outputs.subrange(0, j as int), x)),
                forall|x: u32| #[trigger] self@.tensors.contains_key(x) ==> self@.tensors[x] == g2.tensors[x],
            decreases nv.outputs.len() - j,
        {
            let tid = node.outputs[j];
            let ghost before = self@.tensors;
            let _ = self.tensors.remove(&tid.0);
            proof {
                assert(self@.tensors =~= before.remove(tid@));
                assert(self@.tensors.dom() =~= g2.tensors.dom().filter(|x: u32| !names_tensor(nv.outputs.subrange(0, j + 1), x))) by {
                    assert forall|x: u32| names_tensor(nv.outputs.subrange(0, j + 1), x)
                        == (names_tensor(nv.outputs.subrange(0, j as int), x) || x == tid@) by {
                        if names_tensor(nv.outputs.subrange(0, j + 1), x) {
                            let w = choose|w: int| 0 <= w < j + 1 && #[trigger] nv.outputs.subrange(0, j + 1)[w]@ == x;
                            if w < j {
                                assert(nv.outputs.subrange(0, j as int)[w]@ == x);
                            }
                        }
                        if names_tensor(nv.outputs.subrange(0, j as int), x) {
                            let w = choose|w: int| 0 <= w < j && #[trigger] nv.outputs.subrange(0, j as int)[w]@ == x;
                            assert(nv.outputs.subrange(0, j + 1)[w]@ == x);
                        }
                        if x == tid@ {
                            assert(nv.outputs.subrange(0, j + 1)[j as int]@ == x);
                        }
                    }
                }
            }
            j = j + 1;
        }
        proof {
            assert(nv.outputs.subrange(0, nv.outputs.len() as int) =~= nv.outputs);
        }
        // Drop the removed outputs from the graph outputs.
        let mut kept: Vec<TensorId> = Vec::new();
        let mut m: usize = 0;
        while m < self.outputs.len()
            invariant
                m <= self.outputs@.len(),
                self.outputs@ == g0.outputs,
                nv == node@,
                kept@ == without_tensors(g0.outputs.subrange(0, m as int), nv.outputs),
            decreases self.outputs@.len() - m,
        {
            proof {
                assert(g0.outputs.subrange(0, m + 1).drop_last() =~= g0.outputs.subrange(0, m as int));
            }
            let o = self.outputs[m];
            if !contains_tensor(node.outputs.as_slice(), o) {
                kept.push(o);
            }
            m = m + 1;
        }
        proof {
            assert(g0.outputs.subrange(0, g0.outputs.len() as int) =~= g0.outputs);
        }
        self.outputs = kept;
    }
}

/// Insert the tensors of a fused node's output mapping, entry by entry:
/// each new tensor copies the shape, dtype and consumers of the old one
/// and is produced by `nid`. On the first entry whose old tensor does not
/// exist (at that point), the old id and the tensors built so far.
pub open spec fn fused_outputs(
    t: Map<u32, TensorView>,
    mapping: Seq<(TensorId, TensorId)>,
    nid: NodeId,
    name: Seq<char>,
) -> std::result::Result<Map<u32, TensorView>, (u32, Map<u32, TensorView>)>
    decreases mapping.len(),
{
    if mapping.len() == 0 {
        Ok(t)
    } else {
        match fused_outputs(t, mapping.drop_last(), nid, name) {
            Err(e) => Err(e),
            Ok(m) => {
                let (o, n) = mapping.last();
                if m.contains_key(o@) {
                    Ok(m.insert(n@, TensorView {
                        id: n,
                        shape: m[o@].shape,
                        dtype: m[o@].dtype,
                        producer: Some(nid),
                        consumers: m[o@].consumers,
                        name: name + ".out"@,
                    }))
                } else {
                    Err((o@, m))
                }
            },
        }
    }
}

/// `ids` with every occurrence of `o` replaced by `n`.
pub open spec fn rewired(ids: Seq<TensorId>, o: TensorId, n: TensorId) -> Seq<TensorId> {
    ids.map_values(|t: TensorId| if t == o { n } else { t })
}

/// Some entry of `cons` is node `k`.
pub open spec fn names_node(cons: Seq<NodeId>, k: u32) -> bool {
    exists|i: int| 0 <= i < cons.len() && #[trigger] cons[i]@ == k
}

/// The nodes after rewiring the consumers of the first `j` mapping
/// entries: every node listed as a consumer of an old tensor reads the
/// new tensor instead.
pub open spec fn rewire_nodes(
    nodes: Map<u32, NodeView>,
    tensors: Map<u32, TensorView>,
    mapping: Seq<(TensorId, TensorId)>,
    j: nat,
) -> Map<u32, NodeView>
    decreases j,
{
    if j == 0 || j > mapping.len() {
        nodes
    } else {
        let prev = rewire_nodes(nodes, tensors, mapping, (j - 1) as nat);
        let (o, n) = mapping[j - 1];
        if tensors.contains_key(o@) {
            Map::new(
                |k: u32| prev.contains_key(k),
                |k: u32| if names_node(tensors[o@].consumers, k) {
                    NodeView { inputs: rewired(prev[k].inputs, o, n), ..prev[k] }
                } else {
                    prev[k]
                },
            )
        } else {
            prev
        }
    }
}

/// A graph output after applying the first `j` mapping entries in order.
pub open spec fn rewire_output(x: TensorId, mapping: Seq<(TensorId, TensorId)>, j: nat) -> TensorId
    decreases j,
{
    if j == 0 || j > mapping.len() {
        x
    } else {
        let prev = rewire_output(x, mapping, (j - 1) as nat);
        if prev == mapping[j - 1].0 { mapping[j - 1].1 } else { prev }
    }
}

proof fn lemma_rewired_idempotent(ids: Seq<TensorId>, o: TensorId, n: TensorId)
    ensures
        rewired(rewired(ids, o, n), o, n) == rewired(ids, o, n),
{
    assert(rewired(rewired(ids, o, n), o, n) =~= rewired(ids, o, n));
}

fn node_ids_to_vec(ids: &[NodeId]) -> (r: Vec<NodeId>)
    ensures
        r@ == ids@,
{
    let mut r: Vec<NodeId> = Vec::new();
    let mut i: usize = 0;
    while i < ids.len()
        invariant
            i <= ids@.len(),
            r@ == ids@.subrange(0, i as int),
        decreases ids@.len() - i,
    {
        r.push(ids[i]);
        i = i + 1;
    }
    r
}

impl Graph {
    /// Add a fused node that replaces a sequence of existing nodes.
    ///
    /// Low-level builder used by fusion passes. The `inputs` are the
    /// tensors flowing into the fused subgraph; `output_mapping` maps an
    /// old tensor (produced by a node being fused) to the new tensor the
    /// fused node produces. The new tensors copy the old ones' metadata,
    /// nodes that consumed an old tensor are rewired to the new one, and
    /// graph outputs are renamed likewise. Old nodes are NOT removed.
    ///
    /// # Errors
    ///
    /// Returns [`Error::InvalidGraph`], with the graph unchanged, when a
    /// new tensor id in the mapping was never handed out by the graph, and
    /// [`Error::UnknownId`] for the first mapping entry whose old tensor
    /// does not exist.
    pub fn add_fused_node(
        &mut self,
        name: &str,
        op: Op,
        inputs: &[TensorId],
        output_mapping: &[(TensorId, TensorId)],
    ) -> (r: Result<NodeId>)
        requires
            old(self).wf(),
            old(self)@.next_node_id < u32::MAX,
        ensures
            final(self).wf(),
            (r matches Err(Error::InvalidGraph { .. })) <==> exists|j: int| 0 <= j < output_mapping@.len()
                && #[trigger] output_mapping@[j].1@ >= old(self)@.next_tensor_id,
            (r matches Err(Error::InvalidGraph { reason }) ==> reason@ == "fused output tensor id was never allocated"@
                && final(self)@ == old(self)@),
            !(r matches Err(Error::InvalidGraph { .. })) ==> final(self)@.next_node_id == old(self)@.next_node_id + 1
                && final(self)@.next_tensor_id == old(self)@.next_tensor_id
                && final(self)@.name == old(self)@.name
                && final(self)@.inputs == old(self)@.inputs,
            match r {
                Ok(nid) => {
                    let g1 = old(self)@;
                    let g2 = final(self)@;
                    let t1 = fused_outputs(g1.tensors, output_mapping@, nid, name@)->Ok_0;
                    &&& nid@ == g1.next_node_id
                    &&& fused_outputs(g1.tensors, output_mapping@, nid, name@) is Ok
                    &&& g2.tensors.dom() == t1.dom()
                    &&& forall|x: u32| #[trigger] t1.contains_key(x) ==>
                            g2.tensors[x] == with_consumers(t1[x], Seq::new(count_in(inputs@, x), |_j: int| nid))
                    &&& g2.nodes == rewire_nodes(
                            g1.nodes.insert(nid@, NodeView {
                                id: nid,
                                name: name@,
                                op,
                                inputs: inputs@,
                                outputs: output_mapping@.map_values(|p: (TensorId, TensorId)| p.1),
                            }),
                            g2.tensors,
                            output_mapping@,
                            output_mapping@.len(),
                        )
                    &&& g2.outputs == g1.outputs.map_values(|x: TensorId| rewire_output(x, output_mapping@, output_mapping@.len()))
                },
                Err(Error::UnknownId { kind, id }) => {
                    &&& kind@ == "tensor"@
                    &&& exists|nid: NodeId| nid@ == old(self)@.next_node_id
                        && #[trigger] fused_outputs(old(self)@.tensors, output_mapping@, nid, name@) == Err::<Map<u32, TensorView>, (u32, Map<u32, TensorView>)>((id, final(self)@.tensors))
                    &&& final(self)@.nodes == old(self)@.nodes
                    &&& final(self)@.outputs == old(self)@.outputs
                },
                Err(Error::InvalidGraph { .. }) => true,
                Err(_) => false,
            },
    {
        let ghost g0 = self@;
        let mut c: usize = 0;
        while c < output_mapping.len()
            invariant
                c <= output_mapping@.len(),
                forall|j: int| 0 <= j < c ==> #[trigger] output_mapping@[j].1@ < g0.next_tensor_id,
                self@ == g0,
                g0 == old(self)@,
                self.wf(),
            decreases output_mapping@.len() - c,
        {
            if output_mapping[c].1.0 >= self.next_tensor_id {
                proof {
                    assert(output_mapping@[c as int].1@ >= old(self)@.next_tensor_id);
                }
                return Err(Error::InvalidGraph { reason: owned("fused output tensor id was never allocated") });
            }
            c = c + 1;
        }
        let node_id = self.alloc_node_id();
        let mut output_ids: Vec<TensorId> = Vec::new();
        let mut i: usize = 0;
        while i < output_mapping.len()
            invariant
                self.wf(),
                g0.wf(),
                g0 == old(self)@,
                g0.next_node_id < u32::MAX,
                node_id@ == g0.next_node_id,
                i <= output_mapping@.len(),
                forall|j: int| 0 <= j < output_mapping@.len() ==> #[trigger] output_mapping@[j].1@ < g0.next_tensor_id,
                self@ == (GraphView { tensors: self@.tensors, next_node_id: (g0.next_node_id + 1) as u32, ..g0 }),
                fused_outputs(g0.tensors, output_mapping@.subrange(0, i as int), node_id, name@) == Ok::<Map<u32, TensorView>, (u32, Map<u32, TensorView>)>(self@.tensors),
                output_ids@ == output_mapping@.subrange(0, i as int).map_values(|p: (TensorId, TensorId)| p.1),
            decreases output_mapping@.len() - i,
        {
            let (old_id, new_id) = output_mapping[i];
            proof {
                assert(output_mapping@.subrange(0, i + 1).drop_last() =~= output_mapping@.subrange(0, i as int));
            }
            output_ids.push(new_id);
            let ghost before = self@.tensors;
            let new_tensor = match self.tensors.get(&old_id.0) {
                Some(old_tensor) => TensorMeta {
                    id: new_id,
                    shape: shape_to_vec(old_tensor.shape.as_slice()),
                    dtype: old_tensor.dtype,
                    producer: Some(node_id),
                    consumers: node_ids_to_vec(old_tensor.consumers.as_slice()),
                    name: {
                        let mut s = owned(name);
                        s.append(".out");
                        s
                    },
                },
                None => {
                    proof {
                        lemma_fused_outputs_extends(g0.tensors, output_mapping@, node_id, name@, i + 1);
                    }
                    return Err(Error::UnknownId { kind: "tensor", id: old_id.0 });
                },
            };
            self.tensors.insert(new_id.0, new_tensor);
            proof {
                assert(self@.tensors =~= before.insert(new_id@, new_tensor@));
                assert(output_ids@ =~= output_mapping@.subrange(0, i + 1).map_values(|p: (TensorId, TensorId)| p.1));
            }
            i = i + 1;
        }
        proof {
            assert(output_mapping@.subrange(0, output_mapping@.len() as int) =~= output_mapping@);
        }
        let ghost t1 = self@.tensors;
        let node = Node { id: node_id, name: owned(name), op, inputs: ids_to_vec(inputs), outputs: output_ids };
        let ghost nv = node@;
        self.nodes.insert(node_id.0, node);
        proof {
            assert(self@.nodes =~= g0.nodes.insert(node_id@, nv));
        }
        // Register the fused node as a consumer of each input, once per use.
        let mut m: usize = 0;
        while m < inputs.len()
            invariant
                self.wf(),
                m <= inputs@.len(),
                self@.tensors.dom() == t1.dom(),
                self@.nodes == g0.nodes.insert(node_id@, nv),
                self@.next_node_id == g0.next_node_id + 1,
                self@.next_tensor_id == g0.next_tensor_id,
                self@.name == g0.name && self@.inputs == g0.inputs && self@.outputs == g0.outputs,
                forall|x: u32| #[trigger] t1.contains_key(x) ==>
                    self@.tensors[x] == with_consumers(t1[x], Seq::new(count_in(inputs@.subrange(0, m as int), x), |_j: int| node_id)),
            decreases inputs@.len() - m,
        {
            let tid = inputs[m];
            proof {
                assert(inputs@.subrange(0, m + 1).drop_last() =~= inputs@.subrange(0, m as int));
            }
            let ghost before = self@.tensors;
            if let Some(mut t) = self.tensors.remove(&tid.0) {
                let ghost t0 = t@;
                t.consumers.push(node_id);
                self.tensors.insert(tid.0, t);
                proof {
                    assert(t0.consumers + seq![node_id] =~= t0.consumers.push(node_id));
                    assert(self@.tensors =~= before.insert(tid@, t@));
                    assert forall|x: u32| #[trigger] t1.contains_key(x) implies
                        self@.tensors[x] == with_consumers(t1[x], Seq::new(count_in(inputs@.subrange(0, m + 1), x), |_j: int| node_id)) by {
                        if x == tid@ {
                            assert(Seq::new(count_in(inputs@.subrange(0, m as int), x), |_j: int| node_id).push(node_id)
                                =~= Seq::new(count_in(inputs@.subrange(0, m + 1), x), |_j: int| node_id));
                        } else {
                            assert(Seq::new(count_in(inputs@.subrange(0, m as int), x), |_j: int| node_id)
                                =~= Seq::new(count_in(inputs@.subrange(0, m + 1), x), |_j: int| node_id));
                        }
                    }
                }
            } else {
                proof {
                    assert(self@.tensors =~= before);
                    assert forall|x: u32| #[trigger] t1.contains_key(x) implies
                        self@.tensors[x] == with_consumers(t1[x], Seq::new(count_in(inputs@.subrange(0, m + 1), x), |_j: int| node_id)) by {
                        assert(x != tid@);
                        assert(Seq::new(count_in(inputs@.subrange(0, m as int), x), |_j: int| node_id)
                            =~= Seq::new(count_in(inputs@.subrange(0, m + 1), x), |_j: int| node_id));
                    }
                }
            }
            m = m + 1;
        }
        proof {
            assert(inputs@.subrange(0, inputs@.len() as int) =~= inputs@);
        }
        let ghost t2 = self@.tensors;
        let ghost n1 = self@.nodes;
        // Rewire every consumer of an old tensor to the new tensor.
        let mut j: usize = 0;
        while j < output_mapping.len()
            invariant
                self.wf(),
                j <= output_mapping@.len(),
                self@ == (GraphView { nodes: self@.nodes, ..self@ }),
                self@.tensors == t2,
                self@.next_node_id == g0.next_node_id + 1,
                self@.next_tensor_id == g0.next_tensor_id,
                self@.name == g0.name && self@.inputs == g0.inputs && self@.outputs == g0.outputs,
                self@.nodes == rewire_nodes(n1, t2, output_mapping@, j as nat),
            decreases output_mapping@.len() - j,
        {
            let (old_id, new_id) = output_mapping[j];
            let consumers: Vec<NodeId> = match self.tensors.get(&old_id.0) {
                Some(t) => node_ids_to_vec(t.consumers.as_slice()),
                None => Vec::new(),
            };
            let ghost prev = self@.nodes;
            let mut c: usize = 0;
            while c < consumers.len()
                invariant
                    self.wf(),
                    c <= consumers@.len(),
                    self@.tensors == t2,
                    self@.next_node_id == g0.next_node_id + 1,
                    self@.next_tensor_id == g0.next_tensor_id,
                    self@.name == g0.name && self@.inputs == g0.inputs && self@.outputs == g0.outputs,
                    self@.nodes.dom() == prev.dom(),
                    forall|k: u32| #[trigger] prev.contains_key(k) ==> self@.nodes[k] ==
                        if names_node(consumers@.subrange(0, c as int), k) {
                            NodeView { inputs: rewired(prev[k].inputs, old_id, new_id), ..prev[k] }
                        } else {
                            prev[k]
                        },
                decreases consumers@.len() - c,
            {
                let cid = consumers[c];
                let ghost before = self@.nodes;
                if let Some(mut n) = self.nodes.remove(&cid.0) {
                    let ghost n0 = n@;
                    let mut q: usize = 0;
                    while q < n.inputs.len()
                        invariant
                            q <= n.inputs@.len(),
                            n.inputs@.len() == n0.inputs.len(),
                            n.id == n0.id && n.name@ == n0.name && n.op == n0.op && n.outputs@ == n0.outputs,
                            forall|x: int| 0 <= x < n0.inputs.len() ==> #[trigger] n.inputs@[x] ==
                                if x < q { if n0.inputs[x] == old_id { new_id } else { n0.inputs[x] } } else { n0.inputs[x] },
                        decreases n.inputs@.len() - q,
                    {
                        if n.inputs[q] == old_id {
                            n.inputs.set(q, new_id);
                        }
                        q = q + 1;
                    }
                    proof {
                        assert(n.inputs@ =~= rewired(n0.inputs, old_id, new_id));
                        lemma_rewired_idempotent(prev[cid@].inputs, old_id, new_id);
                    }
                    self.nodes.insert(cid.0, n);
                    proof {
                        assert(self@.nodes =~= before.insert(cid@, n@));
                        assert forall|k: u32| #[trigger] prev.contains_key(k) implies self@.nodes[k] ==
                            if names_node(consumers@.subrange(0, c + 1), k) {
                                NodeView { inputs: rewired(prev[k].inputs, old_id, new_id), ..prev[k] }
                            } else {
                                prev[k]
                            } by {
                            if k == cid@ {
                                assert(consumers@.subrange(0, c + 1)[c as int]@ == k);
                            } else {
                                if names_node(consumers@.subrange(0, c + 1), k) {
                                    let w = choose|w: int| 0 <= w < c + 1 && #[trigger] consumers@.subrange(0, c + 1)[w]@ == k;
                                    assert(consumers@.subrange(0, c as int)[w]@ == k);
                                }
                                if names_node(consumers@.subrange(0, c as int), k) {
                                    let w = choose|w: int| 0 <= w < c && #[trigger] consumers@.subrange(0, c as int)[w]@ == k;
                                    assert(consumers@.subrange(0, c + 1)[w]@ == k);
                                }
                            }
                        }
                    }
                } else {
                    proof {
                        assert(self@.nodes =~= before);
                        assert forall|k: u32| #[trigger] prev.contains_key(k) implies self@.nodes[k] ==
                            if names_node(consumers@.subrange(0, c + 1), k) {
                                NodeView { inputs: rewired(prev[k].inputs, old_id, new_id), ..prev[k] }
                            } else {
                                prev[k]
                            } by {
                            assert(k != cid@);
                            if names_node(consumers@.subrange(0, c + 1), k) {
                                let w = choose|w: int| 0 <= w < c + 1 && #[trigger] consumers@.subrange(0, c + 1)[w]@ == k;
                                assert(consumers@.subrange(0, c as int)[w]@ == k);
                            }
                            if names_node(consumers@.subrange(0, c as int), k) {
                                let w = choose|w: int| 0 <= w < c && #[trigger] consumers@.subrange(0, c as int)[w]@ == k;
                                assert(consumers@.subrange(0, c + 1)[w]@ == k);
                            }
                        }
                    }
                }
                c = c + 1;
            }
            proof {
                assert(consumers@.subrange(0, consumers@.len() as int) =~= consumers@);
                if t2.contains_key(old_id@) {
                    assert(consumers@ == t2[old_id@].consumers);
                    assert(self@.nodes =~= rewire_nodes(n1, t2, output_mapping@, (j + 1) as nat));
                } else {
                    assert forall|k: u32| #[trigger] prev.contains_key(k) implies !names_node(consumers@, k) by {}
                    assert(self@.nodes =~= rewire_nodes(n1, t2, output_mapping@, (j + 1) as nat));
                }
            }
            j = j + 1;
        }
        // Rename graph outputs that referred to an old tensor.
        let mut o: usize = 0;
        while o < self.outputs.len()
            invariant
                self.wf(),
                o <= self.outputs@.len(),
                self.outputs@.len() == g0.outputs.len(),
                self@ == (GraphView { outputs: self@.outputs, ..self@ }),
                self@.tensors == t2,
                self@.next_node_id == g0.next_node_id + 1,
                self@.next_tensor_id == g0.next_tensor_id,
                self@.name == g0.name && self@.inputs == g0.inputs,
                self@.nodes == rewire_nodes(n1, t2, output_mapping@, output_mapping@.len()),
                forall|x: int| 0 <= x < g0.outputs.len() ==> #[trigger] self.outputs@[x] ==
                    if x < o { rewire_output(g0.outputs[x], output_mapping@, output_mapping@.len()) } else { g0.outputs[x] },
            decreases self.outputs@.len() - o,
        {
            let mut cur = self.outputs[o];
            let mut e: usize = 0;
            while e < output_mapping.len()
                invariant
                    e <= output_mapping@.len(),
                    o < g0.outputs.len(),
                    cur == rewire_output(g0.outputs[o as int], output_mapping@, e as nat),
                decreases output_mapping@.len() - e,
            {
                if cur == output_mapping[e].0 {
                    cur = output_mapping[e].1;
                }
                e = e + 1;
            }
            self.outputs.set(o, cur);
            o = o + 1;
        }
        proof {
            assert(self@.outputs =~= g0.outputs.map_values(|x: TensorId| rewire_output(x, output_mapping@, output_mapping@.len())));
            assert(nv == (NodeView {
                id: node_id,
                name: name@,
                op,
                inputs: inputs@,
                outputs: output_mapping@.map_values(|p: (TensorId, TensorId)| p.1),
            }));
        }
        Ok(node_id)
    }
}

proof fn lemma_fused_outputs_extends(
    t: Map<u32, TensorView>,
    mapping: Seq<(TensorId, TensorId)>,
    nid: NodeId,
    name: Seq<char>,
    i: int,
)
    requires
        0 <= i <= mapping.len(),
        fused_outputs(t, mapping.subrange(0, i), nid, name) is Err,
    ensures
        fused_outputs(t, mapping, nid, name) == fused_outputs(t, mapping.subrange(0, i), nid, name),
    decreases mapping.len() - i,
{
    if i < mapping.len() {
        assert(mapping.subrange(0, i + 1).drop_last() =~= mapping.subrange(0, i));
        lemma_fused_outputs_extends(t, mapping, nid, name, i + 1);
    } else {
        assert(mapping.subrange(0, i) =~= mapping);
    }
}

impl Graph {
    /// Look up a mutable tensor by id. What is written through the
    /// reference is what the graph holds afterwards.
    pub fn tensor_mut(&mut self, id: TensorId) -> (r: Option<&mut TensorMeta>)
        ensures
            match r {
                Some(t) => old(self)@.tensors.contains_key(id@) && t@ == old(self)@.tensors[id@]
                    && final(self)@ == (GraphView { tensors: old(self)@.tensors.insert(id@, final(t)@), ..old(self)@ }),
                None => !old(self)@.tensors.contains_key(id@) && final(self)@ == old(self)@,
            },
    {
        broadcast use vstd::std_specs::hash::group_hash_axioms;
        let ghost m0 = self.tensors@;
        let r = match self.tensors.entry(id.0) {
            std::collections::hash_map::Entry::Occupied(e) => Some(e.into_mut()),
            std::collections::hash_map::Entry::Vacant(_) => None,
        };
        proof {
            if r is Some {
                let t = r->0;
                assert(m0.insert(id@, *final(t)).map_values(|t: TensorMeta| t@)
                    =~= old(self)@.tensors.insert(id@, final(t)@));
            } else {
                assert(m0.remove(id@) =~= m0);
            }
        }
        r
    }
}

/// Consumers of the listed tensors, tensor by tensor, in order (unknown
/// tensors contribute none).
pub open spec fn succ_seq(g: GraphView, outs: Seq<TensorId>) -> Seq<NodeId>
    decreases outs.len(),
{
    if outs.len() == 0 {
        Seq::empty()
    } else {
        succ_seq(g, outs.drop_last()) + if g.tensors.contains_key(outs.last()@) {
            g.tensors[outs.last()@].consumers
        } else {
            Seq::empty()
        }
    }
}

impl Graph {
    /// Insert a pre-built node and register it, at most once, as a
    /// consumer of each of its existing input tensors.
    pub(crate) fn insert_node(&mut self, node: Node)
        requires
            old(self).wf(),
            node@.id@ < old(self)@.next_node_id,
        ensures
            final(self).wf(),
            final(self)@ == (GraphView {
                nodes: old(self)@.nodes.insert(node@.id@, node@),
                tensors: final(self)@.tensors,
                ..old(self)@
            }),
            final(self)@.tensors.dom() == old(self)@.tensors.dom(),
            forall|x: u32| #[trigger] old(self)@.tensors.contains_key(x) ==> final(self)@.tensors[x] ==
                if names_tensor(node@.inputs, x) && !old(self)@.tensors[x].consumers.contains(node@.id) {
                    with_consumers(old(self)@.tensors[x], seq![node@.id])
                } else {
                    old(self)@.tensors[x]
                },
    {
        let ghost g0 = self@;
        let ghost nv = node@;
        let mut i: usize = 0;
        while i < node.inputs.len()
            invariant
                self.wf(),
                nv == node@,
                i <= nv.inputs.len(),
                self@ == (GraphView { tensors: self@.tensors, ..g0 }),
                self@.tensors.dom() == g0.tensors.dom(),
                forall|x: u32| #[trigger] g0.tensors.contains_key(x) ==> self@.tensors[x] ==
                    if names_tensor(nv.inputs.subrange(0, i as int), x) && !g0.tensors[x].consumers.contains(nv.id) {
                        with_consumers(g0.tensors[x], seq![nv.id])
                    } else {
                        g0.tensors[x]
                    },
            decreases nv.inputs.len() - i,
        {
            let tid = node.inputs[i];
            let ghost before = self@.tensors;
            if let Some(mut t) = self.tensors.remove(&tid.0) {
                let ghost t0 = t@;
                if !contains_node(t.consumers.as_slice(), node.id) {
                    t.consumers.push(node.id);
                    proof {
                        assert(t0.consumers + seq![nv.id] =~= t0.consumers.push(nv.id));
                    }
                }
                self.tensors.insert(tid.0, t);
                proof {
                    assert(self@.tensors =~= before.insert(tid@, t@));
                    assert forall|x: u32| #[trigger] g0.tensors.contains_key(x) implies self@.tensors[x] ==
                        if names_tensor(nv.inputs.subrange(0, i + 1), x) && !g0.tensors[x].consumers.contains(nv.id) {
                            with_consumers(g0.tensors[x], seq![nv.id])
                        } else {
                            g0.tensors[x]
                        } by {
                        if x == tid@ {
                            assert(nv.inputs.subrange(0, i + 1)[i as int]@ == x);
                            if names_tensor(nv.inputs.subrange(0, i as int), x) && !g0.tensors[x].consumers.contains(nv.id) {
                                assert(t0.consumers.contains(nv.id)) by {
                                    assert(t0.consumers[t0.consumers.len() - 1] == nv.id);
                                }
                            }
                        } else {
                            if names_tensor(nv.inputs.subrange(0, i + 1), x) {
                                let w = choose|w: int| 0 <= w < i + 1 && #[trigger] nv.inputs.subrange(0, i + 1)[w]@ == x;
                                assert(nv.inputs.subrange(0, i as int)[w]@ == x);
                            }
                            if names_tensor(nv.inputs.subrange(0, i as int), x) {
                                let w = choose|w: int| 0 <= w < i && #[trigger] nv.inputs.subrange(0, i as int)[w]@ == x;
                                assert(nv.inputs.subrange(0, i + 1)[w]@ == x);
                            }
                        }
                    }
                }
            } else {
                proof {
                    assert(self@.tensors =~= before);
                    assert forall|x: u32| #[trigger] g0.tensors.contains_key(x) implies self@.tensors[x] ==
                        if names_tensor(nv.inputs.subrange(0, i + 1), x) && !g0.tensors[x].consumers.contains(nv.id) {
                            with_consumers(g0.tensors[x], seq![nv.id])
                        } else {
                            g0.tensors[x]
                        } by {
                        assert(x != tid@);
                        if names_tensor(nv.inputs.subrange(0, i + 1), x) {
                            let w = choose|w: int| 0 <= w < i + 1 && #[trigger] nv.inputs.subrange(0, i + 1)[w]@ == x;
                            assert(nv.inputs.subrange(0, i as int)[w]@ == x);
                        }
                        if names_tensor(nv.inputs.subrange(0, i as int), x) {
                            let w = choose|w: int| 0 <= w < i && #[trigger] nv.inputs.subrange(0, i as int)[w]@ == x;
                            assert(nv.inputs.subrange(0, i + 1)[w]@ == x);
                        }
                    }
                }
            }
            i = i + 1;
        }
        proof {
            assert(nv.inputs.subrange(0, nv.inputs.len() as int) =~= nv.inputs);
        }
        let ghost before = self@.nodes;
        self.nodes.insert(node.id.0, node);
        proof {
            assert(self@.nodes =~= before.insert(nv.id@, nv));
        }
    }

    /// Nodes consuming any output of `node_id`, output by output (with
    /// repetitions); empty for an unknown node.
    pub(crate) fn successors(&self, node_id: NodeId) -> (r: Vec<NodeId>)
        ensures
            r@ == if self@.nodes.contains_key(node_id@) {
                succ_seq(self@, self@.nodes[node_id@].outputs)
            } else {
                Seq::empty()
            },
    {
        let mut succs: Vec<NodeId> = Vec::new();
        if let Some(node) = self.nodes.get(&node_id.0) {
            let ghost outs = node@.outputs;
            let mut i: usize = 0;
            while i < node.outputs.len()
                invariant
                    outs == node@.outputs,
                    i <= outs.len(),
                    succs@ == succ_seq(self@, outs.subrange(0, i as int)),
                decreases outs.len() - i,
            {
                proof {
                    assert(outs.subrange(0, i + 1).drop_last() =~= outs.subrange(0, i as int));
                }
                if let Some(t) = self.tensors.get(&node.outputs[i].0) {
                    let mut c: usize = 0;
                    let ghost base = succs@;
                    while c < t.consumers.len()
                        invariant
                            c <= t.consumers@.len(),
                            succs@ == base + t.consumers@.subrange(0, c as int),
                        decreases t.consumers@.len() - c,
                    {
                        succs.push(t.consumers[c]);
                        proof {
                            assert(base + t.consumers@.subrange(0, c + 1) =~= (base + t.consumers@.subrange(0, c as int)).push(t.consumers@[c as int]));
                        }
                        c = c + 1;
                    }
                    proof {
                        assert(t.consumers@.subrange(0, t.consumers@.len() as int) =~= t.consumers@);
                    }
                } else {
                    proof {
                        assert(succs@ =~= succ_seq(self@, outs.subrange(0, i + 1)));
                    }
                }
                i = i + 1;
            }
            proof {
                assert(outs.subrange(0, outs.len() as int) =~= outs);
            }
        }
        succs
    }
}

/// `ids` without tensor `t`, order kept.
fn drop_tensor(ids: &Vec<TensorId>, t: TensorId) -> (r: Vec<TensorId>)
    ensures
        r@ == without_tensors(ids@, seq![t]),
{
    let mut r: Vec<TensorId> = Vec::new();
    let mut i: usize = 0;
    while i < ids.len()
        invariant
            i <= ids@.len(),
            r@ == without_tensors(ids@.subrange(0, i as int), seq![t]),
        decreases ids@.len() - i,
    {
        proof {
            assert(ids@.subrange(0, i + 1).drop_last() =~= ids@.subrange(0, i as int));
            assert(ids@.subrange(0, i + 1).last() == ids@[i as int]);
            if names_tensor(seq![t], ids@[i as int]@) {
                let w = choose|w: int| 0 <= w < 1 && #[trigger] seq![t][w]@ == ids@[i as int]@;
                assert(ids@[i as int]@ == t@);
            }
            if ids@[i as int]@ == t@ {
                assert(seq![t][0]@ == ids@[i as int]@);
            }
        }
        if ids[i].0 != t.0 {
            r.push(ids[i]);
        }
        i = i + 1;
    }
    proof {
        assert(ids@.subrange(0, ids@.len() as int) =~= ids@);
    }
    r
}

impl Graph {
    /// Detach tensor `t` from the outputs of node `node_id`, so that
    /// removing the node later keeps the tensor. Nothing changes for an
    /// unknown node.
    pub(crate) fn detach_output(&mut self, node_id: NodeId, t: TensorId)
        requires
            old(self).wf(),
        ensures
            final(self).wf(),
            final(self)@ == (GraphView {
                nodes: if old(self)@.nodes.contains_key(node_id@) {
                    old(self)@.nodes.insert(node_id@, NodeView {
                        outputs: without_tensors(old(self)@.nodes[node_id@].outputs, seq![t]),
                        ..old(self)@.nodes[node_id@]
                    })
                } else {
                    old(self)@.nodes
                },
                ..old(self)@
            }),
    {
        if let Some(mut nd) = self.nodes.remove(&node_id.0) {
            assert(nd == old(self).nodes@[node_id@]);
            let outs = drop_tensor(&nd.outputs, t);
            nd.outputs = outs;
            self.nodes.insert(node_id.0, nd);
            proof {
                assert(self.nodes@ =~= old(self).nodes@.insert(node_id@, nd));
                assert(self@.nodes =~= old(self)@.nodes.insert(node_id@, NodeView {
                    outputs: without_tensors(old(self)@.nodes[node_id@].outputs, seq![t]),
                    ..old(self)@.nodes[node_id@]
                }));
            }
        } else {
            proof {
                assert(self.nodes@ =~= old(self).nodes@);
                assert(self@.nodes =~= old(self)@.nodes);
            }
        }
    }
}

} // verus!
