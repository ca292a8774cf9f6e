//! The computation graph: nodes, tensors, and edges.
//!
//! A `Graph` is a dataflow graph where `Node`s perform operations and
//! `TensorMeta` edges carry shape/dtype metadata. No tensor data is stored.

use vstd::prelude::*;
use std::collections::HashMap;
use crate::dtype::DType;
use crate::error::owned;
use crate::op::shape::shape_to_vec;
use crate::graph::builder::{built_by_nodes, lemma_input_built};

pub mod builder;
mod node;
mod tensor;
pub mod topo;

pub use node::{Node, NodeView};
pub use tensor::{TensorMeta, TensorView, tensor_bytes};
pub use topo::{feeds, is_acyclic, is_topological, is_traversal, listed, lists_all};
pub(crate) use node::lemma_node_view;
pub(crate) use tensor::lemma_tensor_view;

verus! {

/// Unique identifier for a node in the computation graph.
#[derive(Debug, Clone, Copy, PartialEq, Eq, Hash, PartialOrd, Ord, Structural)]
pub struct NodeId(pub(crate) u32);

/// Unique identifier for a tensor (edge) in the computation graph.
#[derive(Debug, Clone, Copy, PartialEq, Eq, Hash, PartialOrd, Ord, Structural)]
pub struct TensorId(pub(crate) u32);

impl View for NodeId {
    type V = u32;

    closed spec fn view(&self) -> u32 {
        self.0
    }
}

impl View for TensorId {
    type V = u32;

    closed spec fn view(&self) -> u32 {
        self.0
    }
}

/// The model of an id is its number.
pub(crate) broadcast proof fn lemma_node_id_view(id: NodeId)
    ensures
        #[trigger] id@ == id.0,
{
}

/// The model of an id is its number.
pub(crate) broadcast proof fn lemma_tensor_id_view(id: TensorId)
    ensures
        #[trigger] id@ == id.0,
{
}

/// Ids are equal exactly when their numbers are.
pub proof fn lemma_ids_by_number(a: NodeId, b: NodeId, s: TensorId, t: TensorId)
    ensures
        (a@ == b@) == (a == b),
        (s@ == t@) == (s == t),
{
}

impl NodeId {
    /// The label of this id, e.g. `n3`.
    pub fn label(&self) -> (r: String)
        ensures
            r@ == "n"@ + crate::text::dec_text(self@ as nat),
    {
        broadcast use group_graph_model;
        let mut s = owned("n");
        crate::text::push_dec(&mut s, self.0 as u64);
        s
    }
}

impl TensorId {
    /// The label of this id, e.g. `t3`.
    pub fn label(&self) -> (r: String)
        ensures
            r@ == "t"@ + crate::text::dec_text(self@ as nat),
    {
        broadcast use group_graph_model;
        let mut s = owned("t");
        crate::text::push_dec(&mut s, self.0 as u64);
        s
    }
}

/// The computation graph.
///
/// A directed graph where nodes are operations and edges are tensors. It
/// tracks the structure and metadata needed for optimization passes, but
/// does not execute the operations.
#[derive(Debug, Clone)]
pub struct Graph {
    pub(crate) nodes: HashMap<u32, Node>,
    pub(crate) tensors: HashMap<u32, TensorMeta>,
    pub(crate) next_node_id: u32,
    pub(crate) next_tensor_id: u32,
    pub(crate) name: String,
    pub(crate) inputs: Vec<TensorId>,
    pub(crate) outputs: Vec<TensorId>,
}

/// The mathematical model of a [`Graph`].
pub struct GraphView {
    /// Nodes by id number.
    pub nodes: Map<u32, NodeView>,
    /// Tensors by id number.
    pub tensors: Map<u32, TensorView>,
    /// The next node id to hand out.
    pub next_node_id: u32,
    /// The next tensor id to hand out.
    pub next_tensor_id: u32,
    /// Name of the graph.
    pub name: Seq<char>,
    /// Graph-level inputs, in declaration order.
    pub inputs: Seq<TensorId>,
    /// Graph-level outputs.
    pub outputs: Seq<TensorId>,
}

impl GraphView {
    /// Every node and tensor is stored under its own id, and every id
    /// handed out so far is below the next one to hand out.
    pub open spec fn wf(self) -> bool {
        &&& forall|k: u32| #[trigger] self.nodes.contains_key(k) ==> self.nodes[k].id@ == k && k < self.next_node_id
        &&& forall|k: u32| #[trigger] self.tensors.contains_key(k) ==> self.tensors[k].id@ == k && k < self.next_tensor_id
    }
}

impl View for Graph {
    type V = GraphView;

    closed spec fn view(&self) -> GraphView {
        GraphView {
            nodes: self.nodes@.map_values(|n: Node| n@),
            tensors: self.tensors@.map_values(|t: TensorMeta| t@),
            next_node_id: self.next_node_id,
            next_tensor_id: self.next_tensor_id,
            name: self.name@,
            inputs: self.inputs@,
            outputs: self.outputs@,
        }
    }
}

/// The model of a graph is made of its fields.
pub(crate) broadcast proof fn lemma_graph_view(g: Graph)
    ensures
        #[trigger] g@ == (GraphView {
            nodes: g.nodes@.map_values(|n: Node| n@),
            tensors: g.tensors@.map_values(|t: TensorMeta| t@),
            next_node_id: g.next_node_id,
            next_tensor_id: g.next_tensor_id,
            name: g.name@,
            inputs: g.inputs@,
            outputs: g.outputs@,
        }),
{
}

pub(crate) broadcast group group_graph_model {
    lemma_graph_view,
    lemma_node_view,
    lemma_tensor_view,
    lemma_node_id_view,
    lemma_tensor_id_view,
    vstd::std_specs::hash::group_hash_axioms,
}

/// Node models with keys below `n`, by ascending key.
pub open spec fn nodes_below(m: Map<u32, NodeView>, n: nat) -> Seq<NodeView>
    decreases n,
{
    if n == 0 {
        Seq::empty()
    } else {
        let k = (n - 1) as u32;
        nodes_below(m, (n - 1) as nat) + if m.contains_key(k) { seq![m[k]] } else { Seq::empty() }
    }
}

/// Tensor models with keys below `n`, by ascending key.
pub open spec fn tensors_below(m: Map<u32, TensorView>, n: nat) -> Seq<TensorView>
    decreases n,
{
    if n == 0 {
        Seq::empty()
    } else {
        let k = (n - 1) as u32;
        tensors_below(m, (n - 1) as nat) + if m.contains_key(k) { seq![m[k]] } else { Seq::empty() }
    }
}

/// `g` with `t` appended to its outputs unless it is one already.
pub open spec fn with_output(g: GraphView, t: TensorId) -> GraphView {
    GraphView { outputs: if g.outputs.contains(t) { g.outputs } else { g.outputs.push(t) }, ..g }
}

/// Marking a tensor as an output twice is the same as marking it once,
/// and afterwards it is an output.
pub proof fn lemma_mark_output_idempotent(g: GraphView, t: TensorId)
    ensures
        with_output(with_output(g, t), t) == with_output(g, t),
        with_output(g, t).outputs.contains(t),
{
    if !g.outputs.contains(t) {
        assert(g.outputs.push(t)[g.outputs.len() as int] == t);
    }
}

impl Graph {
    /// The graph is well formed (see [`GraphView::wf`]).
    pub open spec fn wf(&self) -> bool {
        self@.wf()
    }

    /// Create a new empty graph with the given name.
    pub fn new(name: &str) -> (r: Graph)
        ensures
            r@ == (GraphView {
                nodes: Map::empty(),
                tensors: Map::empty(),
                next_node_id: 0,
                next_tensor_id: 0,
                name: name@,
                inputs: Seq::empty(),
                outputs: Seq::empty(),
            }),
            r.wf(),
            built_by_nodes(r@),
    {
        broadcast use group_graph_model;
        let r = Graph {
            nodes: HashMap::new(),
            tensors: HashMap::new(),
            next_node_id: 0,
            next_tensor_id: 0,
            name: owned(name),
            inputs: Vec::new(),
            outputs: Vec::new(),
        };
        proof {
            assert(r@.nodes =~= Map::empty());
            assert(r@.tensors =~= Map::empty());
            crate::graph::builder::lemma_empty_built(r@);
        }
        r
    }

    /// The name of this graph.
    pub fn name(&self) -> (r: &str)
        ensures
            r@ == self@.name,
    {
        broadcast use group_graph_model;
        self.name.as_str()
    }

    /// Add a graph-level input tensor (no producer node).
    pub fn input(&mut self, name: &str, shape: &[usize], dtype: DType) -> (r: TensorId)
        requires
            old(self).wf(),
            old(self)@.next_tensor_id < u32::MAX,
        ensures
            final(self).wf(),
            r@ == old(self)@.next_tensor_id,
            final(self)@ == (GraphView {
                tensors: old(self)@.tensors.insert(r@, TensorView {
                    id: r,
                    shape: shape@,
                    dtype,
                    producer: None,
                    consumers: Seq::empty(),
                    name: name@,
                }),
                next_tensor_id: (old(self)@.next_tensor_id + 1) as u32,
                inputs: old(self)@.inputs.push(r),
                ..old(self)@
            }),
            built_by_nodes(old(self)@) ==> built_by_nodes(final(self)@),
    {
        broadcast use group_graph_model;
        let id = self.alloc_tensor_id();
        let t = TensorMeta {
            id,
            shape: shape_to_vec(shape),
            dtype,
            producer: None,
            consumers: Vec::new(),
            name: owned(name),
        };
        self.tensors.insert(id.0, t);
        self.inputs.push(id);
        proof {
            assert(self@.tensors =~= old(self)@.tensors.insert(id@, t@));
            if built_by_nodes(old(self)@) {
                lemma_input_built(old(self)@, self@, t@);
            }
        }
        id
    }

    /// Allocate a new unique node ID.
    pub fn alloc_node_id(&mut self) -> (r: NodeId)
        requires
            old(self)@.next_node_id < u32::MAX,
        ensures
            r@ == old(self)@.next_node_id,
            final(self)@ == (GraphView { next_node_id: (old(self)@.next_node_id + 1) as u32, ..old(self)@ }),
            old(self).wf() ==> final(self).wf(),
    {
        broadcast use group_graph_model;
        let id = self.next_node_id;
        self.next_node_id = id + 1;
        NodeId(id)
    }

    /// Allocate a new unique tensor ID.
    pub fn alloc_tensor_id(&mut self) -> (r: TensorId)
        requires
            old(self)@.next_tensor_id < u32::MAX,
        ensures
            r@ == old(self)@.next_tensor_id,
            final(self)@ == (GraphView { next_tensor_id: (old(self)@.next_tensor_id + 1) as u32, ..old(self)@ }),
            old(self).wf() ==> final(self).wf(),
    {
        broadcast use group_graph_model;
        let id = self.next_tensor_id;
        self.next_tensor_id = id + 1;
        TensorId(id)
    }

    /// Mark a tensor as a graph-level output; marking it again changes
    /// nothing.
    pub fn mark_output(&mut self, tensor_id: TensorId)
        ensures
            final(self)@ == with_output(old(self)@, tensor_id),
            old(self).wf() ==> final(self).wf(),
    {
        broadcast use group_graph_model;
        let mut i: usize = 0;
        while i < self.outputs.len()
            invariant
                self.outputs@ == old(self).outputs@,
                i <= self.outputs@.len(),
                forall|j: int| 0 <= j < i ==> self.outputs@[j] != tensor_id,
            decreases self.outputs@.len() - i,
        {
            if self.outputs[i] == tensor_id {
                return;
            }
            i = i + 1;
        }
        self.outputs.push(tensor_id);
    }

    /// Look up a tensor by id.
    pub fn tensor(&self, id: TensorId) -> (r: Option<&TensorMeta>)
        ensures
            match r {
                Some(t) => self@.tensors.contains_key(id@) && t@ == self@.tensors[id@],
                None => !self@.tensors.contains_key(id@),
            },
    {
        broadcast use group_graph_model;
        self.tensors.get(&id.0)
    }

    /// Look up a node by id.
    pub fn node_by_id(&self, id: NodeId) -> (r: Option<&Node>)
        ensures
            match r {
                Some(n) => self@.nodes.contains_key(id@) && n@ == self@.nodes[id@],
                None => !self@.nodes.contains_key(id@),
            },
    {
        broadcast use group_graph_model;
        self.nodes.get(&id.0)
    }

    /// All nodes of the graph, by ascending id.
    pub fn nodes(&self) -> (r: Vec<&Node>)
        ensures
            r@.map_values(|n: &Node| n@) == nodes_below(self@.nodes, self@.next_node_id as nat),
    {
        broadcast use group_graph_model;
        let mut r: Vec<&Node> = Vec::new();
        let mut k: u32 = 0;
        while k < self.next_node_id
            invariant
                k <= self.next_node_id,
                r@.map_values(|n: &Node| n@) == nodes_below(self@.nodes, k as nat),
            decreases self.next_node_id - k,
        {
            let ghost before = r@;
            match self.nodes.get(&k) {
                Some(n) => {
                    r.push(n);
                    proof {
                        assert(r@.map_values(|n: &Node| n@) =~= before.map_values(|n: &Node| n@) + seq![self@.nodes[k]]);
                    }
                },
                None => {
                    proof {
                        assert(nodes_below(self@.nodes, (k + 1) as nat) =~= nodes_below(self@.nodes, k as nat));
                    }
                },
            }
            k = k + 1;
        }
        r
    }

    /// All tensors of the graph, by ascending id.
    pub fn tensors(&self) -> (r: Vec<&TensorMeta>)
        ensures
            r@.map_values(|t: &TensorMeta| t@) == tensors_below(self@.tensors, self@.next_tensor_id as nat),
    {
        broadcast use group_graph_model;
        let mut r: Vec<&TensorMeta> = Vec::new();
        let mut k: u32 = 0;
        while k < self.next_tensor_id
            invariant
                k <= self.next_tensor_id,
                r@.map_values(|t: &TensorMeta| t@) == tensors_below(self@.tensors, k as nat),
            decreases self.next_tensor_id - k,
        {
            let ghost before = r@;
            match self.tensors.get(&k) {
                Some(t) => {
                    r.push(t);
                    proof {
                        assert(r@.map_values(|t: &TensorMeta| t@) =~= before.map_values(|t: &TensorMeta| t@) + seq![self@.tensors[k]]);
                    }
                },
                None => {
                    proof {
                        assert(tensors_below(self@.tensors, (k + 1) as nat) =~= tensors_below(self@.tensors, k as nat));
                    }
                },
            }
            k = k + 1;
        }
        r
    }

    /// Number of nodes in the graph.
    pub fn num_nodes(&self) -> (r: usize)
        ensures
            r == self@.nodes.len(),
    {
        broadcast use group_graph_model;
        proof {
            assert(self@.nodes.dom() =~= self.nodes@.dom());
        }
        self.nodes.len()
    }

    /// Number of tensors in the graph.
    pub fn num_tensors(&self) -> (r: usize)
        ensures
            r == self@.tensors.len(),
    {
        broadcast use group_graph_model;
        proof {
            assert(self@.tensors.dom() =~= self.tensors@.dom());
        }
        self.tensors.len()
    }

    /// Graph-level input tensor IDs.
    pub fn graph_inputs(&self) -> (r: &[TensorId])
        ensures
            r@ == self@.inputs,
    {
        broadcast use group_graph_model;
        self.inputs.as_slice()
    }

    /// Graph-level output tensor IDs.
    pub fn graph_outputs(&self) -> (r: &[TensorId])
        ensures
            r@ == self@.outputs,
    {
        broadcast use group_graph_model;
        self.outputs.as_slice()
    }

    /// Update the producer of a tensor; nothing changes when the tensor
    /// does not exist.
    pub fn update_tensor_producer(&mut self, tensor_id: TensorId, new_producer: Option<NodeId>)
        ensures
            final(self)@ == (GraphView {
                tensors: if old(self)@.tensors.contains_key(tensor_id@) {
                    old(self)@.tensors.insert(tensor_id@,
                        TensorView { producer: new_producer, ..old(self)@.tensors[tensor_id@] })
                } else {
                    old(self)@.tensors
                },
                ..old(self)@
            }),
            old(self).wf() ==> final(self).wf(),
    {
        broadcast use group_graph_model;
        if let Some(mut t) = self.tensors.remove(&tensor_id.0) {
            assert(t == old(self).tensors@[tensor_id@]);
            t.producer = new_producer;
            self.tensors.insert(tensor_id.0, t);
            proof {
                assert(self.tensors@ =~= old(self).tensors@.insert(tensor_id@, t));
                assert(self@.tensors =~= old(self)@.tensors.insert(tensor_id@,
                    TensorView { producer: new_producer, ..old(self)@.tensors[tensor_id@] }));
            }
        } else {
            proof {
                assert(self.tensors@ =~= old(self).tensors@);
                assert(self@.tensors =~= old(self)@.tensors);
            }
        }
    }
}

} // verus!
