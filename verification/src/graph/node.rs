use vstd::prelude::*;
use crate::error::owned;
use crate::graph::{NodeId, TensorId};
use crate::op::Op;

verus! {

/// A computation node in the graph.
///
/// A node represents a single operation (primitive or fused) that reads
/// input tensors and produces output tensors.
#[derive(Debug, Clone)]
pub struct Node {
    pub(crate) id: NodeId,
    pub(crate) name: String,
    pub(crate) op: Op,
    pub(crate) inputs: Vec<TensorId>,
    pub(crate) outputs: Vec<TensorId>,
}

/// The mathematical model of a [`Node`].
pub struct NodeView {
    /// Identifier of the node.
    pub id: NodeId,
    /// Human-readable name.
    pub name: Seq<char>,
    /// The operation performed.
    pub op: Op,
    /// Tensors consumed, in argument order.
    pub inputs: Seq<TensorId>,
    /// Tensors produced, in output order.
    pub outputs: Seq<TensorId>,
}

impl View for Node {
    type V = NodeView;

    closed spec fn view(&self) -> NodeView {
        NodeView {
            id: self.id,
            name: self.name@,
            op: self.op,
            inputs: self.inputs@,
            outputs: self.outputs@,
        }
    }
}

/// The model of a node is made of its fields.
pub(crate) broadcast proof fn lemma_node_view(n: Node)
    ensures
        #[trigger] n@ == (NodeView {
            id: n.id,
            name: n.name@,
            op: n.op,
            inputs: n.inputs@,
            outputs: n.outputs@,
        }),
{
}

impl Node {
    /// Create a new computation node.
    pub fn new(id: NodeId, name: &str, op: Op, inputs: Vec<TensorId>, outputs: Vec<TensorId>) -> (r: Node)
        ensures
            r@ == (NodeView { id, name: name@, op, inputs: inputs@, outputs: outputs@ }),
    {
        Node { id, name: owned(name), op, inputs, outputs }
    }

    /// Unique identifier for this node.
    pub fn id(&self) -> (r: NodeId)
        ensures
            r == self@.id,
    {
        self.id
    }

    /// Human-readable name.
    pub fn name(&self) -> (r: &str)
        ensures
            r@ == self@.name,
    {
        self.name.as_str()
    }

    /// The operation performed by this node.
    pub fn op(&self) -> (r: &Op)
        ensures
            *r == self@.op,
    {
        &self.op
    }

    /// Tensors consumed by this node.
    pub fn inputs(&self) -> (r: &[TensorId])
        ensures
            r@ == self@.inputs,
    {
        self.inputs.as_slice()
    }

    /// Tensors produced by this node.
    pub fn outputs(&self) -> (r: &[TensorId])
        ensures
            r@ == self@.outputs,
    {
        self.outputs.as_slice()
    }
}

} // verus!
