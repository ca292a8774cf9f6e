use vstd::prelude::*;
use crate::arith::elements;
use crate::dtype::DType;
use crate::graph::{NodeId, TensorId};
use crate::op::flops::elements_saturating;

verus! {

/// Metadata of a tensor (an edge of the graph): its shape, element type,
/// producing node and consuming nodes. No tensor data is stored.
#[derive(Debug, Clone)]
pub struct TensorMeta {
    pub(crate) id: TensorId,
    pub(crate) shape: Vec<usize>,
    pub(crate) dtype: DType,
    pub(crate) producer: Option<NodeId>,
    pub(crate) consumers: Vec<NodeId>,
    pub(crate) name: String,
}

/// The mathematical model of a [`TensorMeta`].
pub struct TensorView {
    /// Identifier of the tensor.
    pub id: TensorId,
    /// Dimensions.
    pub shape: Seq<usize>,
    /// Element type.
    pub dtype: DType,
    /// Producing node; `None` for graph inputs.
    pub producer: Option<NodeId>,
    /// Consuming nodes, once per use.
    pub consumers: Seq<NodeId>,
    /// Human-readable name.
    pub name: Seq<char>,
}

impl View for TensorMeta {
    type V = TensorView;

    closed spec fn view(&self) -> TensorView {
        TensorView {
            id: self.id,
            shape: self.shape@,
            dtype: self.dtype,
            producer: self.producer,
            consumers: self.consumers@,
            name: self.name@,
        }
    }
}

/// The model of a tensor is made of its fields.
pub(crate) broadcast proof fn lemma_tensor_view(t: TensorMeta)
    ensures
        #[trigger] t@ == (TensorView {
            id: t.id,
            shape: t.shape@,
            dtype: t.dtype,
            producer: t.producer,
            consumers: t.consumers@,
            name: t.name@,
        }),
{
}

/// Bytes a tensor occupies: its saturating element count in its dtype.
pub open spec fn tensor_bytes(t: TensorView) -> u64 {
    t.dtype.spec_bytes_for(elements(t.shape))
}

impl TensorMeta {
    /// Unique identifier of this tensor.
    pub fn id(&self) -> (r: TensorId)
        ensures
            r == self@.id,
    {
        self.id
    }

    /// Shape of the tensor.
    pub fn shape(&self) -> (r: &[usize])
        ensures
            r@ == self@.shape,
    {
        self.shape.as_slice()
    }

    /// Element data type.
    pub fn dtype(&self) -> (r: DType)
        ensures
            r == self@.dtype,
    {
        self.dtype
    }

    /// Change the element data type, leaving everything else unchanged.
    pub fn set_dtype(&mut self, dtype: DType)
        ensures
            final(self)@ == (TensorView { dtype, ..old(self)@ }),
    {
        self.dtype = dtype;
    }

    /// The node producing this tensor, if any (graph inputs have none).
    pub fn producer(&self) -> (r: Option<NodeId>)
        ensures
            r == self@.producer,
    {
        self.producer
    }

    /// The nodes consuming this tensor, once per use.
    pub fn consumers(&self) -> (r: &[NodeId])
        ensures
            r@ == self@.consumers,
    {
        self.consumers.as_slice()
    }

    /// Human-readable name.
    pub fn name(&self) -> (r: &str)
        ensures
            r@ == self@.name,
    {
        self.name.as_str()
    }

    /// Total bytes of this tensor, saturating at `u64::MAX`.
    pub fn byte_size(&self) -> (r: u64)
        ensures
            r == tensor_bytes(self@),
    {
        self.dtype.byte_size_for_elements(elements_saturating(self.shape.as_slice()))
    }
}

} // verus!
