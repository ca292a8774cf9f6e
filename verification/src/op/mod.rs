//! Operations of the computation graph, their shape rules and cost models.

use vstd::prelude::*;
use crate::scalar::Float32;

/// FLOP estimates per operation.
pub mod flops;
/// HBM traffic estimates per operation.
pub mod hbm;
/// Output-shape inference per operation.
pub mod shape;

verus! {

/// Supported activation functions for fused operations.
#[derive(Debug, Clone, Copy, PartialEq, Eq, Hash, Structural)]
#[non_exhaustive]
pub enum Activation {
    /// Rectified Linear Unit.
    Relu,
    /// Gaussian Error Linear Unit.
    Gelu,
    /// Sigmoid Linear Unit.
    Silu,
}

/// Computation operations available in the graph.
#[derive(Debug, Clone, PartialEq)]
#[non_exhaustive]
pub enum Op {
    /// Matrix multiplication.
    MatMul,
    /// Linear transformation (dense layer).
    Linear {
        /// Output features dimension.
        out_features: usize,
        /// Whether the layer has a bias vector.
        bias: bool,
    },
    /// Layer normalization.
    LayerNorm {
        /// Epsilon value for numerical stability.
        eps: Float32,
    },
    /// Softmax activation over a specific dimension.
    Softmax {
        /// Dimension to apply softmax over.
        dim: isize,
    },
    /// Rectified Linear Unit activation.
    Relu,
    /// Gaussian Error Linear Unit activation.
    Gelu,
    /// Sigmoid Linear Unit activation.
    Silu,
    /// Element-wise addition.
    Add,
    /// Element-wise multiplication.
    Mul,
    /// Multiplication by a scalar value.
    ScalarMul {
        /// Scalar factor.
        factor: Float32,
    },
    /// Reshape tensor dimensions.
    Reshape {
        /// Target shape (-1 means infer).
        target: Vec<isize>,
    },
    /// Transpose tensor dimensions.
    Transpose {
        /// Permutation mapping.
        perm: Vec<usize>,
    },
    /// Split a tensor into multiple sections.
    Split {
        /// Dimension to split on.
        dim: isize,
        /// Sizes of the individual sections.
        sections: Vec<usize>,
    },
    /// Concatenate multiple tensors.
    Concat {
        /// Dimension to concatenate on.
        axis: isize,
    },
    /// Vision transformer patch embedding.
    PatchEmbed {
        /// Size of spatial patches.
        patch_size: usize,
        /// Number of input image channels.
        in_channels: usize,
        /// Output embedding dimension.
        embed_dim: usize,
    },
    /// A fused attention block (MHA/GQA/MQA).
    FusedAttentionBlock {
        /// Number of attention heads.
        num_heads: usize,
        /// Dimension of each head.
        head_dim: usize,
        /// Hidden dimension.
        hidden_dim: usize,
        /// Whether projections have biases.
        has_bias: bool,
    },
    /// A fused feed-forward network block.
    FusedFfnBlock {
        /// Hidden dimension (input/output).
        hidden_dim: usize,
        /// Intermediate expanded dimension.
        intermediate_dim: usize,
        /// Activation function used.
        activation: Activation,
        /// Whether projections have biases.
        has_bias: bool,
    },
    /// A fully fused transformer layer (Attention + FFN).
    FusedTransformerLayer {
        /// Number of attention heads.
        num_heads: usize,
        /// Dimension of each head.
        head_dim: usize,
        /// Hidden dimension (input/output).
        hidden_dim: usize,
        /// Intermediate expanded dimension for FFN.
        intermediate_dim: usize,
        /// Activation function for FFN.
        activation: Activation,
        /// Whether projections have biases.
        has_bias: bool,
    },
}

/// The shapes held by a slice of shape slices.
pub open spec fn shapes_view(s: &[&[usize]]) -> Seq<Seq<usize>> {
    s@.map_values(|x: &[usize]| x@)
}

/// The shapes held by a vector of shape vectors.
pub open spec fn vecs_view(v: Vec<Vec<usize>>) -> Seq<Seq<usize>> {
    v@.map_values(|x: Vec<usize>| x@)
}

impl Op {
    /// The short lowercase name of the operation.
    pub open spec fn spec_name(&self) -> Seq<char> {
        match self {
            Op::MatMul => "matmul"@,
            Op::Linear { .. } => "linear"@,
            Op::LayerNorm { .. } => "layer_norm"@,
            Op::Softmax { .. } => "softmax"@,
            Op::Relu => "relu"@,
            Op::Gelu => "gelu"@,
            Op::Silu => "silu"@,
            Op::Add => "add"@,
            Op::Mul => "mul"@,
            Op::ScalarMul { .. } => "scalar_mul"@,
            Op::Reshape { .. } => "reshape"@,
            Op::Transpose { .. } => "transpose"@,
            Op::Split { .. } => "split"@,
            Op::Concat { .. } => "concat"@,
            Op::PatchEmbed { .. } => "patch_embed"@,
            Op::FusedAttentionBlock { .. } => "fused_attention_block"@,
            Op::FusedFfnBlock { .. } => "fused_ffn_block"@,
            Op::FusedTransformerLayer { .. } => "fused_transformer_layer"@,
        }
    }

    /// The operation is one of the fused blocks.
    pub open spec fn spec_is_fused(&self) -> bool {
        self is FusedAttentionBlock || self is FusedFfnBlock || self is FusedTransformerLayer
    }

    /// Return the string name of the op.
    pub fn name(&self) -> (r: &'static str)
        ensures
            r@ == self.spec_name(),
    {
        match self {
            Op::MatMul => "matmul",
            Op::Linear { .. } => "linear",
            Op::LayerNorm { .. } => "layer_norm",
            Op::Softmax { .. } => "softmax",
            Op::Relu => "relu",
            Op::Gelu => "gelu",
            Op::Silu => "silu",
            Op::Add => "add",
            Op::Mul => "mul",
            Op::ScalarMul { .. } => "scalar_mul",
            Op::Reshape { .. } => "reshape",
            Op::Transpose { .. } => "transpose",
            Op::Split { .. } => "split",
            Op::Concat { .. } => "concat",
            Op::PatchEmbed { .. } => "patch_embed",
            Op::FusedAttentionBlock { .. } => "fused_attention_block",
            Op::FusedFfnBlock { .. } => "fused_ffn_block",
            Op::FusedTransformerLayer { .. } => "fused_transformer_layer",
        }
    }

    /// Returns true if this operation is a fused operation block.
    pub fn is_fused(&self) -> (r: bool)
        ensures
            r == self.spec_is_fused(),
    {
        match self {
            Op::FusedAttentionBlock { .. } | Op::FusedFfnBlock { .. }
            | Op::FusedTransformerLayer { .. } => true,
            _ => false,
        }
    }

    /// Return the number of outputs generated: one per section for a
    /// split, one for every other operation.
    pub fn num_outputs(&self) -> (r: usize)
        ensures
            r == (match self {
                Op::Split { sections, .. } => sections@.len(),
                _ => 1,
            }),
    {
        match self {
            Op::Split { sections, .. } => sections.len(),
            _ => 1,
        }
    }
}

/// Resolve a possibly-negative axis (numpy/PyTorch convention: -1 is the
/// last axis) against a rank; `None` when it falls outside `[-rank, rank)`.
pub open spec fn spec_normalize_axis(axis: isize, rank: usize) -> Option<usize> {
    let resolved: int = if axis < 0 { axis + rank } else { axis as int };
    if 0 <= resolved < rank { Some(resolved as usize) } else { None }
}

/// Normalize a possibly-negative axis against a tensor rank, returning
/// `None` when it falls outside `[-rank, rank)`.
pub fn normalize_axis(axis: isize, rank: usize) -> (r: Option<usize>)
    ensures
        r == spec_normalize_axis(axis, rank),
{
    if axis < 0 {
        let m: isize = axis + 1;
        let magnitude: usize = ((0 - m) as usize) + 1;
        if magnitude <= rank {
            Some(rank - magnitude)
        } else {
            None
        }
    } else {
        let a: usize = axis as usize;
        if a < rank {
            Some(a)
        } else {
            None
        }
    }
}

/// Last dimension of a shape, 1 for the empty shape.
pub open spec fn spec_last_dim(shape: Seq<usize>) -> u64 {
    if shape.len() == 0 { 1 } else { shape.last() as u64 }
}

/// Last dimension of a shape as `u64`; 1 for a rank-0 shape.
pub fn last_dim(shape: &[usize]) -> (r: u64)
    ensures
        r == spec_last_dim(shape@),
{
    if shape.len() == 0 {
        1
    } else {
        shape[shape.len() - 1] as u64
    }
}

} // verus!
